use vstd::prelude::*;

verus! {

/// Does `s` begin with `prefix`, character for character?
pub fn string_starts_with(s: &String, prefix: &String) -> (r: bool)
    ensures
        r == prefix@.is_prefix_of(s@),
{
    let s_ref: &str = s.as_str();
    let p_ref: &str = prefix.as_str();
    let n: usize = p_ref.unicode_len();
    if n > s_ref.unicode_len() {
        assert(!prefix@.is_prefix_of(s@));
        return false;
    }
    let mut i: usize = 0;
    while i < n
        invariant
            0 <= i <= n,
            n == prefix@.len(),
            n <= s@.len(),
            s_ref@ == s@,
            p_ref@ == prefix@,
            forall|j: int| 0 <= j < i ==> s@[j] == prefix@[j],
        decreases n - i,
    {
        if s_ref.get_char(i) != p_ref.get_char(i) {
            assert(!prefix@.is_prefix_of(s@));
            return false;
        }
        i = i + 1;
    }
    assert(prefix@.is_prefix_of(s@)) by {
        assert(prefix@ =~= s@.subrange(0, n as int));
    }
    true
}

/// The concatenation of two asset names, as a fresh symbol string.
pub fn concat_names(a: &String, b: &String) -> (r: String)
    ensures
        r@ == a@ + b@,
{
    let base: String = a.clone();
    base.concat(b.as_str())
}

/// The concatenation of an asset name and a literal suffix.
pub fn concat_suffix(a: &String, suffix: &str) -> (r: String)
    ensures
        r@ == a@ + suffix@,
{
    let base: String = a.clone();
    base.concat(suffix)
}

/// Does `a` read exactly as the literal `lit`?
pub fn str_name_eq(a: &String, lit: &str) -> (r: bool)
    ensures
        r == (a@ == lit@),
{
    let s = String::from_str(lit);
    a.eq(&s)
}

/// Does the vector hold a string that reads as `name`?
pub fn vec_contains_name(v: &Vec<String>, name: &String) -> (r: bool)
    ensures
        r == v.deep_view().contains(name@),
{
    let n = v.len();
    let mut i: usize = 0;
    while i < n
        invariant
            0 <= i <= n,
            n == v@.len(),
            forall|j: int| 0 <= j < i ==> v@[j]@ != name@,
        decreases n - i,
    {
        if v[i].eq(name) {
            assert(v.deep_view()[i as int] == name@);
            return true;
        }
        i = i + 1;
    }
    assert(forall|j: int| 0 <= j < v.deep_view().len() ==> v.deep_view()[j] != name@);
    false
}

} // verus!
