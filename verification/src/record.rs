use vstd::prelude::*;
use crate::constants::MAX_RECORD_ASSETS;
use crate::types::Edge;
use crate::strutil::vec_contains_name;

verus! {

/// The asset names a cycle touches, in leg order: each leg's `from`
/// followed by its `to`.
pub open spec fn cycle_assets(cycle: Seq<Edge>) -> Seq<Seq<char>> {
    Seq::new(
        2 * cycle.len(),
        |i: int|
            if i % 2 == 0 {
                cycle[i / 2].from@
            } else {
                cycle[i / 2].to@
            },
    )
}

/// Collect the distinct names of `names[i..]` into `acc`, in first-seen
/// order, never growing past the record's fixed width.
pub open spec fn spec_collect_distinct(
    names: Seq<Seq<char>>,
    i: int,
    acc: Seq<Seq<char>>,
) -> Seq<Seq<char>>
    decreases names.len() - i,
{
    if i < 0 || i >= names.len() {
        acc
    } else {
        let acc2 = if acc.len() < MAX_RECORD_ASSETS && !acc.contains(names[i]) {
            acc.push(names[i])
        } else {
            acc
        };
        spec_collect_distinct(names, i + 1, acc2)
    }
}

/// The distinct assets a record keeps for a cycle: the first eight in
/// order of appearance.
pub open spec fn spec_record_assets(cycle: Seq<Edge>) -> Seq<Seq<char>> {
    spec_collect_distinct(cycle_assets(cycle), 0, Seq::empty())
}

/// No name appears twice.
pub open spec fn distinct_names(s: Seq<Seq<char>>) -> bool {
    forall|i: int, j: int| 0 <= i < j < s.len() ==> s[i] != s[j]
}

/// Collect every distinct name of `names[i..]` into `acc`, in first-seen
/// order, with no width cap: its length counts the distinct names.
pub open spec fn spec_distinct_assets(
    names: Seq<Seq<char>>,
    i: int,
    acc: Seq<Seq<char>>,
) -> Seq<Seq<char>>
    decreases names.len() - i,
{
    if i < 0 || i >= names.len() {
        acc
    } else {
        let acc2 = if acc.contains(names[i]) {
            acc
        } else {
            acc.push(names[i])
        };
        spec_distinct_assets(names, i + 1, acc2)
    }
}

/// A count clipped to the record's fixed width.
pub open spec fn cap_of(n: int) -> int {
    if n < MAX_RECORD_ASSETS as int {
        n
    } else {
        MAX_RECORD_ASSETS as int
    }
}

proof fn lemma_capped_tracks_distinct(names: Seq<Seq<char>>, i: int, acc: Seq<Seq<char>>)
    requires
        0 <= i <= names.len(),
    ensures
        spec_collect_distinct(names, i, acc.take(cap_of(acc.len() as int)))
            == spec_distinct_assets(names, i, acc).take(
            cap_of(spec_distinct_assets(names, i, acc).len() as int),
        ),
        spec_distinct_assets(names, i, acc).len() >= acc.len(),
    decreases names.len() - i,
{
    let capped = acc.take(cap_of(acc.len() as int));
    if i >= names.len() {
    } else {
        let x = names[i];
        if acc.len() < MAX_RECORD_ASSETS as int {
            assert(capped =~= acc);
            if acc.contains(x) {
                lemma_capped_tracks_distinct(names, i + 1, acc);
            } else {
                let acc2 = acc.push(x);
                assert(acc2.take(cap_of(acc2.len() as int)) =~= acc2);
                assert(capped.push(x) =~= acc2);
                lemma_capped_tracks_distinct(names, i + 1, acc2);
            }
        } else {
            assert(capped.len() == MAX_RECORD_ASSETS as int);
            if acc.contains(x) {
                lemma_capped_tracks_distinct(names, i + 1, acc);
            } else {
                let acc2 = acc.push(x);
                assert(acc2.take(cap_of(acc2.len() as int)) =~= capped);
                lemma_capped_tracks_distinct(names, i + 1, acc2);
            }
        }
    }
}

/// Asset-overflow law, counted: the record keeps exactly the first
/// `min(8, d)` of a cycle's `d` distinct assets, in first-seen order; a
/// cycle touching nine distinct assets therefore keeps exactly eight and
/// silently drops the ninth.
pub proof fn lemma_record_assets_count(cycle: Seq<Edge>)
    ensures
        ({
            let d = spec_distinct_assets(cycle_assets(cycle), 0, Seq::empty());
            spec_record_assets(cycle) == d.take(cap_of(d.len() as int))
                && spec_record_assets(cycle).len() == cap_of(d.len() as int)
        }),
{
    lemma_capped_tracks_distinct(cycle_assets(cycle), 0, Seq::empty());
    assert(Seq::<Seq<char>>::empty().take(cap_of(0)) =~= Seq::<Seq<char>>::empty());
}

/// A confirmed opportunity as persisted: when it was seen, how many legs
/// the cycle had, the realized and surface rates (fixed-point scaled), and
/// up to eight distinct asset symbols of the cycle.
pub struct ArbitrageRecord {
    pub timestamp: u64,
    pub arb_length: usize,
    pub arb_rate: u128,
    pub arb_surface: i128,
    pub assets: Vec<String>,
}

/// Asset-overflow law: collecting distinct names never grows the record's
/// asset list past its fixed width, keeps it duplicate-free, and once the
/// width is reached nothing further is ever added.
pub proof fn lemma_record_assets_bounded(names: Seq<Seq<char>>, i: int, acc: Seq<Seq<char>>)
    requires
        0 <= i <= names.len(),
        acc.len() <= MAX_RECORD_ASSETS,
        distinct_names(acc),
    ensures
        spec_collect_distinct(names, i, acc).len() <= MAX_RECORD_ASSETS,
        distinct_names(spec_collect_distinct(names, i, acc)),
        acc.len() == MAX_RECORD_ASSETS ==> spec_collect_distinct(names, i, acc) == acc,
        spec_collect_distinct(names, i, acc).len() >= acc.len(),
    decreases names.len() - i,
{
    if i < names.len() {
        if acc.len() < MAX_RECORD_ASSETS && !acc.contains(names[i]) {
            let acc2 = acc.push(names[i]);
            assert(distinct_names(acc2)) by {
                assert(forall|k: int| 0 <= k < acc.len() ==> acc[k] != names[i]);
            }
            lemma_record_assets_bounded(names, i + 1, acc2);
        } else {
            lemma_record_assets_bounded(names, i + 1, acc);
        }
    }
}

/// Build the record for a confirmed profitable cycle.  The distinct assets
/// are collected in order of first appearance; a cycle touching more than
/// eight distinct assets silently drops the later ones.
pub fn build_arbitrage_record(
    cycle: &Vec<Edge>,
    arb_rate: u128,
    arb_surface: i128,
    timestamp: u64,
) -> (r: ArbitrageRecord)
    ensures
        r.timestamp == timestamp,
        r.arb_length == cycle@.len(),
        r.arb_rate == arb_rate,
        r.arb_surface == arb_surface,
        r.assets.deep_view() == spec_record_assets(cycle@),
        r.assets@.len() <= MAX_RECORD_ASSETS,
{
    let ghost names = cycle_assets(cycle@);
    let n = cycle.len();
    let mut assets: Vec<String> = Vec::new();
    let mut i: usize = 0;
    proof {
        assert(assets.deep_view() =~= Seq::<Seq<char>>::empty());
        lemma_record_assets_bounded(names, 0, Seq::empty());
    }
    while i < n
        invariant
            0 <= i <= n,
            n == cycle@.len(),
            names == cycle_assets(cycle@),
            assets@.len() <= MAX_RECORD_ASSETS,
            spec_collect_distinct(names, 2 * i as int, assets.deep_view())
                == spec_record_assets(cycle@),
        decreases n - i,
    {
        let ghost pre = assets.deep_view();
        push_distinct(&mut assets, &cycle[i].from);
        proof {
            assert((2 * i as int) % 2 == 0);
            assert((2 * i as int) / 2 == i as int);
            assert(names[2 * i as int] == cycle@[i as int].from@);
            assert(spec_collect_distinct(names, 2 * i as int + 1, assets.deep_view())
                == spec_record_assets(cycle@));
        }
        let ghost mid = assets.deep_view();
        push_distinct(&mut assets, &cycle[i].to);
        proof {
            assert((2 * i as int + 1) % 2 == 1);
            assert((2 * i as int + 1) / 2 == i as int);
            assert(names[2 * i as int + 1] == cycle@[i as int].to@);
            assert(spec_collect_distinct(names, 2 * (i as int + 1), assets.deep_view())
                == spec_record_assets(cycle@));
        }
        i = i + 1;
    }
    proof {
        assert(2 * n as int >= names.len());
    }
    ArbitrageRecord { timestamp, arb_length: n, arb_rate, arb_surface, assets }
}

/// Append one name when the record still has room and does not hold it
/// yet.
fn push_distinct(assets: &mut Vec<String>, name: &String)
    requires
        old(assets)@.len() <= MAX_RECORD_ASSETS,
    ensures
        final(assets)@.len() <= MAX_RECORD_ASSETS,
        final(assets).deep_view() == (if old(assets)@.len() < MAX_RECORD_ASSETS && !old(
            assets,
        ).deep_view().contains(name@) {
            old(assets).deep_view().push(name@)
        } else {
            old(assets).deep_view()
        }),
{
    if assets.len() < MAX_RECORD_ASSETS && !vec_contains_name(assets, name) {
        assets.push(name.clone());
        proof {
            assert(assets.deep_view() =~= old(assets).deep_view().push(name@));
        }
    }
}

} // verus!
