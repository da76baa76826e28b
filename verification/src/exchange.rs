use vstd::prelude::*;

verus! {

/// The last traded price of one symbol, fixed-point scaled.
#[derive(Clone, Debug)]
pub struct PricePoint {
    pub symbol: String,
    pub price: u128,
}

/// A read-only view of the exchange state at one instant: the traded
/// symbols whose trading-rule metadata is known, and the last price per
/// symbol.
#[derive(Clone, Debug)]
pub struct ExchangeSnapshot {
    pub symbols: Vec<String>,
    pub prices: Vec<PricePoint>,
}

/// Whether some entry of `symbols` reads exactly `name`.
pub open spec fn spec_has_symbol(symbols: Seq<Seq<char>>, name: Seq<char>) -> bool {
    exists|i: int| 0 <= i < symbols.len() && symbols[i] == name
}

/// The price recorded for `name`: the first matching entry, if any.
pub open spec fn spec_price_of(prices: Seq<PricePoint>, name: Seq<char>) -> Option<u128>
    decreases prices.len(),
{
    if prices.len() == 0 {
        None
    } else if prices[0].symbol@ == name {
        Some(prices[0].price)
    } else {
        spec_price_of(prices.drop_first(), name)
    }
}

proof fn lemma_price_of_step(prices: Seq<PricePoint>, name: Seq<char>, i: int)
    requires
        0 <= i < prices.len(),
        prices[i].symbol@ != name,
    ensures
        spec_price_of(prices.skip(i), name) == spec_price_of(prices.skip(i + 1), name),
{
    assert(prices.skip(i).len() > 0);
    assert(prices.skip(i)[0] == prices[i]);
    assert(prices.skip(i).drop_first() =~= prices.skip(i + 1));
}

impl ExchangeSnapshot {
    /// The map of symbol names this snapshot knows metadata for, as a view.
    pub open spec fn symbol_names(&self) -> Seq<Seq<char>> {
        self.symbols.deep_view()
    }

    /// Is `name` a traded symbol of this snapshot?
    pub fn has_symbol(&self, name: &String) -> (r: bool)
        ensures
            r == spec_has_symbol(self.symbol_names(), name@),
    {
        let n = self.symbols.len();
        let mut i: usize = 0;
        while i < n
            invariant
                0 <= i <= n,
                n == self.symbols.len(),
                forall|j: int| 0 <= j < i ==> self.symbols@[j]@ != name@,
            decreases n - i,
        {
            if self.symbols[i].eq(name) {
                assert(self.symbol_names()[i as int] == name@);
                return true;
            }
            i = i + 1;
        }
        assert(forall|j: int|
            0 <= j < self.symbol_names().len() ==> self.symbol_names()[j] != name@);
        false
    }

    /// The last price of `name`, if this snapshot holds one.
    pub fn price_of(&self, name: &String) -> (r: Option<u128>)
        ensures
            r == spec_price_of(self.prices@, name@),
    {
        let n = self.prices.len();
        let mut i: usize = 0;
        proof {
            assert(self.prices@.skip(0) =~= self.prices@);
        }
        while i < n
            invariant
                0 <= i <= n,
                n == self.prices.len(),
                spec_price_of(self.prices@, name@)
                    == spec_price_of(self.prices@.skip(i as int), name@),
            decreases n - i,
        {
            if self.prices[i].symbol.eq(name) {
                proof {
                    let tail = self.prices@.skip(i as int);
                    assert(tail.len() > 0);
                    assert(tail[0] == self.prices@[i as int]);
                    assert(spec_price_of(tail, name@) == Some(self.prices@[i as int].price));
                }
                return Some(self.prices[i].price);
            }
            proof {
                lemma_price_of_step(self.prices@, name@, i as int);
            }
            i = i + 1;
        }
        assert(self.prices@.skip(n as int) =~= Seq::<PricePoint>::empty());
        None
    }
}

} // verus!
