use vstd::prelude::*;

verus! {

/// Which side of the price/quantity arithmetic a leg uses: `Forward` sells
/// the leg's `from` asset on the traded symbol's base side, `Reverse` buys
/// it on the counter side.
#[derive(Clone, Copy, PartialEq, Eq, Structural, Debug)]
pub enum Direction {
    Forward,
    Reverse,
}

/// Which side of the order book a leg consults.
#[derive(Clone, Copy, PartialEq, Eq, Structural, Debug)]
pub enum BookType {
    Asks,
    Bids,
}

/// One order-book level: liquidity `quantity` offered at `price`, both
/// fixed-point scaled.  Books are ordered best price first.
#[derive(Clone, Copy, PartialEq, Eq, Structural, Debug)]
pub struct Level {
    pub price: u128,
    pub quantity: u128,
}

/// One leg of a candidate cycle, converting the `from` asset into the `to`
/// asset.
#[derive(Clone, Debug)]
pub struct Edge {
    pub from: String,
    pub to: String,
}

/// What the trade simulator reports for one leg: the realized
/// weighted-average price, the input-side cost actually committed and the
/// output quantity obtained, all fixed-point scaled.
#[derive(Clone, Copy, PartialEq, Eq, Structural, Debug)]
pub struct TradeFill {
    pub weighted_price: u128,
    pub cost: u128,
    pub quantity: u128,
}

} // verus!
