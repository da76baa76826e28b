use vstd::prelude::*;

verus! {

/// Fixed-point scale: `SCALE` integer units stand for 1.0.
pub const SCALE: u128 = 1_000_000;

/// Largest scaled price, quantity or budget a simulation accepts.
/// Keeps every intermediate product inside `u128`.
pub const AMOUNT_LIMIT: u128 = 100_000_000_000_000_000;

/// Largest gain one order-book level can contribute:
/// `AMOUNT_LIMIT * AMOUNT_LIMIT / SCALE`.
pub const LEVEL_GAIN_LIMIT: u128 = 10_000_000_000_000_000_000_000_000_000;

/// Most levels an order-book snapshot may hold (books are fetched at a
/// bounded depth).
pub const MAX_BOOK_LEVELS: usize = 100;

/// USD-equivalent notional committed to each cycle evaluation, scaled.
pub const USD_BUDGET: u128 = 1_000_000_000;

/// Minimum realized rate for a cycle to count as profitable, scaled
/// (1_015_000 stands for 1.015, i.e. 1.5% profit).
pub const MIN_ARB_THRESH: u128 = 1_015_000;

/// Capacity of the locally accumulated asset set; the watch-list is only
/// swapped once the set is exactly this full.
pub const MAX_SYMBOLS_WATCH: usize = 50;

/// Seconds between two watch-list refresh opportunities.
pub const UPDATE_SYMBOLS_SECONDS: u64 = 30;

/// Most distinct asset symbols a persisted record keeps; later assets of a
/// longer cycle are silently dropped.
pub const MAX_RECORD_ASSETS: usize = 8;

} // verus!
