use vstd::prelude::*;
use crate::constants::{AMOUNT_LIMIT, SCALE, USD_BUDGET};
use crate::exchange::{spec_has_symbol, spec_price_of, ExchangeSnapshot};
use crate::propagate::{propagate_legs, spec_cycle_outcome, spec_propagate, views_of};
use crate::simulator::book_wf;
use crate::strutil::{concat_names, concat_suffix, str_name_eq, string_starts_with};
use crate::types::{BookType, Direction, Edge, Level};
use vstd::arithmetic::div_mod::{lemma_div_is_ordered_by_denominator, lemma_div_multiples_vanish};

verus! {

/// The exchange's black-box trading-rule check, implemented by the
/// embedding application per venue: the accepted quantity for a proposed
/// trade at a reference price, or `None` when the rules reject the trade.
pub trait TradingRules {
    fn validate_quantity(
        &self,
        symbol: &String,
        proposed_amount: u128,
        reference_price: u128,
    ) -> Option<u128>;
}

/// The assets the system is pre-funded in and willing to start cycles from.
pub open spec fn is_holding(a: Seq<char>) -> bool {
    a == "USDT"@ || a == "BTC"@ || a == "FUSD"@ || a == "BUSD"@ || a == "BNB"@ || a == "AVAX"@
        || a == "LTC"@ || a == "XRP"@ || a == "DOT"@ || a == "DOGE"@ || a == "FET"@
}

/// Anchors whose starting budget is the USD notional converted through
/// their own USDT pair.
pub open spec fn is_priced_anchor(a: Seq<char>) -> bool {
    a == "BTC"@ || a == "ETH"@ || a == "BNB"@ || a == "LINK"@
}

/// Stable anchors that use the USD notional directly.
pub open spec fn is_stable_anchor(a: Seq<char>) -> bool {
    a == "USDT"@ || a == "BUSD"@ || a == "USDC"@
}

/// The starting budget resolved for an anchor asset, given the last price
/// of its USDT pair: the fixed USD notional converted into the anchor's
/// own units, the notional itself for stable anchors, and nothing for any
/// other asset.
pub open spec fn spec_starting_budget(asset: Seq<char>, anchor_price: Option<u128>) -> Option<
    int,
> {
    if is_priced_anchor(asset) {
        match anchor_price {
            Some(p) => if p > 0 {
                Some((USD_BUDGET as int) * (SCALE as int) / (p as int))
            } else {
                None
            },
            None => None,
        }
    } else if is_stable_anchor(asset) {
        Some(USD_BUDGET as int)
    } else {
        None
    }
}

/// The traded symbol of one leg: of the two asset-order concatenations,
/// whichever the exchange lists (the `to`-first order is preferred).
pub open spec fn spec_leg_symbol(from: Seq<char>, to: Seq<char>, symbols: Seq<Seq<char>>) -> Seq<
    char,
> {
    if spec_has_symbol(symbols, to + from) {
        to + from
    } else {
        from + to
    }
}

/// A leg trades forward exactly when its traded symbol starts with the
/// leg's `from` asset; the book side consulted is derived from the same
/// test, never independently.
pub open spec fn spec_leg_forward(from: Seq<char>, to: Seq<char>, symbols: Seq<Seq<char>>) -> bool {
    from.is_prefix_of(spec_leg_symbol(from, to, symbols))
}

/// The directions of a whole cycle's legs.
pub open spec fn spec_cycle_directions(cycle: Seq<Edge>, symbols: Seq<Seq<char>>) -> Seq<
    Direction,
> {
    Seq::new(
        cycle.len(),
        |i: int|
            if spec_leg_forward(cycle[i].from@, cycle[i].to@, symbols) {
                Direction::Forward
            } else {
                Direction::Reverse
            },
    )
}

/// The design's configuration-integrity precondition: a recognized,
/// funded anchor asset that needs conversion must have a positive USDT
/// price in the snapshot.
pub open spec fn anchor_price_available(cycle: Seq<Edge>, snapshot: ExchangeSnapshot) -> bool {
    (cycle.len() > 0 && is_holding(cycle[0].from@) && is_priced_anchor(cycle[0].from@))
        ==> (spec_price_of(snapshot.prices@, cycle[0].from@ + "USDT"@) matches Some(p) && p > 0)
}

/// Is this asset in the fixed allow-list of funded holdings?
pub fn asset_in_holdings(a: &String) -> (r: bool)
    ensures
        r == is_holding(a@),
{
    str_name_eq(a, "USDT") || str_name_eq(a, "BTC") || str_name_eq(a, "FUSD") || str_name_eq(
        a,
        "BUSD",
    ) || str_name_eq(a, "BNB") || str_name_eq(a, "AVAX") || str_name_eq(a, "LTC") || str_name_eq(
        a,
        "XRP",
    ) || str_name_eq(a, "DOT") || str_name_eq(a, "DOGE") || str_name_eq(a, "FET")
}

fn asset_is_priced_anchor(a: &String) -> (r: bool)
    ensures
        r == is_priced_anchor(a@),
{
    str_name_eq(a, "BTC") || str_name_eq(a, "ETH") || str_name_eq(a, "BNB") || str_name_eq(
        a,
        "LINK",
    )
}

fn asset_is_stable_anchor(a: &String) -> (r: bool)
    ensures
        r == is_stable_anchor(a@),
{
    str_name_eq(a, "USDT") || str_name_eq(a, "BUSD") || str_name_eq(a, "USDC")
}

/// Resolve the starting budget for a cycle's anchor asset from the
/// snapshot's price table.
pub fn starting_budget(asset: &String, snapshot: &ExchangeSnapshot) -> (r: Option<u128>)
    requires
        is_priced_anchor(asset@) ==> (spec_price_of(snapshot.prices@, asset@ + "USDT"@) matches
            Some(p) && p > 0),
    ensures
        (match r {
            Some(b) => Some(b as int) == spec_starting_budget(
                asset@,
                spec_price_of(snapshot.prices@, asset@ + "USDT"@),
            ) && b <= AMOUNT_LIMIT,
            None => spec_starting_budget(
                asset@,
                spec_price_of(snapshot.prices@, asset@ + "USDT"@),
            ) is None,
        }),
{
    if asset_is_priced_anchor(asset) {
        let pair = concat_suffix(asset, "USDT");
        match snapshot.price_of(&pair) {
            Some(p) => {
                if p == 0 {
                    None
                } else {
                    proof {
                        lemma_div_is_ordered_by_denominator(
                            (USD_BUDGET * SCALE) as int,
                            1,
                            p as int,
                        );
                        lemma_div_multiples_vanish((USD_BUDGET * SCALE) as int, 1);
                    }
                    Some(USD_BUDGET * SCALE / p)
                }
            },
            None => None,
        }
    } else if asset_is_stable_anchor(asset) {
        Some(USD_BUDGET)
    } else {
        None
    }
}

/// Resolve one leg's traded symbol, direction and book side against the
/// snapshot's symbol set.
pub fn resolve_leg(leg: &Edge, snapshot: &ExchangeSnapshot) -> (r: (String, Direction, BookType))
    ensures
        r.0@ == spec_leg_symbol(leg.from@, leg.to@, snapshot.symbol_names()),
        r.1 == (if spec_leg_forward(leg.from@, leg.to@, snapshot.symbol_names()) {
            Direction::Forward
        } else {
            Direction::Reverse
        }),
        r.2 == (if spec_leg_forward(leg.from@, leg.to@, snapshot.symbol_names()) {
            BookType::Asks
        } else {
            BookType::Bids
        }),
{
    let symbol_1 = concat_names(&leg.to, &leg.from);
    let symbol_2 = concat_names(&leg.from, &leg.to);
    let symbol = if snapshot.has_symbol(&symbol_1) {
        symbol_1
    } else {
        symbol_2
    };
    let forward = string_starts_with(&symbol, &leg.from);
    let direction = if forward {
        Direction::Forward
    } else {
        Direction::Reverse
    };
    let book_type = if forward {
        BookType::Asks
    } else {
        BookType::Bids
    };
    (symbol, direction, book_type)
}

/// Everything resolved about a cycle before its order books are fetched:
/// the starting budget and, per leg, the traded symbol, the direction and
/// the book side to fetch.
pub struct CyclePlan {
    pub budget: u128,
    pub symbols: Vec<String>,
    pub directions: Vec<Direction>,
    pub book_types: Vec<BookType>,
}

/// Does a plan faithfully resolve a cycle against a snapshot?
pub open spec fn plan_matches(plan: CyclePlan, cycle: Seq<Edge>, snapshot: ExchangeSnapshot) -> bool {
    &&& Some(plan.budget as int) == spec_starting_budget(
        cycle[0].from@,
        spec_price_of(snapshot.prices@, cycle[0].from@ + "USDT"@),
    )
    &&& plan.budget <= AMOUNT_LIMIT
    &&& plan.symbols@.len() == cycle.len()
    &&& plan.directions@.len() == cycle.len()
    &&& plan.book_types@.len() == cycle.len()
    &&& forall|i: int|
        0 <= i < cycle.len() ==> (#[trigger] plan.symbols@[i])@ == spec_leg_symbol(
            cycle[i].from@,
            cycle[i].to@,
            snapshot.symbol_names(),
        )
    &&& plan.directions@ == spec_cycle_directions(cycle, snapshot.symbol_names())
    &&& forall|i: int|
        0 <= i < cycle.len() ==> #[trigger] plan.book_types@[i] == (if spec_leg_forward(
            cycle[i].from@,
            cycle[i].to@,
            snapshot.symbol_names(),
        ) {
            BookType::Asks
        } else {
            BookType::Bids
        })
}

/// Plan a cycle: reject an empty cycle or an unfunded anchor, resolve the
/// starting budget, and derive each leg's traded symbol, direction and
/// book side.
pub fn plan_cycle(cycle: &Vec<Edge>, snapshot: &ExchangeSnapshot) -> (r: Option<CyclePlan>)
    requires
        anchor_price_available(cycle@, *snapshot),
    ensures
        (r is None <==> (cycle@.len() == 0 || !is_holding(cycle@[0].from@) || spec_starting_budget(
            cycle@[0].from@,
            spec_price_of(snapshot.prices@, cycle@[0].from@ + "USDT"@),
        ) is None)),
        (match r {
            Some(plan) => plan_matches(plan, cycle@, *snapshot),
            None => true,
        }),
{
    if cycle.len() == 0 {
        return None;
    }
    if !asset_in_holdings(&cycle[0].from) {
        return None;
    }
    let budget = match starting_budget(&cycle[0].from, snapshot) {
        Some(b) => b,
        None => {
            return None;
        },
    };
    let n = cycle.len();
    let mut symbols: Vec<String> = Vec::new();
    let mut directions: Vec<Direction> = Vec::new();
    let mut book_types: Vec<BookType> = Vec::new();
    let mut i: usize = 0;
    while i < n
        invariant
            n == cycle@.len(),
            0 <= i <= n,
            symbols@.len() == i,
            directions@.len() == i,
            book_types@.len() == i,
            forall|j: int|
                0 <= j < i ==> (#[trigger] symbols@[j])@ == spec_leg_symbol(
                    cycle@[j].from@,
                    cycle@[j].to@,
                    snapshot.symbol_names(),
                ),
            forall|j: int|
                0 <= j < i ==> #[trigger] directions@[j] == (if spec_leg_forward(
                    cycle@[j].from@,
                    cycle@[j].to@,
                    snapshot.symbol_names(),
                ) {
                    Direction::Forward
                } else {
                    Direction::Reverse
                }),
            forall|j: int|
                0 <= j < i ==> #[trigger] book_types@[j] == (if spec_leg_forward(
                    cycle@[j].from@,
                    cycle@[j].to@,
                    snapshot.symbol_names(),
                ) {
                    BookType::Asks
                } else {
                    BookType::Bids
                }),
        decreases n - i,
    {
        let (symbol, direction, book_type) = resolve_leg(&cycle[i], snapshot);
        symbols.push(symbol);
        directions.push(direction);
        book_types.push(book_type);
        i = i + 1;
    }
    proof {
        assert(directions@ =~= spec_cycle_directions(cycle@, snapshot.symbol_names()));
    }
    Some(CyclePlan { budget, symbols, directions, book_types })
}

/// Perform the arbitrage calculation: propagate the budget through every
/// leg, then hold each leg's committed budget against the exchange's
/// symbol table, price table and trading rules; any missing entry or
/// rejected quantity aborts the whole cycle.  A zero-leg cycle succeeds
/// with the identity rate; only the black-box rules may refuse beyond
/// what the contract states.
pub fn calculate_arbitrage<R: TradingRules>(
    orderbooks: &Vec<Vec<Level>>,
    symbols: &Vec<String>,
    directions: &Vec<Direction>,
    budget: u128,
    snapshot: &ExchangeSnapshot,
    rules: &R,
) -> (r: Option<(u128, Vec<u128>)>)
    requires
        orderbooks@.len() == directions@.len(),
        symbols@.len() == directions@.len(),
        forall|i: int| 0 <= i < orderbooks@.len() ==> book_wf(#[trigger] orderbooks@[i]@),
        budget <= AMOUNT_LIMIT,
    ensures
        spec_cycle_outcome(views_of(orderbooks@), directions@, budget as int) is None ==> r is None,
        (exists|i: int|
            0 <= i < symbols@.len() && (!spec_has_symbol(
                snapshot.symbol_names(),
                (#[trigger] symbols@[i])@,
            ) || spec_price_of(snapshot.prices@, symbols@[i]@) is None)) ==> r is None,
        symbols@.len() == 0 ==> (r matches Some(p) && p.0 == SCALE && p.1@.len() == 0),
        (match r {
            Some(p) => {
                &&& spec_cycle_outcome(views_of(orderbooks@), directions@, budget as int)
                    == Some((p.0 as int, p.1@.map_values(|q: u128| q as int)))
                &&& forall|i: int|
                    0 <= i < symbols@.len() ==> spec_has_symbol(
                        snapshot.symbol_names(),
                        (#[trigger] symbols@[i])@,
                    ) && spec_price_of(snapshot.prices@, symbols@[i]@) is Some
            },
            None => true,
        }),
{
    let ghost views = views_of(orderbooks@);
    let (real_rate, quantities_input) = match propagate_legs(orderbooks, directions, budget) {
        Some(p) => p,
        None => {
            proof {
                if symbols@.len() == 0 {
                    assert(spec_propagate(views, directions@, 0, budget as int, SCALE as int)
                        == Some((SCALE as int, Seq::<int>::empty())));
                }
            }
            return None;
        },
    };
    proof {
        crate::propagate::lemma_propagate_links(views, directions@, 0, budget as int, SCALE as int);
        if symbols@.len() == 0 {
            assert(spec_propagate(views, directions@, 0, budget as int, SCALE as int)
                == Some((SCALE as int, Seq::<int>::empty())));
        }
    }
    let n = symbols.len();
    let mut i: usize = 0;
    while i < n
        invariant
            n == symbols@.len(),
            n == quantities_input@.len(),
            0 <= i <= n,
            spec_cycle_outcome(views_of(orderbooks@), directions@, budget as int) == Some(
                (real_rate as int, quantities_input@.map_values(|q: u128| q as int)),
            ),
            forall|j: int|
                0 <= j < i ==> spec_has_symbol(snapshot.symbol_names(), (#[trigger] symbols@[j])@)
                    && spec_price_of(snapshot.prices@, symbols@[j]@) is Some,
        decreases n - i,
    {
        if !snapshot.has_symbol(&symbols[i]) {
            return None;
        }
        let price = match snapshot.price_of(&symbols[i]) {
            Some(p) => p,
            None => {
                return None;
            },
        };
        match rules.validate_quantity(&symbols[i], quantities_input[i], price) {
            Some(_) => {},
            None => {
                return None;
            },
        }
        i = i + 1;
    }
    proof {
        if symbols@.len() == 0 {
            assert(spec_propagate(views_of(orderbooks@), directions@, 0, budget as int, SCALE as int)
                == Some((SCALE as int, Seq::<int>::empty())));
            assert(quantities_input@.map_values(|q: u128| q as int).len() == 0);
        }
    }
    Some((real_rate, quantities_input))
}

/// Validate a planned cycle against its fetched order books: plan the
/// cycle, propagate the budget and apply the exchange's checks; the
/// result carries the realized rate, the committed budgets and the traded
/// symbols, or nothing at the first failure.
pub fn validate_cycle_with_books<R: TradingRules>(
    cycle: &Vec<Edge>,
    snapshot: &ExchangeSnapshot,
    rules: &R,
    orderbooks: &Vec<Vec<Level>>,
) -> (r: Option<(u128, Vec<u128>, Vec<String>)>)
    requires
        anchor_price_available(cycle@, *snapshot),
        orderbooks@.len() == cycle@.len(),
        forall|i: int| 0 <= i < orderbooks@.len() ==> book_wf(#[trigger] orderbooks@[i]@),
    ensures
        (cycle@.len() == 0 || !is_holding(cycle@[0].from@) || spec_starting_budget(
            cycle@[0].from@,
            spec_price_of(snapshot.prices@, cycle@[0].from@ + "USDT"@),
        ) is None) ==> r is None,
        spec_cycle_outcome(
            views_of(orderbooks@),
            spec_cycle_directions(cycle@, snapshot.symbol_names()),
            spec_starting_budget(
                cycle@[0].from@,
                spec_price_of(snapshot.prices@, cycle@[0].from@ + "USDT"@),
            )->Some_0,
        ) is None ==> r is None,
        (exists|i: int|
            0 <= i < cycle@.len() && (!spec_has_symbol(
                snapshot.symbol_names(),
                #[trigger] spec_leg_symbol(cycle@[i].from@, cycle@[i].to@, snapshot.symbol_names()),
            ) || spec_price_of(
                snapshot.prices@,
                spec_leg_symbol(cycle@[i].from@, cycle@[i].to@, snapshot.symbol_names()),
            ) is None)) ==> r is None,
        (match r {
            Some(t) => {
                &&& Some(spec_cycle_outcome(
                    views_of(orderbooks@),
                    spec_cycle_directions(cycle@, snapshot.symbol_names()),
                    spec_starting_budget(
                        cycle@[0].from@,
                        spec_price_of(snapshot.prices@, cycle@[0].from@ + "USDT"@),
                    )->Some_0,
                )) == Some(Some((t.0 as int, t.1@.map_values(|q: u128| q as int))))
                &&& t.2@.len() == cycle@.len()
                &&& forall|i: int|
                    0 <= i < cycle@.len() ==> (#[trigger] t.2@[i])@ == spec_leg_symbol(
                        cycle@[i].from@,
                        cycle@[i].to@,
                        snapshot.symbol_names(),
                    )
            },
            None => true,
        }),
{
    let plan = match plan_cycle(cycle, snapshot) {
        Some(p) => p,
        None => {
            return None;
        },
    };
    let outcome = match calculate_arbitrage(
        orderbooks,
        &plan.symbols,
        &plan.directions,
        plan.budget,
        snapshot,
        rules,
    ) {
        Some(o) => o,
        None => {
            return None;
        },
    };
    proof {
        assert(plan.directions@ == spec_cycle_directions(cycle@, snapshot.symbol_names()));
        assert(Some(plan.budget as int) == spec_starting_budget(
            cycle@[0].from@,
            spec_price_of(snapshot.prices@, cycle@[0].from@ + "USDT"@),
        ));
        assert(spec_starting_budget(
            cycle@[0].from@,
            spec_price_of(snapshot.prices@, cycle@[0].from@ + "USDT"@),
        )->Some_0 == plan.budget as int);
        assert forall|i: int|
            0 <= i < cycle@.len() implies spec_has_symbol(
            snapshot.symbol_names(),
            #[trigger] spec_leg_symbol(cycle@[i].from@, cycle@[i].to@, snapshot.symbol_names()),
        ) && spec_price_of(
            snapshot.prices@,
            spec_leg_symbol(cycle@[i].from@, cycle@[i].to@, snapshot.symbol_names()),
        ) is Some by {
            assert((plan.symbols@[i])@ == spec_leg_symbol(
                cycle@[i].from@,
                cycle@[i].to@,
                snapshot.symbol_names(),
            ));
            assert(spec_has_symbol(snapshot.symbol_names(), (plan.symbols@[i])@));
            assert(spec_price_of(snapshot.prices@, (plan.symbols@[i])@) is Some);
        }
    }
    Some((outcome.0, outcome.1, plan.symbols))
}

} // verus!
