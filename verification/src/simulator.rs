use vstd::prelude::*;
use crate::constants::{AMOUNT_LIMIT, LEVEL_GAIN_LIMIT, MAX_BOOK_LEVELS, SCALE};
use crate::types::{Direction, Level, TradeFill};
use vstd::arithmetic::div_mod::{lemma_div_is_ordered, lemma_div_is_ordered_by_denominator, lemma_div_multiples_vanish, lemma_div_pos_is_pos};
use vstd::arithmetic::mul::{lemma_mul_inequality, lemma_mul_upper_bound};

verus! {

/// A usable order-book snapshot: fetched at a bounded depth, with every
/// level's scaled price and quantity inside the arithmetic limit.
pub open spec fn book_wf(book: Seq<Level>) -> bool {
    &&& book.len() <= MAX_BOOK_LEVELS
    &&& forall|i: int|
        0 <= i < book.len() ==> (#[trigger] book[i]).price <= AMOUNT_LIMIT
            && book[i].quantity <= AMOUNT_LIMIT
}

/// The input-side cost of consuming one whole level: the base quantity in
/// `Forward`, price times quantity in `Reverse`.
pub open spec fn level_cost(l: Level, dir: Direction) -> int {
    match dir {
        Direction::Forward => l.quantity as int,
        Direction::Reverse => (l.price as int) * (l.quantity as int) / (SCALE as int),
    }
}

/// The output-side quantity gained from consuming one whole level.
pub open spec fn level_gain(l: Level, dir: Direction) -> int {
    match dir {
        Direction::Forward => (l.price as int) * (l.quantity as int) / (SCALE as int),
        Direction::Reverse => l.quantity as int,
    }
}

/// The quantity gained by spending only the remaining `rem` of the budget
/// on a level priced `price`.
pub open spec fn partial_gain(rem: int, price: int, dir: Direction) -> int {
    match dir {
        Direction::Forward => rem * (price as int) / (SCALE as int),
        Direction::Reverse => rem * (SCALE as int) / price,
    }
}

/// Walks the book from level `i` onward, with cost `tc` and quantity `tq`
/// accumulated so far; returns the final (total_cost, total_quantity).
/// A level whose full cost would overshoot the budget is consumed only for
/// the remaining budget, at that level's price, and the walk stops; it also
/// stops as soon as the accumulated cost reaches the budget exactly.
pub open spec fn sim_walk(
    book: Seq<Level>,
    dir: Direction,
    budget: int,
    i: int,
    tc: int,
    tq: int,
) -> (int, int)
    decreases book.len() - i,
{
    if i < 0 || i >= book.len() {
        (tc, tq)
    } else {
        let cost = level_cost(book[i], dir);
        let gain = level_gain(book[i], dir);
        if tc + cost > budget {
            (budget, tq + partial_gain(budget - tc, book[i].price as int, dir))
        } else if tc + cost >= budget {
            (tc + cost, tq + gain)
        } else {
            sim_walk(book, dir, budget, i + 1, tc + cost, tq + gain)
        }
    }
}

/// The totals the simulator accumulates over a whole book.
pub open spec fn sim_totals(book: Seq<Level>, dir: Direction, budget: int) -> (int, int) {
    sim_walk(book, dir, budget, 0, 0, 0)
}

/// The realized weighted-average price over given totals.  The roles invert
/// with the direction: quote-per-base in `Reverse`, base-per-quote in
/// `Forward`.
pub open spec fn weighted_price_of(tc: int, tq: int, dir: Direction) -> int {
    match dir {
        Direction::Forward => tq * (SCALE as int) / tc,
        Direction::Reverse => tc * (SCALE as int) / tq,
    }
}

/// The simulator's result: `None` when no quantity could be filled (or the
/// committed cost rounds to nothing), otherwise the weighted price, the
/// total cost and the total quantity.  At dust scale the fixed-point model
/// diverges from real-number arithmetic: a gain below one scaled unit
/// truncates to zero, so a fill whose total quantity or cost would be a
/// tiny positive real is reported as no fill.
pub open spec fn spec_simulate(book: Seq<Level>, dir: Direction, budget: int) -> Option<
    (int, int, int),
> {
    let totals = sim_totals(book, dir, budget);
    if totals.1 <= 0 || totals.0 <= 0 {
        None
    } else {
        Some((weighted_price_of(totals.0, totals.1, dir), totals.0, totals.1))
    }
}

/// The summed input-side cost of the whole book from level `i` on: the
/// book's consumable depth.
pub open spec fn book_depth(book: Seq<Level>, dir: Direction, i: int) -> int
    decreases book.len() - i,
{
    if i < 0 || i >= book.len() {
        0
    } else {
        level_cost(book[i], dir) + book_depth(book, dir, i + 1)
    }
}

/// The summed output-side gain of the whole book from level `i` on.
pub open spec fn book_gain(book: Seq<Level>, dir: Direction, i: int) -> int
    decreases book.len() - i,
{
    if i < 0 || i >= book.len() {
        0
    } else {
        level_gain(book[i], dir) + book_gain(book, dir, i + 1)
    }
}

/// Every level's scaled price is at least 1.0.
pub open spec fn prices_at_least_unit(book: Seq<Level>) -> bool {
    forall|i: int| 0 <= i < book.len() ==> (#[trigger] book[i]).price >= SCALE
}

proof fn lemma_cost_gain_nonneg(l: Level, dir: Direction)
    ensures
        level_cost(l, dir) >= 0,
        level_gain(l, dir) >= 0,
{
    assert((l.price as int) * (l.quantity as int) >= 0) by (nonlinear_arith);
    lemma_div_pos_is_pos((l.price as int) * (l.quantity as int), SCALE as int);
}

proof fn lemma_cost_gain_bounds(l: Level, dir: Direction)
    requires
        l.price <= AMOUNT_LIMIT,
        l.quantity <= AMOUNT_LIMIT,
    ensures
        0 <= level_cost(l, dir) <= LEVEL_GAIN_LIMIT,
        0 <= level_gain(l, dir) <= LEVEL_GAIN_LIMIT,
{
    lemma_cost_gain_nonneg(l, dir);
    lemma_mul_upper_bound(l.price as int, AMOUNT_LIMIT as int, l.quantity as int, AMOUNT_LIMIT as int);
    lemma_div_is_ordered(
        (l.price as int) * (l.quantity as int),
        AMOUNT_LIMIT as int * AMOUNT_LIMIT as int,
        SCALE as int,
    );
}

proof fn lemma_partial_gain_bounds(rem: int, price: int, dir: Direction)
    requires
        0 <= rem <= AMOUNT_LIMIT,
        0 <= price <= AMOUNT_LIMIT,
        dir is Reverse ==> price >= 1,
    ensures
        0 <= partial_gain(rem, price, dir) <= LEVEL_GAIN_LIMIT,
{
    match dir {
        Direction::Forward => {
            lemma_mul_upper_bound(rem, AMOUNT_LIMIT as int, price, AMOUNT_LIMIT as int);
            assert(rem * price >= 0) by (nonlinear_arith)
                requires rem >= 0, price >= 0;
            lemma_div_pos_is_pos(rem * price, SCALE as int);
            lemma_div_is_ordered(rem * price, AMOUNT_LIMIT as int * AMOUNT_LIMIT as int, SCALE as int);
        },
        Direction::Reverse => {
            lemma_mul_upper_bound(rem, AMOUNT_LIMIT as int, SCALE as int, SCALE as int);
            assert(rem * (SCALE as int) >= 0) by (nonlinear_arith)
                requires rem >= 0;
            lemma_div_pos_is_pos(rem * (SCALE as int), price);
            lemma_div_is_ordered(rem * (SCALE as int), AMOUNT_LIMIT as int * SCALE as int, price);
            lemma_div_is_ordered_by_denominator_wrap(AMOUNT_LIMIT as int * SCALE as int, price);
        },
    }
}

proof fn lemma_div_is_ordered_by_denominator_wrap(x: int, d: int)
    requires
        x >= 0,
        d >= 1,
    ensures
        x / d <= x,
{
    lemma_div_is_ordered_by_denominator(x, 1, d);
    lemma_div_multiples_vanish(x, 1);
}

proof fn lemma_mul_bound_steps(n: int, m: int)
    requires
        0 <= m < n,
    ensures
        m * LEVEL_GAIN_LIMIT + LEVEL_GAIN_LIMIT <= n * LEVEL_GAIN_LIMIT,
{
    lemma_mul_inequality(m + 1, n, LEVEL_GAIN_LIMIT as int);
}

/// Depths and gains are sums of non-negative parts.
proof fn lemma_depth_gain_nonneg(book: Seq<Level>, dir: Direction, i: int)
    ensures
        book_depth(book, dir, i) >= 0,
        book_gain(book, dir, i) >= 0,
    decreases book.len() - i,
{
    if 0 <= i < book.len() {
        lemma_cost_gain_nonneg(book[i], dir);
        lemma_depth_gain_nonneg(book, dir, i + 1);
    }
}

proof fn lemma_walk_budget_hit(book: Seq<Level>, dir: Direction, budget: int, i: int, tc: int, tq: int)
    requires
        0 <= i <= book.len(),
        tc < budget,
        book_depth(book, dir, i) >= budget - tc,
    ensures
        sim_walk(book, dir, budget, i, tc, tq).0 == budget,
    decreases book.len() - i,
{
    if i >= book.len() {
        assert(book_depth(book, dir, i) == 0);
    } else {
        let cost = level_cost(book[i], dir);
        let gain = level_gain(book[i], dir);
        lemma_cost_gain_nonneg(book[i], dir);
        if tc + cost > budget {
        } else if tc + cost >= budget {
        } else {
            lemma_depth_gain_nonneg(book, dir, i + 1);
            lemma_walk_budget_hit(book, dir, budget, i + 1, tc + cost, tq + gain);
        }
    }
}

/// With consumable depth at least the budget, the committed total cost is
/// exactly the budget: the spend path exhausts the budget, never more.
pub proof fn lemma_deep_book_cost_is_budget(book: Seq<Level>, dir: Direction, budget: int)
    requires
        0 < budget,
        book_depth(book, dir, 0) >= budget,
    ensures
        sim_totals(book, dir, budget).0 == budget,
{
    lemma_walk_budget_hit(book, dir, budget, 0, 0, 0);
}

proof fn lemma_walk_exhausts(book: Seq<Level>, dir: Direction, budget: int, i: int, tc: int, tq: int)
    requires
        0 <= i <= book.len(),
        tc + book_depth(book, dir, i) < budget,
    ensures
        sim_walk(book, dir, budget, i, tc, tq) == (
            tc + book_depth(book, dir, i),
            tq + book_gain(book, dir, i),
        ),
    decreases book.len() - i,
{
    if i >= book.len() {
    } else {
        let cost = level_cost(book[i], dir);
        let gain = level_gain(book[i], dir);
        lemma_cost_gain_nonneg(book[i], dir);
        lemma_depth_gain_nonneg(book, dir, i + 1);
        lemma_walk_exhausts(book, dir, budget, i + 1, tc + cost, tq + gain);
    }
}

/// With consumable depth under the budget, the whole book is consumed: the
/// total cost is the book's full depth, not the budget, and the total
/// quantity is the book's full gain.
pub proof fn lemma_shallow_book_consumed(book: Seq<Level>, dir: Direction, budget: int)
    requires
        book_depth(book, dir, 0) < budget,
    ensures
        sim_totals(book, dir, budget).0 == book_depth(book, dir, 0),
        sim_totals(book, dir, budget).1 == book_gain(book, dir, 0),
{
    lemma_walk_exhausts(book, dir, budget, 0, 0, 0);
}

proof fn lemma_walk_forward_gains(book: Seq<Level>, budget: int, i: int, tc: int, tq: int)
    requires
        prices_at_least_unit(book),
        0 <= i <= book.len(),
        0 <= tc < budget,
        book_depth(book, Direction::Forward, i) >= budget - tc,
        tq >= 0,
    ensures
        sim_walk(book, Direction::Forward, budget, i, tc, tq).1 >= 1,
    decreases book.len() - i,
{
    let dir = Direction::Forward;
    assert(i < book.len()) by {
        if i >= book.len() {
            assert(book_depth(book, dir, i) == 0);
        }
    }
    let l = book[i];
    let cost = level_cost(l, dir);
    let gain = level_gain(l, dir);
    lemma_cost_gain_nonneg(l, dir);
    if tc + cost > budget {
        let rem = budget - tc;
        assert(rem >= 1);
        assert(rem * (l.price as int) >= rem * (SCALE as int)) by {
            lemma_mul_inequality(SCALE as int, l.price as int, rem);
            lemma_mul_commute(rem, SCALE as int);
            lemma_mul_commute(rem, l.price as int);
        }
        lemma_div_is_ordered(rem * (SCALE as int), rem * (l.price as int), SCALE as int);
        lemma_div_multiples_vanish(rem, SCALE as int);
        assert(partial_gain(rem, l.price as int, dir) >= rem);
    } else if tc + cost >= budget {
        let q = l.quantity as int;
        assert(q >= 1);
        assert(q * (l.price as int) >= q * (SCALE as int)) by {
            lemma_mul_inequality(SCALE as int, l.price as int, q);
            lemma_mul_commute(q, SCALE as int);
            lemma_mul_commute(q, l.price as int);
        }
        assert((l.price as int) * q == q * (l.price as int)) by {
            lemma_mul_commute(q, l.price as int);
        }
        lemma_div_is_ordered(q * (SCALE as int), q * (l.price as int), SCALE as int);
        lemma_div_multiples_vanish(q, SCALE as int);
        assert(gain >= q);
    } else {
        lemma_depth_gain_nonneg(book, dir, i + 1);
        lemma_walk_forward_gains(book, budget, i + 1, tc + cost, tq + gain);
    }
}

proof fn lemma_mul_commute(a: int, b: int)
    ensures
        a * b == b * a,
{
}

/// A forward book with enough depth, all of whose prices are at least one
/// whole unit, fills a positive budget completely: the simulation succeeds,
/// commits exactly the budget and obtains a positive quantity.
pub proof fn lemma_deep_forward_book_fills(book: Seq<Level>, budget: int)
    requires
        prices_at_least_unit(book),
        0 < budget,
        book_depth(book, Direction::Forward, 0) >= budget,
    ensures
        spec_simulate(book, Direction::Forward, budget) matches Some(f)
            && f.1 == budget && f.2 > 0,
{
    lemma_deep_book_cost_is_budget(book, Direction::Forward, budget);
    lemma_walk_forward_gains(book, budget, 0, 0, 0);
}

/// Every level's scaled price is at most 1.0.
pub open spec fn prices_at_most_unit(book: Seq<Level>) -> bool {
    forall|i: int| 0 <= i < book.len() ==> (#[trigger] book[i]).price <= SCALE
}

proof fn lemma_walk_reverse_gains(book: Seq<Level>, budget: int, i: int, tc: int, tq: int)
    requires
        prices_at_most_unit(book),
        0 <= i <= book.len(),
        0 <= tc < budget,
        book_depth(book, Direction::Reverse, i) >= budget - tc,
        tq >= 0,
    ensures
        sim_walk(book, Direction::Reverse, budget, i, tc, tq).1 >= 1,
    decreases book.len() - i,
{
    let dir = Direction::Reverse;
    assert(i < book.len()) by {
        if i >= book.len() {
            assert(book_depth(book, dir, i) == 0);
        }
    }
    let l = book[i];
    let cost = level_cost(l, dir);
    let gain = level_gain(l, dir);
    lemma_cost_gain_nonneg(l, dir);
    if tc + cost > budget {
        let rem = budget - tc;
        assert(rem >= 1);
        assert(l.price >= 1) by {
            if l.price == 0 {
                assert((l.price as int) * (l.quantity as int) == 0) by (nonlinear_arith)
                    requires l.price == 0;
            }
        }
        assert(rem * (SCALE as int) >= 0) by (nonlinear_arith)
            requires rem >= 0;
        lemma_div_is_ordered_by_denominator(rem * (SCALE as int), l.price as int, SCALE as int);
        lemma_div_multiples_vanish(rem, SCALE as int);
        assert(partial_gain(rem, l.price as int, dir) >= rem);
    } else if tc + cost >= budget {
        assert(cost >= 1);
        assert(l.quantity >= 1) by {
            if l.quantity == 0 {
                assert((l.price as int) * (l.quantity as int) == 0) by (nonlinear_arith)
                    requires l.quantity == 0;
            }
        }
        assert(gain >= 1);
    } else {
        lemma_depth_gain_nonneg(book, dir, i + 1);
        lemma_walk_reverse_gains(book, budget, i + 1, tc + cost, tq + gain);
    }
}

/// A reverse book with enough depth, all of whose prices are at most one
/// whole unit, fills a positive budget completely: the simulation
/// succeeds, commits exactly the budget and obtains a positive quantity.
pub proof fn lemma_deep_reverse_book_fills(book: Seq<Level>, budget: int)
    requires
        prices_at_most_unit(book),
        0 < budget,
        book_depth(book, Direction::Reverse, 0) >= budget,
    ensures
        spec_simulate(book, Direction::Reverse, budget) matches Some(f)
            && f.1 == budget && f.2 > 0,
{
    lemma_deep_book_cost_is_budget(book, Direction::Reverse, budget);
    lemma_walk_reverse_gains(book, budget, 0, 0, 0);
}

/// Depth-aware trade simulation: walk the book best level first and fill as
/// much of `budget` as the book allows, at each level's own price.
pub fn calculate_weighted_average_price(
    orderbook: &Vec<Level>,
    budget: u128,
    direction: Direction,
) -> (r: Option<TradeFill>)
    requires
        book_wf(orderbook@),
        budget <= AMOUNT_LIMIT,
    ensures
        (match r {
            Some(f) => spec_simulate(orderbook@, direction, budget as int) == Some(
                (f.weighted_price as int, f.cost as int, f.quantity as int),
            ),
            None => spec_simulate(orderbook@, direction, budget as int) is None,
        }),
{
    let ghost gb = budget as int;
    let n = orderbook.len();
    let mut total_cost: u128 = 0;
    let mut total_quantity: u128 = 0;
    let mut i: usize = 0;
    let mut done = false;
    while i < n && !done
        invariant
            book_wf(orderbook@),
            budget <= AMOUNT_LIMIT,
            gb == budget as int,
            n == orderbook@.len(),
            0 <= i <= n,
            total_cost <= budget,
            total_quantity <= i * LEVEL_GAIN_LIMIT,
            !done ==> sim_walk(orderbook@, direction, gb, i as int, total_cost as int, total_quantity as int)
                == sim_totals(orderbook@, direction, gb),
            done ==> (total_cost as int, total_quantity as int) == sim_totals(orderbook@, direction, gb),
        decreases n - i,
    {
        let ghost gi = i as int;
        let ghost pre_tc = total_cost as int;
        let ghost pre_tq = total_quantity as int;
        let l = orderbook[i];
        proof {
            lemma_cost_gain_bounds(l, direction);
        }
        let prod_check: u128 = {
            proof {
                lemma_mul_upper_bound(l.price as int, AMOUNT_LIMIT as int, l.quantity as int, AMOUNT_LIMIT as int);
            }
            l.price * l.quantity / SCALE
        };
        let cost: u128 = match direction {
            Direction::Forward => l.quantity,
            Direction::Reverse => prod_check,
        };
        let gain: u128 = match direction {
            Direction::Forward => prod_check,
            Direction::Reverse => l.quantity,
        };
        proof {
            assert(cost as int == level_cost(orderbook@[gi], direction));
            assert(gain as int == level_gain(orderbook@[gi], direction));
            lemma_mul_bound_steps(i as int + 1, i as int);
        }
        if total_cost + cost > budget {
            let rem = budget - total_cost;
            let extra: u128 = match direction {
                Direction::Forward => {
                    proof {
                        lemma_mul_upper_bound(rem as int, AMOUNT_LIMIT as int, l.price as int, AMOUNT_LIMIT as int);
                    }
                    rem * l.price / SCALE
                },
                Direction::Reverse => {
                    proof {
                        assert(l.price >= 1) by {
                            if l.price == 0 {
                                assert((l.price as int) * (l.quantity as int) == 0)
                                    by (nonlinear_arith)
                                    requires l.price == 0;
                            }
                        }
                        lemma_mul_upper_bound(rem as int, AMOUNT_LIMIT as int, SCALE as int, SCALE as int);
                    }
                    rem * SCALE / l.price
                },
            };
            proof {
                if direction is Reverse {
                    assert(l.price >= 1);
                }
                lemma_partial_gain_bounds(rem as int, l.price as int, direction);
                assert(extra as int == partial_gain(gb - pre_tc, l.price as int, direction));
                assert(sim_walk(orderbook@, direction, gb, gi, pre_tc, pre_tq)
                    == (gb, pre_tq + partial_gain(gb - pre_tc, orderbook@[gi].price as int, direction)));
            }
            total_cost = budget;
            total_quantity = total_quantity + extra;
            done = true;
        } else {
            total_cost = total_cost + cost;
            total_quantity = total_quantity + gain;
            if total_cost >= budget {
                proof {
                    assert(sim_walk(orderbook@, direction, gb, gi, pre_tc, pre_tq)
                        == (pre_tc + cost, pre_tq + gain));
                }
                done = true;
            } else {
                proof {
                    assert(sim_walk(orderbook@, direction, gb, gi, pre_tc, pre_tq)
                        == sim_walk(orderbook@, direction, gb, gi + 1, pre_tc + cost, pre_tq + gain));
                }
            }
        }
        i = i + 1;
    }
    proof {
        if !done {
            assert(i == n);
            assert(sim_walk(orderbook@, direction, gb, i as int, total_cost as int, total_quantity as int)
                == (total_cost as int, total_quantity as int));
        }
    }
    if total_quantity == 0 || total_cost == 0 {
        return None;
    }
    proof {
        lemma_mul_upper_bound(total_quantity as int, MAX_BOOK_LEVELS as int * LEVEL_GAIN_LIMIT as int, SCALE as int, SCALE as int);
        lemma_mul_upper_bound(total_cost as int, AMOUNT_LIMIT as int, SCALE as int, SCALE as int);
        lemma_mul_inequality(total_quantity as int, MAX_BOOK_LEVELS as int * LEVEL_GAIN_LIMIT as int, SCALE as int);
        lemma_mul_inequality(total_cost as int, AMOUNT_LIMIT as int, SCALE as int);
    }
    let weighted_average_price: u128 = match direction {
        Direction::Forward => total_quantity * SCALE / total_cost,
        Direction::Reverse => total_cost * SCALE / total_quantity,
    };
    Some(TradeFill { weighted_price: weighted_average_price, cost: total_cost, quantity: total_quantity })
}

} // verus!
