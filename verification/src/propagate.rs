use vstd::prelude::*;
use crate::constants::{AMOUNT_LIMIT, SCALE};
use crate::simulator::{book_wf, calculate_weighted_average_price, spec_simulate};
use crate::types::{Direction, Level};

verus! {

/// The views of a vector of order books.
pub open spec fn views_of(books: Seq<Vec<Level>>) -> Seq<Seq<Level>> {
    books.map_values(|b: Vec<Level>| b@)
}

/// The cumulative rate after one leg: multiplied by the leg's weighted
/// price in `Forward`, by its fixed-point reciprocal in `Reverse`; `None`
/// when the product overflows or the reciprocal degenerates.
pub open spec fn spec_rate_after(rate: int, wap: int, dir: Direction) -> Option<int> {
    match dir {
        Direction::Forward => if rate * wap > u128::MAX as int {
            None
        } else {
            Some(rate * wap / (SCALE as int))
        },
        Direction::Reverse => if wap <= 0 {
            None
        } else if rate * (SCALE as int) > u128::MAX as int {
            None
        } else {
            Some(rate * (SCALE as int) / wap)
        },
    }
}

/// Budget propagation from leg `i` on: each leg is simulated with the
/// quantity obtained by the previous leg as its input budget.  The result
/// holds the final cumulative rate and the budget committed at each leg;
/// it is `None` as soon as any leg fails to fill, outgrows the arithmetic
/// limit, or degenerates the rate.
pub open spec fn spec_propagate(
    books: Seq<Seq<Level>>,
    dirs: Seq<Direction>,
    i: int,
    amount: int,
    rate: int,
) -> Option<(int, Seq<int>)>
    decreases books.len() - i,
{
    if i < 0 || i >= books.len() {
        Some((rate, Seq::empty()))
    } else {
        match spec_simulate(books[i], dirs[i], amount) {
            None => None,
            Some(f) => if f.2 > AMOUNT_LIMIT {
                None
            } else {
                match spec_rate_after(rate, f.0, dirs[i]) {
                    None => None,
                    Some(r2) => match spec_propagate(books, dirs, i + 1, f.2, r2) {
                        None => None,
                        Some(rest) => Some((rest.0, seq![amount] + rest.1)),
                    },
                }
            },
        }
    }
}

/// The outcome of propagating a whole cycle's legs from `budget`, with the
/// cumulative rate starting at 1.0.
pub open spec fn spec_cycle_outcome(
    books: Seq<Seq<Level>>,
    dirs: Seq<Direction>,
    budget: int,
) -> Option<(int, Seq<int>)> {
    spec_propagate(books, dirs, 0, budget, SCALE as int)
}

/// Sequential multi-leg propagation: simulate every leg in cycle order,
/// carrying leg `i`'s output quantity forward as leg `i+1`'s input budget,
/// and accumulate the realized cycle rate.
pub fn propagate_legs(
    orderbooks: &Vec<Vec<Level>>,
    directions: &Vec<Direction>,
    budget: u128,
) -> (r: Option<(u128, Vec<u128>)>)
    requires
        orderbooks@.len() == directions@.len(),
        forall|i: int| 0 <= i < orderbooks@.len() ==> book_wf(#[trigger] orderbooks@[i]@),
        budget <= AMOUNT_LIMIT,
    ensures
        (match r {
            Some(p) => spec_cycle_outcome(views_of(orderbooks@), directions@, budget as int)
                == Some((p.0 as int, p.1@.map_values(|q: u128| q as int))),
            None => spec_cycle_outcome(views_of(orderbooks@), directions@, budget as int) is None,
        }),
{
    let ghost views = views_of(orderbooks@);
    let ghost gb = budget as int;
    let n = orderbooks.len();
    let mut real_rate: u128 = SCALE;
    let mut amount_in: u128 = budget;
    let mut quantities_input: Vec<u128> = Vec::new();
    let mut i: usize = 0;
    proof {
        assert(quantities_input@.map_values(|q: u128| q as int) =~= Seq::<int>::empty());
    }
    while i < n
        invariant
            n == orderbooks@.len(),
            n == directions@.len(),
            views == views_of(orderbooks@),
            gb == budget as int,
            forall|k: int| 0 <= k < orderbooks@.len() ==> book_wf(#[trigger] orderbooks@[k]@),
            0 <= i <= n,
            amount_in <= AMOUNT_LIMIT,
            quantities_input@.len() == i,
            (match spec_propagate(views, directions@, i as int, amount_in as int, real_rate as int) {
                None => spec_cycle_outcome(views, directions@, gb) is None,
                Some(rest) => spec_cycle_outcome(views, directions@, gb) == Some(
                    (rest.0, quantities_input@.map_values(|q: u128| q as int) + rest.1),
                ),
            }),
        decreases n - i,
    {
        let ghost gi = i as int;
        let ghost pre_amount = amount_in as int;
        let ghost pre_rate = real_rate as int;
        let ghost pre_q = quantities_input@.map_values(|q: u128| q as int);
        let direction = directions[i];
        proof {
            assert(views[gi] == orderbooks@[gi]@);
        }
        let fill = match calculate_weighted_average_price(&orderbooks[i], amount_in, direction) {
            Some(f) => f,
            None => {
                proof {
                    assert(spec_propagate(views, directions@, gi, pre_amount, pre_rate) is None);
                }
                return None;
            },
        };
        if fill.quantity > AMOUNT_LIMIT {
            proof {
                assert(spec_propagate(views, directions@, gi, pre_amount, pre_rate) is None);
            }
            return None;
        }
        let new_rate: u128 = match direction {
            Direction::Forward => {
                match real_rate.checked_mul(fill.weighted_price) {
                    Some(p) => p / SCALE,
                    None => {
                        proof {
                            assert(spec_rate_after(pre_rate, fill.weighted_price as int, direction) is None);
                            assert(spec_propagate(views, directions@, gi, pre_amount, pre_rate) is None);
                        }
                        return None;
                    },
                }
            },
            Direction::Reverse => {
                if fill.weighted_price == 0 {
                    proof {
                        assert(spec_rate_after(pre_rate, fill.weighted_price as int, direction) is None);
                        assert(spec_propagate(views, directions@, gi, pre_amount, pre_rate) is None);
                    }
                    return None;
                }
                match real_rate.checked_mul(SCALE) {
                    Some(p) => p / fill.weighted_price,
                    None => {
                        proof {
                            assert(spec_rate_after(pre_rate, fill.weighted_price as int, direction) is None);
                            assert(spec_propagate(views, directions@, gi, pre_amount, pre_rate) is None);
                        }
                        return None;
                    },
                }
            },
        };
        proof {
            assert(spec_rate_after(pre_rate, fill.weighted_price as int, direction) == Some(
                new_rate as int,
            ));
        }
        quantities_input.push(amount_in);
        real_rate = new_rate;
        amount_in = fill.quantity;
        i = i + 1;
        proof {
            assert(quantities_input@.map_values(|q: u128| q as int) =~= pre_q + seq![pre_amount]);
            match spec_propagate(views, directions@, gi + 1, amount_in as int, real_rate as int) {
                None => {
                    assert(spec_propagate(views, directions@, gi, pre_amount, pre_rate) is None);
                },
                Some(rest) => {
                    assert(spec_propagate(views, directions@, gi, pre_amount, pre_rate) == Some(
                        (rest.0, seq![pre_amount] + rest.1),
                    ));
                    assert(pre_q + (seq![pre_amount] + rest.1) =~= (pre_q + seq![pre_amount])
                        + rest.1);
                },
            }
        }
    }
    proof {
        assert(spec_propagate(views, directions@, n as int, amount_in as int, real_rate as int)
            == Some((real_rate as int, Seq::<int>::empty())));
        assert(quantities_input@.map_values(|q: u128| q as int) + Seq::<int>::empty()
            =~= quantities_input@.map_values(|q: u128| q as int));
    }
    Some((real_rate, quantities_input))
}

/// What a successful propagation guarantees of its committed budgets: the
/// first is the starting budget, every leg's simulation succeeded on its
/// budget, and each later budget is exactly the quantity the previous
/// leg's simulation produced.
pub proof fn lemma_propagate_links(
    books: Seq<Seq<Level>>,
    dirs: Seq<Direction>,
    i: int,
    amount: int,
    rate: int,
)
    requires
        0 <= i <= books.len(),
        dirs.len() == books.len(),
    ensures
        (match spec_propagate(books, dirs, i, amount, rate) {
            Some(p) => {
                &&& p.1.len() == books.len() - i
                &&& (p.1.len() > 0 ==> p.1[0] == amount)
                &&& forall|j: int|
                    0 <= j < p.1.len() ==> spec_simulate(books[i + j], dirs[i + j], #[trigger] p.1[j]) is Some
                &&& forall|j: int|
                    0 <= j < p.1.len() - 1 ==> #[trigger] p.1[j + 1] == spec_simulate(
                        books[i + j],
                        dirs[i + j],
                        p.1[j],
                    )->Some_0.2
            },
            None => true,
        }),
    decreases books.len() - i,
{
    if i >= books.len() {
    } else {
        match spec_simulate(books[i], dirs[i], amount) {
            None => {},
            Some(f) => {
                if f.2 > AMOUNT_LIMIT {
                } else {
                    match spec_rate_after(rate, f.0, dirs[i]) {
                        None => {},
                        Some(r2) => {
                            lemma_propagate_links(books, dirs, i + 1, f.2, r2);
                            match spec_propagate(books, dirs, i + 1, f.2, r2) {
                                None => {},
                                Some(rest) => {
                                    let qs = seq![amount] + rest.1;
                                    assert(qs[0] == amount);
                                    assert(forall|j: int|
                                        1 <= j < qs.len() ==> qs[j] == rest.1[j - 1]);
                                    assert forall|j: int|
                                        0 <= j < qs.len() implies spec_simulate(
                                        books[i + j],
                                        dirs[i + j],
                                        #[trigger] qs[j],
                                    ) is Some by {
                                        if j > 0 {
                                            assert(spec_simulate(
                                                books[(i + 1) + (j - 1)],
                                                dirs[(i + 1) + (j - 1)],
                                                rest.1[j - 1],
                                            ) is Some);
                                        }
                                    };
                                    assert forall|j: int|
                                        0 <= j < qs.len() - 1 implies #[trigger] qs[j + 1]
                                        == spec_simulate(books[i + j], dirs[i + j], qs[j])->Some_0.2 by {
                                        if j == 0 {
                                            assert(rest.1.len() > 0);
                                            assert(qs[1] == rest.1[0]);
                                            assert(rest.1[0] == f.2);
                                        } else {
                                            assert(rest.1[(j - 1) + 1] == spec_simulate(
                                                books[(i + 1) + (j - 1)],
                                                dirs[(i + 1) + (j - 1)],
                                                rest.1[j - 1],
                                            )->Some_0.2);
                                            assert(qs[j + 1] == rest.1[j]);
                                            assert(qs[j] == rest.1[j - 1]);
                                        }
                                    };
                                },
                            }
                        },
                    }
                }
            },
        }
    }
}

/// Budget propagation law: when a cycle evaluation succeeds, leg `i+1`'s
/// input budget is exactly leg `i`'s simulated output quantity, and the
/// first budget is the starting budget itself.
pub proof fn lemma_budget_propagation(books: Seq<Seq<Level>>, dirs: Seq<Direction>, budget: int)
    requires
        dirs.len() == books.len(),
    ensures
        (match spec_cycle_outcome(books, dirs, budget) {
            Some(p) => {
                &&& p.1.len() == books.len()
                &&& (p.1.len() > 0 ==> p.1[0] == budget)
                &&& forall|j: int|
                    0 <= j < p.1.len() - 1 ==> #[trigger] p.1[j + 1] == spec_simulate(
                        books[j],
                        dirs[j],
                        p.1[j],
                    )->Some_0.2
            },
            None => true,
        }),
{
    lemma_propagate_links(books, dirs, 0, budget, SCALE as int);
}

/// Fail-fast law: a successful cycle outcome certifies that every single
/// leg's simulation returned a fill; hence if any leg's simulation is
/// `None` on its committed budget, the whole evaluation is `None` and no
/// partial result is ever produced.
pub proof fn lemma_fail_fast(books: Seq<Seq<Level>>, dirs: Seq<Direction>, budget: int)
    requires
        dirs.len() == books.len(),
    ensures
        (match spec_cycle_outcome(books, dirs, budget) {
            Some(p) => forall|j: int|
                0 <= j < books.len() ==> spec_simulate(books[j], dirs[j], #[trigger] p.1[j]) is Some,
            None => true,
        }),
{
    lemma_propagate_links(books, dirs, 0, budget, SCALE as int);
}

/// Idempotence: two evaluations of the same legs against identical
/// snapshots and the same budget yield identical outcomes.
pub proof fn lemma_evaluation_idempotent(
    books: Seq<Seq<Level>>,
    dirs: Seq<Direction>,
    budget: int,
    r1: Option<(int, Seq<int>)>,
    r2: Option<(int, Seq<int>)>,
)
    requires
        r1 == spec_cycle_outcome(books, dirs, budget),
        r2 == spec_cycle_outcome(books, dirs, budget),
    ensures
        r1 == r2,
{
}

} // verus!
