use arbitrage::constants::{MAX_RECORD_ASSETS, MAX_SYMBOLS_WATCH, MIN_ARB_THRESH, SCALE, UPDATE_SYMBOLS_SECONDS, USD_BUDGET};
use arbitrage::cycle::{calculate_arbitrage, plan_cycle, starting_budget, validate_cycle_with_books, TradingRules};
use arbitrage::exchange::{ExchangeSnapshot, PricePoint};
use arbitrage::propagate::propagate_legs;
use arbitrage::record::build_arbitrage_record;
use arbitrage::selector::SymbolAccumulator;
use arbitrage::simulator::calculate_weighted_average_price;
use arbitrage::types::{BookType, Direction, Edge, Level};

fn lv(price: u128, quantity: u128) -> Level {
    Level { price, quantity }
}

fn edge(from: &str, to: &str) -> Edge {
    Edge { from: String::from(from), to: String::from(to) }
}

struct AcceptAll;

impl TradingRules for AcceptAll {
    fn validate_quantity(&self, _symbol: &String, proposed_amount: u128, _reference_price: u128) -> Option<u128> {
        Some(proposed_amount)
    }
}

struct RejectAll;

impl TradingRules for RejectAll {
    fn validate_quantity(&self, _symbol: &String, _proposed_amount: u128, _reference_price: u128) -> Option<u128> {
        None
    }
}

fn demo_snapshot() -> ExchangeSnapshot {
    ExchangeSnapshot {
        symbols: vec![
            String::from("ETHBTC"),
            String::from("BTCUSDT"),
            String::from("ETHUSDT"),
        ],
        prices: vec![
            PricePoint { symbol: String::from("BTCUSDT"), price: 50_000 * SCALE },
            PricePoint { symbol: String::from("ETHBTC"), price: SCALE / 20 },
            PricePoint { symbol: String::from("ETHUSDT"), price: 2_500 * SCALE },
        ],
    }
}

#[test]
fn single_level_forward_book() {
    // One level of 10.0 base units priced 100.0; a budget of 500.0 spends
    // the whole level: 10.0 base out, 1000.0 quote in, weighted price
    // total_quantity / total_cost = 100.0 since Forward inverts.
    let book = vec![lv(100 * SCALE, 10 * SCALE)];
    let fill = calculate_weighted_average_price(&book, 500 * SCALE, Direction::Forward).unwrap();
    assert_eq!(fill.cost, 10 * SCALE);
    assert_eq!(fill.quantity, 1_000 * SCALE);
    assert_eq!(fill.weighted_price, 100 * SCALE);
}

#[test]
fn forward_partial_fill_spends_exact_budget() {
    // The level's full cost (10.0) exceeds the budget (4.0): only the
    // remaining budget is consumed, at the level's price.
    let book = vec![lv(2 * SCALE, 10 * SCALE)];
    let fill = calculate_weighted_average_price(&book, 4 * SCALE, Direction::Forward).unwrap();
    assert_eq!(fill.cost, 4 * SCALE);
    assert_eq!(fill.quantity, 8 * SCALE);
    assert_eq!(fill.weighted_price, 2 * SCALE);
}

#[test]
fn reverse_shallow_book_consumed_fully() {
    // Total consumable depth 20.0 is below the 100.0 budget: the whole
    // book is consumed and the cost is the depth, not the budget.
    let book = vec![lv(2 * SCALE, 10 * SCALE)];
    let fill = calculate_weighted_average_price(&book, 100 * SCALE, Direction::Reverse).unwrap();
    assert_eq!(fill.cost, 20 * SCALE);
    assert_eq!(fill.quantity, 10 * SCALE);
    assert_eq!(fill.weighted_price, 2 * SCALE);
}

#[test]
fn reverse_partial_fill_spends_exact_budget() {
    let book = vec![lv(2 * SCALE, 10 * SCALE), lv(3 * SCALE, 10 * SCALE)];
    // Depth is 20.0 + 30.0; a budget of 26.0 takes the first level fully
    // and 6.0 of the second at price 3.0.
    let fill = calculate_weighted_average_price(&book, 26 * SCALE, Direction::Reverse).unwrap();
    assert_eq!(fill.cost, 26 * SCALE);
    assert_eq!(fill.quantity, 12 * SCALE);
    assert_eq!(fill.weighted_price, 26 * SCALE / 12);
}

#[test]
fn budget_hit_exactly_stops_early() {
    let book = vec![lv(SCALE, 5 * SCALE), lv(SCALE, 7 * SCALE)];
    let fill = calculate_weighted_average_price(&book, 5 * SCALE, Direction::Forward).unwrap();
    assert_eq!(fill.cost, 5 * SCALE);
    assert_eq!(fill.quantity, 5 * SCALE);
    assert_eq!(fill.weighted_price, SCALE);
}

#[test]
fn empty_book_yields_nothing() {
    let book: Vec<Level> = vec![];
    assert!(calculate_weighted_average_price(&book, 10 * SCALE, Direction::Forward).is_none());
    assert!(calculate_weighted_average_price(&book, 10 * SCALE, Direction::Reverse).is_none());
}

#[test]
fn zero_budget_yields_nothing() {
    let book = vec![lv(2 * SCALE, 10 * SCALE)];
    assert!(calculate_weighted_average_price(&book, 0, Direction::Forward).is_none());
}

#[test]
fn two_leg_budget_propagation() {
    // Leg 0 turns 4.0 into 8.0 at weighted price 2.0; leg 1 must then be
    // simulated with budget exactly 8.0 (the propagation law), turning it
    // into 8.0 at price 1.0.  The realized rate is 2.0.
    let books = vec![
        vec![lv(2 * SCALE, 10 * SCALE)],
        vec![lv(SCALE, 100 * SCALE)],
    ];
    let dirs = vec![Direction::Forward, Direction::Forward];
    let (rate, budgets) = propagate_legs(&books, &dirs, 4 * SCALE).unwrap();
    assert_eq!(budgets, vec![4 * SCALE, 8 * SCALE]);
    assert_eq!(rate, 2 * SCALE);
}

#[test]
fn propagation_is_idempotent() {
    let books = vec![
        vec![lv(2 * SCALE, 10 * SCALE), lv(3 * SCALE, 4 * SCALE)],
        vec![lv(SCALE / 2, 100 * SCALE)],
    ];
    let dirs = vec![Direction::Forward, Direction::Reverse];
    let first = propagate_legs(&books, &dirs, 14 * SCALE);
    let second = propagate_legs(&books, &dirs, 14 * SCALE);
    assert_eq!(first, second);
}

#[test]
fn failing_leg_fails_the_whole_cycle() {
    // The second leg's book is empty, so its simulation yields nothing:
    // the whole propagation is discarded, with no partial result.
    let books = vec![vec![lv(2 * SCALE, 10 * SCALE)], vec![]];
    let dirs = vec![Direction::Forward, Direction::Forward];
    assert!(propagate_legs(&books, &dirs, 4 * SCALE).is_none());
}

#[test]
fn snapshot_lookup() {
    let snapshot = demo_snapshot();
    assert!(snapshot.has_symbol(&String::from("ETHBTC")));
    assert!(!snapshot.has_symbol(&String::from("DOGEBTC")));
    assert_eq!(snapshot.price_of(&String::from("BTCUSDT")), Some(50_000 * SCALE));
    assert_eq!(snapshot.price_of(&String::from("DOGEUSDT")), None);
}

#[test]
fn starting_budget_converts_through_anchor_pair() {
    let snapshot = demo_snapshot();
    // 1000 USD at 50000 USDT per BTC funds 0.02 BTC.
    assert_eq!(starting_budget(&String::from("BTC"), &snapshot), Some(SCALE / 50));
    // Stable anchors use the USD notional directly.
    assert_eq!(starting_budget(&String::from("USDT"), &snapshot), Some(USD_BUDGET));
    // A funded but unpriced, non-stable holding resolves no budget.
    assert_eq!(starting_budget(&String::from("DOGE"), &snapshot), None);
}

#[test]
fn plan_resolves_symbols_and_directions() {
    let snapshot = demo_snapshot();
    let cycle = vec![edge("BTC", "ETH"), edge("ETH", "BTC")];
    let plan = plan_cycle(&cycle, &snapshot).unwrap();
    assert_eq!(plan.budget, SCALE / 50);
    assert_eq!(plan.symbols, vec![String::from("ETHBTC"), String::from("ETHBTC")]);
    assert_eq!(plan.directions, vec![Direction::Reverse, Direction::Forward]);
    assert_eq!(plan.book_types, vec![BookType::Bids, BookType::Asks]);
}

#[test]
fn direction_follows_the_chosen_symbols_prefix() {
    // The to-first concatenation is listed, yet it happens to start with
    // the leg's `from` asset: the direction comes from the prefix test on
    // the chosen symbol, not from which concatenation won.
    let snapshot = ExchangeSnapshot {
        symbols: vec![String::from("ABUSDT"), String::from("ABABAB")],
        prices: vec![],
    };
    let cycle = vec![edge("USDT", "AB"), edge("AB", "ABAB")];
    let plan = plan_cycle(&cycle, &snapshot).unwrap();
    assert_eq!(plan.symbols, vec![String::from("ABUSDT"), String::from("ABABAB")]);
    assert_eq!(plan.directions, vec![Direction::Reverse, Direction::Forward]);
    assert_eq!(plan.book_types, vec![BookType::Bids, BookType::Asks]);
}

#[test]
fn empty_cycle_is_rejected() {
    let snapshot = demo_snapshot();
    let cycle: Vec<Edge> = vec![];
    assert!(plan_cycle(&cycle, &snapshot).is_none());
}

#[test]
fn unfunded_anchor_is_rejected() {
    let snapshot = demo_snapshot();
    // ETH is a recognized conversion anchor but not in the funded
    // holdings allow-list.
    let cycle = vec![edge("ETH", "BTC"), edge("BTC", "ETH")];
    assert!(plan_cycle(&cycle, &snapshot).is_none());
}

#[test]
fn validated_cycle_reports_rate_budgets_and_symbols() {
    let snapshot = demo_snapshot();
    let cycle = vec![edge("BTC", "ETH"), edge("ETH", "BTC")];
    // Leg 0 (Reverse on ETHBTC): spend the whole 0.02 BTC budget at price
    // 0.05, receiving 0.4 ETH.  Leg 1 (Forward on ETHBTC): sell 0.4 ETH at
    // price 0.05, receiving 0.02 BTC.
    let books = vec![
        vec![lv(SCALE / 20, 10 * SCALE)],
        vec![lv(SCALE / 20, 10 * SCALE)],
    ];
    let (rate, budgets, symbols) =
        validate_cycle_with_books(&cycle, &snapshot, &AcceptAll, &books).unwrap();
    assert_eq!(budgets, vec![SCALE / 50, 2 * SCALE / 5]);
    assert_eq!(symbols, vec![String::from("ETHBTC"), String::from("ETHBTC")]);
    // Rate 1/0.05 * 0.05 == 1.0: the round trip neither gains nor loses.
    assert_eq!(rate, SCALE);
}

#[test]
fn validation_is_idempotent() {
    let snapshot = demo_snapshot();
    let cycle = vec![edge("BTC", "ETH"), edge("ETH", "BTC")];
    let books = vec![
        vec![lv(SCALE / 20, 10 * SCALE), lv(SCALE / 10, SCALE)],
        vec![lv(SCALE / 20, 10 * SCALE)],
    ];
    let first = validate_cycle_with_books(&cycle, &snapshot, &AcceptAll, &books);
    let second = validate_cycle_with_books(&cycle, &snapshot, &AcceptAll, &books);
    assert_eq!(first, second);
}

#[test]
fn rejected_quantity_fails_the_cycle() {
    let snapshot = demo_snapshot();
    let cycle = vec![edge("BTC", "ETH"), edge("ETH", "BTC")];
    let books = vec![
        vec![lv(SCALE / 20, 10 * SCALE)],
        vec![lv(SCALE / 20, 10 * SCALE)],
    ];
    assert!(validate_cycle_with_books(&cycle, &snapshot, &RejectAll, &books).is_none());
}

#[test]
fn zero_legs_yield_the_identity_rate() {
    // With no legs there is nothing to fail: the rate is the
    // multiplicative identity and no budget is committed anywhere.
    let snapshot = ExchangeSnapshot { symbols: vec![], prices: vec![] };
    let books: Vec<Vec<Level>> = vec![];
    let symbols: Vec<String> = vec![];
    let dirs: Vec<Direction> = vec![];
    let (rate, budgets) =
        calculate_arbitrage(&books, &symbols, &dirs, 7 * SCALE, &snapshot, &AcceptAll).unwrap();
    assert_eq!(rate, SCALE);
    assert!(budgets.is_empty());
}

#[test]
fn missing_price_fails_arbitrage() {
    // The traded pair is listed but has no last price: the exchange
    // checks abort the evaluation.
    let snapshot = ExchangeSnapshot { symbols: vec![String::from("ETHBTC")], prices: vec![] };
    let books = vec![vec![lv(2 * SCALE, 10 * SCALE)]];
    let symbols = vec![String::from("ETHBTC")];
    let dirs = vec![Direction::Forward];
    assert!(calculate_arbitrage(&books, &symbols, &dirs, 4 * SCALE, &snapshot, &AcceptAll).is_none());
}

#[test]
fn unknown_symbol_fails_arbitrage() {
    // The symbol table knows nothing of the traded pair, so the exchange
    // checks abort the evaluation even though the books have depth.
    let snapshot = ExchangeSnapshot { symbols: vec![], prices: vec![] };
    let books = vec![vec![lv(2 * SCALE, 10 * SCALE)]];
    let symbols = vec![String::from("ETHBTC")];
    let dirs = vec![Direction::Forward];
    assert!(calculate_arbitrage(&books, &symbols, &dirs, 4 * SCALE, &snapshot, &AcceptAll).is_none());
}

#[test]
fn record_keeps_at_most_eight_assets() {
    // Nine distinct assets: exactly eight are retained, the ninth is
    // silently dropped.
    let cycle = vec![
        edge("A1", "A2"),
        edge("A2", "A3"),
        edge("A3", "A4"),
        edge("A4", "A5"),
        edge("A5", "A6"),
        edge("A6", "A7"),
        edge("A7", "A8"),
        edge("A8", "A9"),
        edge("A9", "A1"),
    ];
    let record = build_arbitrage_record(&cycle, 2 * SCALE, (SCALE / 100) as i128, 1_700_000_000);
    assert_eq!(record.assets.len(), MAX_RECORD_ASSETS);
    let expected: Vec<String> =
        ["A1", "A2", "A3", "A4", "A5", "A6", "A7", "A8"].iter().map(|s| String::from(*s)).collect();
    assert_eq!(record.assets, expected);
    assert_eq!(record.arb_length, 9);
    assert_eq!(record.timestamp, 1_700_000_000);
    assert_eq!(record.arb_rate, 2 * SCALE);
    assert_eq!(record.arb_surface, SCALE as i128 / 100);
}

#[test]
fn record_deduplicates_assets() {
    let cycle = vec![edge("BTC", "ETH"), edge("ETH", "BTC")];
    let record = build_arbitrage_record(&cycle, SCALE, 0, 0);
    assert_eq!(record.assets, vec![String::from("BTC"), String::from("ETH")]);
    assert_eq!(record.arb_length, 2);
}

#[test]
fn selector_ignores_unprofitable_cycles() {
    let mut acc = SymbolAccumulator::new(1_000);
    let cycle = vec![edge("DOT", "AVAX"), edge("AVAX", "DOT")];
    acc.note_cycle(&cycle, MIN_ARB_THRESH - 1);
    assert!(acc.assets.is_empty());
}

#[test]
fn selector_skips_ignore_list_anchors() {
    let mut acc = SymbolAccumulator::new(1_000);
    let cycle = vec![edge("BTC", "DOT"), edge("DOT", "USDT"), edge("USDT", "BTC")];
    acc.note_cycle(&cycle, MIN_ARB_THRESH);
    assert_eq!(acc.assets, vec![String::from("DOT")]);
}

fn fill_accumulator(acc: &mut SymbolAccumulator) {
    // Enough distinct non-ignored assets to reach the capacity exactly.
    let mut legs: Vec<Edge> = vec![];
    for i in 0..MAX_SYMBOLS_WATCH / 2 {
        legs.push(edge(&format!("X{}A", i), &format!("X{}B", i)));
    }
    acc.note_cycle(&legs, MIN_ARB_THRESH);
    assert_eq!(acc.assets.len(), MAX_SYMBOLS_WATCH);
}

#[test]
fn watch_list_swaps_only_when_full_and_due() {
    let mut acc = SymbolAccumulator::new(1_000);
    // Before the deadline nothing is handed out, even when full.
    fill_accumulator(&mut acc);
    assert!(acc.maybe_flush(1_000).is_none());
    assert_eq!(acc.assets.len(), MAX_SYMBOLS_WATCH);
    // At the deadline the full set is expanded wholesale and cleared.
    let due = 1_000 + UPDATE_SYMBOLS_SECONDS;
    let list = acc.maybe_flush(due).unwrap();
    assert_eq!(list.len(), 2 * MAX_SYMBOLS_WATCH);
    assert_eq!(list[0], String::from("X0AUSDT"));
    assert_eq!(list[1], String::from("X0ABTC"));
    assert_eq!(list[2], String::from("X0BUSDT"));
    assert_eq!(list[3], String::from("X0BBTC"));
    assert!(acc.assets.is_empty());
    assert_eq!(acc.next_save, due + UPDATE_SYMBOLS_SECONDS);
}

#[test]
fn watch_list_waits_for_a_full_set() {
    // A half-full set at the deadline swaps nothing: the accumulation
    // simply continues.
    let mut acc = SymbolAccumulator::new(1_000);
    let cycle = vec![edge("DOT", "AVAX"), edge("AVAX", "DOT")];
    acc.note_cycle(&cycle, MIN_ARB_THRESH);
    assert!(acc.maybe_flush(1_000 + UPDATE_SYMBOLS_SECONDS).is_none());
    assert_eq!(acc.assets.len(), 2);
}

#[test]
fn capacity_bounds_the_accumulated_set() {
    let mut acc = SymbolAccumulator::new(1_000);
    let mut legs: Vec<Edge> = vec![];
    for i in 0..MAX_SYMBOLS_WATCH {
        legs.push(edge(&format!("Y{}A", i), &format!("Y{}B", i)));
    }
    acc.note_cycle(&legs, MIN_ARB_THRESH);
    assert_eq!(acc.assets.len(), MAX_SYMBOLS_WATCH);
    // The first assets seen are the ones kept.
    assert_eq!(acc.assets[0], String::from("Y0A"));
    assert_eq!(acc.assets[1], String::from("Y0B"));
}
