use ob_aggregator::decimal::Decimal;
use ob_aggregator::orderbook_merger::{merge_sorted_asks, merge_sorted_bids};
use ob_aggregator::types::{CoinbaseOrder, GeminiOrder, OrderBook};

fn cb(price_units: i64, size_units: i64) -> CoinbaseOrder {
    CoinbaseOrder {
        price: Decimal { units: price_units },
        size: Decimal { units: size_units },
        num_orders: 1,
    }
}

fn gm(price_units: i64, size_units: i64) -> GeminiOrder {
    GeminiOrder {
        price: Decimal { units: price_units },
        amount: Decimal { units: size_units },
        timestamp: 0,
    }
}

fn level(price_units: i64, size_units: i64) -> OrderBook {
    OrderBook { price: Decimal { units: price_units }, size: Decimal { units: size_units } }
}

const WHOLE: i64 = 1_000_000_000;

#[test]
fn merge_example_scenario_asks() {
    // First source asks (100, 2) and (101, 3); second source asks (100.5, 1).
    let a = vec![cb(100 * WHOLE, 2 * WHOLE), cb(101 * WHOLE, 3 * WHOLE)];
    let b = vec![gm(100 * WHOLE + WHOLE / 2, WHOLE)];
    let merged = merge_sorted_asks(a, b);
    let expected = vec![
        level(100 * WHOLE, 2 * WHOLE),
        level(100 * WHOLE + WHOLE / 2, WHOLE),
        level(101 * WHOLE, 3 * WHOLE),
    ];
    assert_eq!(merged, expected);
}

#[test]
fn merge_length_is_sum_of_inputs() {
    let a = vec![cb(10 * WHOLE, 1), cb(12 * WHOLE, 2), cb(14 * WHOLE, 3)];
    let b = vec![gm(11 * WHOLE, 4), gm(13 * WHOLE, 5)];
    let merged = merge_sorted_asks(a, b);
    assert_eq!(merged.len(), 5);
    // Every input level appears exactly once, in ascending order.
    let expected = vec![
        level(10 * WHOLE, 1),
        level(11 * WHOLE, 4),
        level(12 * WHOLE, 2),
        level(13 * WHOLE, 5),
        level(14 * WHOLE, 3),
    ];
    assert_eq!(merged, expected);
}

#[test]
fn merge_equal_price_prefers_first_source() {
    // Same price on both sides: the first source's level must come first;
    // the sizes tell the two levels apart.
    let a = vec![cb(100 * WHOLE, 1)];
    let b = vec![gm(100 * WHOLE, 2)];
    let merged = merge_sorted_asks(a, b);
    assert_eq!(merged, vec![level(100 * WHOLE, 1), level(100 * WHOLE, 2)]);

    let a = vec![cb(100 * WHOLE, 3)];
    let b = vec![gm(100 * WHOLE, 4)];
    let merged_bids = merge_sorted_bids(a, b);
    assert_eq!(merged_bids, vec![level(100 * WHOLE, 3), level(100 * WHOLE, 4)]);
}

#[test]
fn merge_with_empty_side_keeps_other_side() {
    let b = vec![gm(10 * WHOLE, 1), gm(11 * WHOLE, 2)];
    let merged = merge_sorted_asks(Vec::new(), b);
    assert_eq!(merged, vec![level(10 * WHOLE, 1), level(11 * WHOLE, 2)]);

    let a = vec![cb(9 * WHOLE, 7), cb(10 * WHOLE, 8)];
    let merged = merge_sorted_asks(a, Vec::new());
    assert_eq!(merged, vec![level(9 * WHOLE, 7), level(10 * WHOLE, 8)]);

    let merged = merge_sorted_asks(Vec::new(), Vec::new());
    assert_eq!(merged, Vec::new());
}

#[test]
fn merge_resorts_out_of_order_input() {
    // Asks handed in descending order are defensively re-sorted ascending.
    let a = vec![cb(101 * WHOLE, 1), cb(100 * WHOLE, 2)];
    let merged = merge_sorted_asks(a, Vec::new());
    assert_eq!(merged, vec![level(100 * WHOLE, 2), level(101 * WHOLE, 1)]);
}

#[test]
fn merge_bids_descending() {
    let a = vec![cb(102 * WHOLE, 1), cb(100 * WHOLE, 2)];
    let b = vec![gm(101 * WHOLE, 3)];
    let merged = merge_sorted_bids(a, b);
    let expected = vec![
        level(102 * WHOLE, 1),
        level(101 * WHOLE, 3),
        level(100 * WHOLE, 2),
    ];
    assert_eq!(merged, expected);
}
