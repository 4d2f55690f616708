use ob_aggregator::decimal::Decimal;
use ob_aggregator::orderbook_merger::{merge_sorted_asks, merge_sorted_bids};
use ob_aggregator::types::{CoinbaseOrder, GeminiOrder, OrderBook};
use ob_aggregator::valuation::{calculate_entity_price, ValuationError};

fn level(price_units: i64, size_units: i64) -> OrderBook {
    OrderBook { price: Decimal { units: price_units }, size: Decimal { units: size_units } }
}

const WHOLE: i64 = 1_000_000_000;

#[test]
fn example_scenario_merge_then_value() {
    // First source asks (100, 2) and (101, 3); second source asks (100.5, 1).
    // Valuing quantity 2.5 costs 100 * 2 + 100.5 * 0.5 = 250.25, no shortfall.
    let a = vec![
        CoinbaseOrder {
            price: Decimal { units: 100 * WHOLE },
            size: Decimal { units: 2 * WHOLE },
            num_orders: 1,
        },
        CoinbaseOrder {
            price: Decimal { units: 101 * WHOLE },
            size: Decimal { units: 3 * WHOLE },
            num_orders: 1,
        },
    ];
    let b = vec![GeminiOrder {
        price: Decimal { units: 100 * WHOLE + WHOLE / 2 },
        amount: Decimal { units: WHOLE },
        timestamp: 0,
    }];
    let merged = merge_sorted_asks(a, b);
    let v = calculate_entity_price(&merged, Decimal { units: 2 * WHOLE + WHOLE / 2 }, true)
        .unwrap();
    assert_eq!(v.cost.units, 250_250_000_000_000_000_000i128);
    assert_eq!(v.filled.units, 2 * WHOLE + WHOLE / 2);
    assert!(!v.shortfall);
    assert!(!v.unsorted);
}

#[test]
fn exact_boundary_fill() {
    // The request equals the cumulative size of the first two levels: the
    // cost is exactly their notional and the fill is complete.
    let ladder = vec![level(100 * WHOLE, 2 * WHOLE), level(101 * WHOLE, 3 * WHOLE)];
    let v = calculate_entity_price(&ladder, Decimal { units: 5 * WHOLE }, true).unwrap();
    // 100 * 2 + 101 * 3 = 503
    assert_eq!(v.cost.units, 503_000_000_000_000_000_000i128);
    assert_eq!(v.filled.units, 5 * WHOLE);
    assert!(!v.shortfall);
}

#[test]
fn partial_fill_reports_shortfall() {
    // Requesting more than the ladder holds fills the whole ladder and
    // signals the shortfall; this is not an error.
    let ladder = vec![level(100 * WHOLE, 2 * WHOLE), level(101 * WHOLE, 3 * WHOLE)];
    let v = calculate_entity_price(&ladder, Decimal { units: 10 * WHOLE }, true).unwrap();
    assert_eq!(v.cost.units, 503_000_000_000_000_000_000i128);
    assert_eq!(v.filled.units, 5 * WHOLE);
    assert!(v.shortfall);
    assert_eq!(v.total_available_units, (5 * WHOLE) as i128);
}

#[test]
fn valuing_twice_is_identical() {
    let ladder = vec![level(100 * WHOLE, 2 * WHOLE), level(101 * WHOLE, 3 * WHOLE)];
    let q = Decimal { units: 4 * WHOLE };
    let first = calculate_entity_price(&ladder, q, true).unwrap();
    let second = calculate_entity_price(&ladder, q, true).unwrap();
    assert_eq!(first, second);
}

#[test]
fn zero_size_levels_are_skipped_and_counted() {
    let ladder = vec![level(100 * WHOLE, 0), level(101 * WHOLE, 2 * WHOLE)];
    let v = calculate_entity_price(&ladder, Decimal { units: WHOLE }, true).unwrap();
    // The zero-size level contributes nothing; the fill comes from the next.
    assert_eq!(v.cost.units, 101_000_000_000_000_000_000i128);
    assert_eq!(v.filled.units, WHOLE);
    assert_eq!(v.zero_size_levels, 1);
    assert!(!v.shortfall);
}

#[test]
fn dust_levels_are_counted() {
    // 0.00005 is below the 0.0001 dust threshold; zero-size levels count as
    // dust as well.
    let ladder = vec![
        level(100 * WHOLE, 50_000),
        level(101 * WHOLE, 0),
        level(102 * WHOLE, WHOLE),
    ];
    let v = calculate_entity_price(&ladder, Decimal { units: WHOLE }, true).unwrap();
    assert_eq!(v.dust_levels, 2);
    assert_eq!(v.zero_size_levels, 1);
}

#[test]
fn unsorted_ladder_is_flagged_but_valued() {
    // An ask ladder in descending order is flagged, and the valuation still
    // walks the levels in the order encountered.
    let ladder = vec![level(101 * WHOLE, WHOLE), level(100 * WHOLE, WHOLE)];
    let v = calculate_entity_price(&ladder, Decimal { units: WHOLE }, true).unwrap();
    assert!(v.unsorted);
    assert_eq!(v.cost.units, 101_000_000_000_000_000_000i128);
    // The same ladder is correctly ordered for bids.
    let v = calculate_entity_price(&ladder, Decimal { units: WHOLE }, false).unwrap();
    assert!(!v.unsorted);
}

#[test]
fn non_positive_quantity_is_an_error() {
    let ladder = vec![level(100 * WHOLE, WHOLE)];
    let zero = calculate_entity_price(&ladder, Decimal { units: 0 }, true);
    assert_eq!(zero, Err(ValuationError::NonPositiveQuantity));
    let negative = calculate_entity_price(&ladder, Decimal { units: -WHOLE }, true);
    assert_eq!(negative, Err(ValuationError::NonPositiveQuantity));
}

#[test]
fn empty_ladder_fills_nothing() {
    let ladder: Vec<OrderBook> = Vec::new();
    let v = calculate_entity_price(&ladder, Decimal { units: WHOLE }, true).unwrap();
    assert_eq!(v.cost.units, 0);
    assert_eq!(v.filled.units, 0);
    assert!(v.shortfall);
    assert_eq!(v.total_available_units, 0);
}

#[test]
fn bids_value_descending_ladder() {
    let a = vec![
        CoinbaseOrder {
            price: Decimal { units: 99 * WHOLE },
            size: Decimal { units: WHOLE },
            num_orders: 1,
        },
    ];
    let b = vec![GeminiOrder {
        price: Decimal { units: 100 * WHOLE },
        amount: Decimal { units: WHOLE },
        timestamp: 0,
    }];
    let merged = merge_sorted_bids(a, b);
    // The best (highest) bid is consumed first when selling.
    let v = calculate_entity_price(&merged, Decimal { units: WHOLE }, false).unwrap();
    assert_eq!(v.cost.units, 100_000_000_000_000_000_000i128);
    assert!(!v.unsorted);
}
