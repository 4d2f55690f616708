use ob_aggregator::decimal::{parse_qty, Decimal, QtyError};

#[test]
fn parses_whole_and_fractional_quantities() {
    assert_eq!(parse_qty("10.0"), Ok(Decimal { units: 10_000_000_000 }));
    assert_eq!(parse_qty("2.5"), Ok(Decimal { units: 2_500_000_000 }));
    assert_eq!(parse_qty("0.5"), Ok(Decimal { units: 500_000_000 }));
    assert_eq!(parse_qty("7"), Ok(Decimal { units: 7_000_000_000 }));
    assert_eq!(parse_qty("0.000000001"), Ok(Decimal { units: 1 }));
    assert_eq!(parse_qty("0010.25"), Ok(Decimal { units: 10_250_000_000 }));
}

#[test]
fn accepts_up_to_the_largest_quantity() {
    assert_eq!(
        parse_qty("1000000"),
        Ok(Decimal { units: 1_000_000_000_000_000 })
    );
    assert_eq!(parse_qty("1000001"), Err(QtyError::TooLarge));
    assert_eq!(parse_qty("1000000.000000001"), Err(QtyError::TooLarge));
    assert_eq!(parse_qty("99999999999999999999"), Err(QtyError::TooLarge));
}

#[test]
fn rejects_non_positive_quantities() {
    assert_eq!(parse_qty("0"), Err(QtyError::NonPositive));
    assert_eq!(parse_qty("0.0"), Err(QtyError::NonPositive));
    assert_eq!(parse_qty("000.000000000"), Err(QtyError::NonPositive));
    // A sign is not part of the accepted shape at all.
    assert_eq!(parse_qty("-1"), Err(QtyError::Malformed));
}

#[test]
fn rejects_malformed_quantities() {
    assert_eq!(parse_qty(""), Err(QtyError::Malformed));
    assert_eq!(parse_qty("abc"), Err(QtyError::Malformed));
    assert_eq!(parse_qty("1.2.3"), Err(QtyError::Malformed));
    assert_eq!(parse_qty(".5"), Err(QtyError::Malformed));
    assert_eq!(parse_qty("5."), Err(QtyError::Malformed));
    assert_eq!(parse_qty("1,5"), Err(QtyError::Malformed));
    assert_eq!(parse_qty("1e5"), Err(QtyError::Malformed));
    // More than nine fraction digits cannot be represented exactly.
    assert_eq!(parse_qty("1.0000000001"), Err(QtyError::Malformed));
    // Size overflow still reports the malformed tail, not a size error.
    assert_eq!(parse_qty("99999999999999999999x"), Err(QtyError::Malformed));
}
