//! Compact references, raw columns and outcomes.

use qtp_core::market_data::{Market, PriceScale};
use qtp_core::production::schema::{Column, ColumnType};
use qtp_core::production::{
    SnapshotBookView, SnapshotLevel, SnapshotLevels, PRODUCTION_PRICE_DECIMAL_PLACES,
    PRODUCTION_PRICE_MULTIPLIER,
};
use qtp_core::production::validation::{
    classify_reference, decode_amount, decode_price, decode_quantity, decode_required_quantity,
    reference_columns, rescale_nonnegative_decimal, round_weighted_to_quantum, validation_price,
    weighted_prices_match, RawKind, RawSnapshotColumns, RawValue, ReferenceBookView,
    ReferenceLevels, ValidationCounts, ValidationOutcome,
};

#[test]
fn compact_depth_round_trips_and_checks_bounds() {
    for count in 0..=10 {
        let levels: Vec<SnapshotLevel> = (0..count)
            .map(|i| SnapshotLevel {
                price_units: 100_000 + i,
                quantity: u64::MAX - i as u64,
                order_count: u64::from(u32::MAX),
            })
            .collect();
        let levels = SnapshotLevels::from_slice(&levels);
        assert_eq!(ReferenceLevels::from_levels(&levels).expect("depth").expand(), levels);
    }
    let level = SnapshotLevel { price_units: 10, quantity: 100, order_count: 1 };
    let mut levels = vec![level; 11];
    assert!(ReferenceLevels::from_levels(&SnapshotLevels::from_slice(&levels)).is_err());
    levels.truncate(10);
    levels[0].order_count = u64::from(u32::MAX) + 1;
    assert!(ReferenceLevels::from_levels(&SnapshotLevels::from_slice(&levels)).is_err());
    assert!(size_of::<ReferenceBookView>() < size_of::<SnapshotBookView>());
}

#[test]
fn bound_decimal_preserves_rounding_nulls_and_scale_checks() {
    let values = [None, Some(0), Some(123_456), Some(-1)];
    let price = |row: usize| decode_price("price", values[row], 6, row);
    let amount = |row: usize| decode_amount("price", values[row], 6, row);
    assert_eq!(price(0).expect("null"), None);
    assert_eq!(price(1).expect("zero"), None);
    assert_eq!(price(2).expect("rounded"), Some(1235));
    assert!(price(3).is_err());
    assert!(amount(0).is_err());
    assert_eq!(amount(2).expect("amount"), 1235);
    let mut columns = raw_columns(Market::Szse);
    assert!(RawSnapshotColumns::bind(Market::Szse, &columns).is_ok());
    let place = columns
        .iter()
        .position(|column| matches!(column.kind, ColumnType::Decimal { scale: 6, .. }))
        .expect("a column of six places");
    columns[place].kind = ColumnType::Decimal { precision: 18, scale: 4 };
    assert!(RawSnapshotColumns::bind(Market::Szse, &columns).is_err());
    columns.remove(place);
    assert!(RawSnapshotColumns::bind(Market::Szse, &columns).is_err());
}

#[test]
fn bound_quantity_rejects_fractional_negative_and_required_null() {
    let value = |raw| RawValue::Decimal(raw);
    assert_eq!(decode_quantity("qty", value(None), 0).expect("null"), None);
    assert!(decode_required_quantity("qty", value(None), 0).is_err());
    assert_eq!(decode_required_quantity("qty", value(Some(1_000)), 1).expect("integer"), 1);
    assert!(decode_required_quantity("qty", value(Some(1_001)), 2).is_err());
    assert!(decode_required_quantity("qty", value(Some(-1_000)), 3).is_err());
}

/// The columns of a raw snapshot file.
fn raw_columns(market: Market) -> Vec<Column> {
    reference_columns(market)
        .into_iter()
        .map(|column| Column {
            name: column.name,
            kind: match column.kind {
                RawKind::Decimal(scale) => ColumnType::Decimal { precision: 18, scale },
                RawKind::Signed => ColumnType::Int64,
                RawKind::Unsigned => ColumnType::UInt32,
            },
            kind_name: "as wanted".to_owned(),
        })
        .collect()
}

#[test]
fn classification_preserves_error_priority_even_after_a_match() {
    let classify = |late, load: Option<&str>, seen, comparison: Option<&str>, matched| {
        classify_reference(
            late,
            load.map(str::to_owned),
            seen,
            comparison.map(str::to_owned),
            matched,
        )
    };
    let (outcome, reason) = classify(Some(0), Some("load"), false, Some("compare"), true);
    assert_eq!(outcome, ValidationOutcome::DataError);
    assert!(reason.as_deref().is_some_and(|text| text.contains("unclassified SZ events")));
    assert_eq!(
        classify(None, Some("load"), false, Some("compare"), true),
        (ValidationOutcome::DataError, Some("load".to_owned()))
    );
    assert_eq!(
        classify(None, None, false, Some("compare"), true).0,
        ValidationOutcome::MissingSource
    );
    assert_eq!(
        classify(None, None, true, Some("compare"), true),
        (ValidationOutcome::DataError, Some("compare".to_owned()))
    );
    assert_eq!(classify(None, None, true, None, true), (ValidationOutcome::Matched, None));
    assert_eq!(classify(None, None, true, None, false).0, ValidationOutcome::Mismatched);
}

#[test]
fn decimals_are_rescaled_half_up() {
    assert_eq!(rescale_nonnegative_decimal(123_456, 6, 4), Some(1_235));
    assert_eq!(rescale_nonnegative_decimal(123_449, 6, 4), Some(1_234));
    assert_eq!(rescale_nonnegative_decimal(123_450, 6, 4), Some(1_235));
    assert_eq!(rescale_nonnegative_decimal(12, 2, 4), Some(1_200));
    assert_eq!(rescale_nonnegative_decimal(-1, 2, 4), None);
    assert_eq!(rescale_nonnegative_decimal(i128::MAX, 2, 4), None);
}

#[test]
fn rounds_weighted_prices_to_reference_feed_precision() {
    assert_eq!(validation_price(Market::Sse, "600000", Some(89_086)), Some(89_090));
    assert_eq!(validation_price(Market::Szse, "000001", Some(113_222)), Some(113_200));
    assert_eq!(validation_price(Market::Szse, "159001", Some(997_194)), Some(997_190));
    assert!(matches!(round_weighted_to_quantum(69_274_900, 1_000, 10), Ok(69_270)));
}

#[test]
fn production_price_multiplier_matches_four_decimal_places() {
    let scale = PriceScale::from_decimal_places(PRODUCTION_PRICE_DECIMAL_PLACES).expect("scale");
    assert_eq!(scale.multiplier(), PRODUCTION_PRICE_MULTIPLIER);
}

#[test]
fn weighted_prices_match_within_a_tolerance() {
    assert!(weighted_prices_match(None, None));
    assert!(!weighted_prices_match(Some(100_000), None));
    assert!(!weighted_prices_match(None, Some(100_000)));
    assert!(weighted_prices_match(Some(100_000), Some(100_010)));
    assert!(!weighted_prices_match(Some(100_000), Some(99_989)));
}

#[test]
fn counts_add_up() {
    let mut counts = ValidationCounts::new();
    for outcome in [
        ValidationOutcome::Matched,
        ValidationOutcome::Mismatched,
        ValidationOutcome::DataError,
        ValidationOutcome::MissingSource,
        ValidationOutcome::Matched,
    ] {
        counts.observe(outcome);
    }
    assert_eq!(counts.total, 5);
    assert_eq!(counts.comparable, 3);
    assert_eq!((counts.matched, counts.mismatched), (2, 1));
    assert_eq!(counts.total, counts.comparable + counts.data_errors + counts.missing_source);
}
