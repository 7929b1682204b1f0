//! Columns and footers of raw files, and columns of snapshot files.

use qtp_core::production::{
    BookSnapshot, ProductionError, SnapshotBookView, SnapshotKind, SnapshotLevel, SnapshotLevels,
};
use qtp_core::production::schema::{
    check_columns, check_footer, column_places, find_column, Column, ColumnType, RawFeed,
};
use qtp_core::production::writer::{snapshots_to_columns, ColumnValues};

fn columns(feed: RawFeed) -> Vec<Column> {
    feed.columns()
        .iter()
        .map(|column| Column {
            name: column.name.to_owned(),
            kind: column.kind,
            kind_name: "as wanted".to_owned(),
        })
        .collect()
}

#[test]
fn feeds_have_their_columns() {
    assert_eq!(RawFeed::SseTicks.name(), "mdl_4_24_0");
    assert_eq!(RawFeed::SzOrders.name(), "mdl_6_33_0");
    assert_eq!(RawFeed::SzExecutions.name(), "mdl_6_36_0");
    for (feed, count) in
        [(RawFeed::SseTicks, 12), (RawFeed::SzOrders, 10), (RawFeed::SzExecutions, 11)]
    {
        assert_eq!(feed.columns().len(), count);
        assert_eq!(check_columns(&columns(feed), &feed.columns()), None);
    }
}

#[test]
fn missing_and_wrong_columns_are_told() {
    let feed = RawFeed::SseTicks;
    let mut wrong = columns(feed);
    let price = find_column(&wrong, "Price").expect("price");
    wrong[price].kind = ColumnType::Int64;
    wrong[price].kind_name = "Int64".to_owned();
    assert_eq!(
        check_columns(&wrong, &feed.columns()),
        Some("field Price has type Int64, expected Decimal128(38, 3)".to_owned())
    );
    wrong.remove(price);
    assert_eq!(
        check_columns(&wrong, &feed.columns()),
        Some("missing field Price".to_owned())
    );
    assert_eq!(find_column(&wrong, "Price"), None);
}

fn footer(spoil: Option<(&str, Option<&str>)>) -> Vec<(String, String)> {
    let mut entries: Vec<(String, String)> = [
        ("clara.raw.market", "SH"),
        ("clara.raw.feed", "mdl_4_24_0"),
        ("clara.raw.document_version", "4.1"),
        ("clara.raw.format_version", "2"),
        ("clara.raw.schema_hash", "abc"),
        ("clara.raw.schema_id", "7"),
    ]
    .iter()
    .map(|(key, value)| ((*key).to_owned(), (*value).to_owned()))
    .collect();
    if let Some((key, value)) = spoil {
        entries.retain(|(known, _)| known != key);
        if let Some(value) = value {
            entries.push((key.to_owned(), value.to_owned()));
        }
    }
    entries
}

#[test]
fn footers_are_checked_entry_by_entry() {
    let check = |spoil| check_footer(&footer(spoil), "SH", "mdl_4_24_0");
    assert_eq!(check(None), None);
    assert_eq!(
        check(Some(("clara.raw.market", Some("SZ")))),
        Some("footer clara.raw.market must equal \"SH\"".to_owned())
    );
    assert_eq!(
        check(Some(("clara.raw.format_version", None))),
        Some("footer clara.raw.format_version must equal \"2\"".to_owned())
    );
    for value in [None, Some("")] {
        assert_eq!(
            check(Some(("clara.raw.schema_id", value))),
            Some("footer clara.raw.schema_id is missing".to_owned())
        );
    }
}

fn snapshot(turnover_units: u128) -> BookSnapshot {
    let level = SnapshotLevel { price_units: 100_000, quantity: 5, order_count: 2 };
    BookSnapshot {
        symbol: "600000".to_owned(),
        channel: 3,
        kind: SnapshotKind::MarketClose,
        boundary_time_ns: 9,
        last_local_time_ns: None,
        last_quote_time_ns: Some(8),
        book: SnapshotBookView {
            bids: SnapshotLevels::from_slice(&[level]),
            asks: SnapshotLevels::new(),
            total_bid_quantity: 5,
            weighted_bid_price_units: Some(100_000),
            total_ask_quantity: 0,
            weighted_ask_price_units: None,
            last_price_units: None,
            high_price_units: None,
            low_price_units: None,
            trade_count: 1,
            trade_quantity: 2,
            turnover_units,
        },
    }
}

#[test]
fn snapshots_become_columns() {
    let columns = snapshots_to_columns(&vec![snapshot(7)], 2).expect("columns");
    assert_eq!(columns.len(), 6 + 2 * 2 * 3 + 10);
    let value = |name: &str| {
        columns.iter().find(|column| column.name == name).map(|column| &column.values)
    };
    assert_eq!(value("symbol"), Some(&ColumnValues::Text(vec!["600000".to_owned()])));
    assert_eq!(value("channel"), Some(&ColumnValues::Narrow(vec![3])));
    assert_eq!(value("snapshot_kind"), Some(&ColumnValues::Text(vec!["market_close".to_owned()])));
    assert_eq!(value("boundary_time"), Some(&ColumnValues::Time(vec![Some(9)])));
    assert_eq!(value("last_local_time"), Some(&ColumnValues::Time(vec![None])));
    assert_eq!(value("bid_price_1"), Some(&ColumnValues::Decimal(18, vec![Some(100_000)])));
    assert_eq!(value("bid_order_count_1"), Some(&ColumnValues::Count(vec![Some(2)])));
    assert_eq!(value("bid_price_2"), Some(&ColumnValues::Decimal(18, vec![None])));
    assert_eq!(value("ask_quantity_1"), Some(&ColumnValues::Count(vec![None])));
    assert_eq!(value("turnover"), Some(&ColumnValues::Decimal(38, vec![Some(7)])));
    assert_eq!(columns[6].name, "ask_price_1");
    assert_eq!(columns.last().map(|column| column.name.as_str()), Some("turnover"));
}

#[test]
fn turnover_has_to_fit_a_decimal() {
    assert_eq!(
        snapshots_to_columns(&vec![snapshot(u128::MAX)], 1),
        Err(ProductionError::Arithmetic("turnover Decimal128 conversion"))
    );
}

#[test]
fn columns_are_found_whatever_their_types() {
    let feed = RawFeed::SzOrders;
    let mut found = columns(feed);
    found.reverse();
    let last = found.len() - 1;
    let places: Vec<usize> = (0..=last).rev().collect();
    assert_eq!(column_places(&found, &feed.columns()), Ok(places.clone()));
    found[last].kind = ColumnType::Other;
    assert_eq!(column_places(&found, &feed.columns()), Ok(places));
    assert!(check_columns(&found, &feed.columns()).is_some());
    found.retain(|column| column.name != "Price" && column.name != "OrderQty");
    assert_eq!(
        column_places(&found, &feed.columns()),
        Err("missing field Price".to_owned())
    );
}
