//! Selection and checking of raw feed rows.

use qtp_core::market_data::{Market, Symbol, TradingDay};
use qtp_core::production::input::{
    ingest_sse, ingest_sz_executions, ingest_sz_orders, register_symbol_channel, IngestStats,
    RawSseRow, RawSzExecution, RawSzOrder, SequenceAudit,
};
use qtp_core::production::{
    parse_market_timestamp, Aggressor, MarketDayRequest, MarketTimestampParser, ProductionError,
    SseKind, SzExecutionKind, SzMarketOrderPolicy, SzOrderKind, SzSide, TargetUniverse,
};

#[test]
fn registers_symbol_channels_once_and_keeps_symbols_independent() {
    let mut stats = IngestStats::default();
    assert!(register_symbol_channel(&mut stats, "600000", 1).is_ok());
    for _ in 0..3 {
        assert!(register_symbol_channel(&mut stats, "600000", 1).is_ok());
    }
    assert!(register_symbol_channel(&mut stats, "600001", 2).is_ok());
    assert_eq!(stats.symbol_channels.len(), 2);
    assert_eq!(stats.symbol_channels.get("600000"), Some(&1));
    assert_eq!(stats.symbol_channels.get("600001"), Some(&2));
}

#[test]
fn channel_conflict_preserves_previous_error_and_overwrite_behavior() {
    let mut stats = IngestStats::default();
    assert!(register_symbol_channel(&mut stats, "600000", 1).is_ok());
    assert!(matches!(
        register_symbol_channel(&mut stats, "600000", 2),
        Err(ProductionError::SymbolChannelConflict {
            symbol,
            first_channel: 1,
            second_channel: 2,
        }) if symbol.as_str() == "600000"
    ));
    assert_eq!(stats.symbol_channels.len(), 1);
    assert_eq!(stats.symbol_channels.get("600000"), Some(&2));
    assert!(register_symbol_channel(&mut stats, "600000", 2).is_ok());
}

fn day() -> TradingDay {
    TradingDay::from_yyyymmdd(20_260_828).expect("day")
}

fn request(market: Market, targets: TargetUniverse) -> MarketDayRequest {
    MarketDayRequest {
        raw_root: String::new(),
        output_root: String::new(),
        temp_root: String::new(),
        trading_day: day(),
        market,
        targets,
        snapshots: None,
        batch_size: 1,
        sz_market_order_policy: SzMarketOrderPolicy::RequireEvidence,
    }
}

fn raw_sse(row: u64, index: u64, symbol: &str, time: &str) -> RawSseRow {
    RawSseRow {
        source_row: Some(row),
        channel: Some(4),
        biz_index: Some(index),
        security_id: Some(symbol.to_owned()),
        tick_time: Some(time.to_owned()),
        kind: Some("A".to_owned()),
        flag: Some("B".to_owned()),
        local_time: Some("09:31:00.000".to_owned()),
        price: Some(10_120),
        price_scale: 3,
        quantity: Some(100_000),
        buy_order_no: Some(77),
        sell_order_no: Some(0),
    }
}

fn ingest(raws: Vec<RawSseRow>, targets: TargetUniverse, cutoff: Option<i64>) -> (Result<(), ProductionError>, IngestStats, Vec<qtp_core::production::SseRow>) {
    let mut sequences = std::collections::HashMap::new();
    let mut stats = IngestStats::default();
    let mut rows = Vec::new();
    let parser = MarketTimestampParser::new(day()).expect("parser");
    let result = ingest_sse(
        &request(Market::Sse, targets),
        &parser,
        cutoff,
        &raws,
        &mut sequences,
        &mut stats,
        &mut rows,
    );
    (result, stats, rows)
}

#[test]
fn shanghai_rows_are_selected_counted_and_scaled() {
    let raws = vec![
        raw_sse(1, 10, "600000", "09:30:00.010"),
        raw_sse(2, 11, "600001", "09:30:00.010"),
        raw_sse(3, 12, "510300", "09:30:00.010"),
        raw_sse(4, 13, "600000", "09:30:01.000"),
    ];
    let cutoff = parse_market_timestamp(day(), "09:30:01.000").expect("cutoff");
    let (result, stats, rows) =
        ingest(raws, TargetUniverse::Symbols(vec![Symbol::from("600000")]), Some(cutoff));
    assert_eq!(result, Ok(()));
    assert_eq!(stats.input_rows, 4);
    assert_eq!(stats.selected_rows, 1);
    assert_eq!(stats.excluded_rows, 2);
    assert_eq!(stats.excluded_non_stock_rows, 0);
    assert_eq!(stats.excluded_unselected_stock_rows, 2);
    assert_eq!(stats.excluded_after_cutoff_rows, 1);
    assert_eq!(
        stats.input_rows,
        stats.selected_rows + stats.excluded_rows + stats.excluded_after_cutoff_rows
    );
    assert_eq!(rows.len(), 1);
    let row = &rows[0];
    assert_eq!((row.symbol.as_str(), row.channel, row.sequence, row.source_row), ("600000", 4, 10, 1));
    assert_eq!(row.kind, SseKind::Add);
    assert_eq!(row.flag, Aggressor::Buy);
    assert_eq!(row.price_units, 101_200);
    assert_eq!(row.buy_order_no, 77);
    assert_eq!(row.quote_time_ns, parse_market_timestamp(day(), "09:30:00.010").unwrap());
}

#[test]
fn faults_of_shanghai_rows_name_their_field() {
    let faults: [fn(&mut RawSseRow); 5] = [
        |r| r.security_id = None,
        |r| r.kind = Some("X".to_owned()),
        |r| r.price = None,
        |r| r.quantity = Some(-1),
        |r| r.tick_time = Some("9:30".to_owned()),
    ];
    for spoil in faults {
        let mut raw = raw_sse(5, 10, "600000", "09:30:00.010");
        spoil(&mut raw);
        let (result, _, rows) = ingest(vec![raw], TargetUniverse::AllStocks, None);
        assert!(
            matches!(result, Err(ProductionError::InvalidField { source_row: 5, .. })),
            "{result:?}"
        );
        assert!(rows.is_empty());
    }
    let (result, ..) = ingest(
        vec![
            raw_sse(1, 10, "600000", "09:30:00.010"),
            raw_sse(2, 10, "600000", "09:30:00.010"),
        ],
        TargetUniverse::AllStocks,
        None,
    );
    assert!(matches!(result, Err(ProductionError::NonIncreasingSequence { previous: 10, current: 10, .. })));
}

fn raw_order(row: u64, sequence: i64, kind: i32) -> RawSzOrder {
    RawSzOrder {
        source_row: Some(row),
        channel: Some(2011),
        sequence: Some(sequence),
        security_id: Some("000001".to_owned()),
        transact_time: Some("09:30:00.010".to_owned()),
        local_time: Some("09:30:00.020".to_owned()),
        price: Some(101_234),
        price_scale: 4,
        quantity: Some(300),
        side: Some(50),
        kind: Some(kind),
    }
}

#[test]
fn shenzhen_orders_audit_their_regressions() {
    let parser = MarketTimestampParser::new(day()).expect("parser");
    let mut audit = SequenceAudit::new("orders");
    let mut stats = IngestStats::default();
    let mut rows = Vec::new();
    let raws = vec![raw_order(1, 5, 50), raw_order(2, 3, 49), raw_order(3, 9, 85)];
    let result = ingest_sz_orders(
        &request(Market::Szse, TargetUniverse::AllStocks),
        &parser,
        None,
        &raws,
        &mut audit,
        &mut stats,
        &mut rows,
    );
    assert_eq!(result, Ok(()));
    assert_eq!(
        rows.iter().map(|row| (row.sequence, row.kind, row.side)).collect::<Vec<_>>(),
        [
            (5, SzOrderKind::Limit, SzSide::Sell),
            (3, SzOrderKind::Market, SzSide::Sell),
            (9, SzOrderKind::SameSideBest, SzSide::Sell),
        ]
    );
    assert_eq!(audit.regressions.len(), 1);
    assert_eq!((stats.input_rows, stats.selected_rows, stats.excluded_rows), (3, 3, 0));
    let mut strange = raw_order(4, 10, 50);
    strange.side = Some(51);
    let result = ingest_sz_orders(
        &request(Market::Szse, TargetUniverse::AllStocks),
        &parser,
        None,
        &vec![strange],
        &mut audit,
        &mut stats,
        &mut rows,
    );
    assert!(matches!(result, Err(ProductionError::InvalidField { source_row: 4, .. })));
    assert_eq!(rows.len(), 3);
}

#[test]
fn shenzhen_executions_are_trades_and_cancellations() {
    let parser = MarketTimestampParser::new(day()).expect("parser");
    let mut audit = SequenceAudit::new("executions");
    let mut stats = IngestStats::default();
    let mut rows = Vec::new();
    let raw = |sequence, kind| RawSzExecution {
        source_row: Some(1),
        channel: Some(2011),
        sequence: Some(sequence),
        security_id: Some("000001".to_owned()),
        transact_time: Some("09:30:00.010".to_owned()),
        local_time: Some("09:30:00.020".to_owned()),
        bid_order_no: Some(1),
        ask_order_no: Some(2),
        price: Some(101_234),
        price_scale: 4,
        quantity: Some(300),
        kind: Some(kind),
    };
    let result = ingest_sz_executions(
        &request(Market::Szse, TargetUniverse::AllStocks),
        &parser,
        None,
        &vec![raw(1, 70), raw(2, 52)],
        &mut audit,
        &mut stats,
        &mut rows,
    );
    assert_eq!(result, Ok(()));
    assert_eq!(
        rows.iter().map(|row| row.kind).collect::<Vec<_>>(),
        [SzExecutionKind::Trade, SzExecutionKind::Cancel]
    );
    assert_eq!(rows[0].price_units, 101_234);
    assert_eq!((stats.input_rows, stats.selected_rows, stats.excluded_rows), (2, 2, 0));
}

#[test]
fn selected_ticks_are_in_sequence() {
    let raws = vec![
        raw_sse(1, 10, "600000", "09:30:00.010"),
        raw_sse(2, 11, "600001", "09:30:00.010"),
        raw_sse(3, 15, "600000", "09:30:00.010"),
    ];
    let wanted = || TargetUniverse::Symbols(vec![Symbol::from("600000")]);
    let (result, _, rows) = ingest(raws, wanted(), None);
    assert_eq!(result, Ok(()));
    assert_eq!(rows.iter().map(|row| row.sequence).collect::<Vec<_>>(), [10, 15]);
    let raws = vec![
        raw_sse(1, 10, "600000", "09:30:00.010"),
        raw_sse(2, 11, "600001", "09:30:00.010"),
        raw_sse(3, 11, "600000", "09:30:00.010"),
    ];
    let (result, _, rows) = ingest(raws, wanted(), None);
    assert!(matches!(
        result,
        Err(ProductionError::NonIncreasingSequence { previous: 11, current: 11, .. })
    ));
    assert_eq!(rows.len(), 1);
}
