//! Validation of whole days, from raw references to the report.

use qtp_core::market_data::{Market, Symbol, TradingDay};
use qtp_core::production::input::IngestStats;
use qtp_core::production::{
    parse_market_timestamp, replay_market_day, validate_market_day,
    validate_pre_open_market_day, Aggressor,
    ChannelRows, Duration, MarketDayRequest, ProductionError, SseKind, SseRow, SzExecutionKind,
    SzExecutionRow, SzMarketOrderPolicy, SzOrderKind, SzOrderRow, SzSide, TargetUniverse,
    ValidationAnchor, ValidationConfig, ValidationOutcome,
};
use qtp_core::production::schema::{Column, ColumnType};
use qtp_core::production::validation::{
    opening_cutoff, reference_columns, DayInput, LoadError, LoadedReferences, RawKind,
    RawReferenceRow, RawSnapshotColumns, RawValue, ReferenceCoverage, ReferenceLoader, RunOutcome,
};

fn day() -> TradingDay {
    TradingDay::from_yyyymmdd(20_260_828).expect("day")
}

fn time(text: &str) -> i64 {
    parse_market_timestamp(day(), text).expect("time")
}

fn request(market: Market, symbol: &str) -> MarketDayRequest {
    MarketDayRequest {
        raw_root: String::new(),
        output_root: String::new(),
        temp_root: String::new(),
        trading_day: day(),
        market,
        targets: TargetUniverse::Symbols(vec![Symbol::from(symbol)]),
        snapshots: None,
        batch_size: 1,
        sz_market_order_policy: SzMarketOrderPolicy::RequireEvidence,
    }
}

fn config(market: Market, symbol: &str) -> ValidationConfig {
    ValidationConfig {
        request: request(market, symbol),
        continuous_lookback: None,
        continuous_lookahead: None,
        retain_matched_records: true,
        max_detail_records: None,
    }
}

fn raw_columns(market: Market) -> Vec<Column> {
    reference_columns(market)
        .into_iter()
        .map(|column| Column {
            name: column.name,
            kind: match column.kind {
                RawKind::Decimal(scale) => ColumnType::Decimal { precision: 18, scale },
                RawKind::Signed => ColumnType::Int64,
                RawKind::Unsigned => ColumnType::UInt32,
            },
            kind_name: "as wanted".to_owned(),
        })
        .collect()
}

/// A reference of an empty book.
fn empty_row(market: Market, symbol: &str, number: u64, text: &str, status: &str) -> RawReferenceRow {
    RawReferenceRow {
        symbol: Some(symbol.to_owned()),
        time: Some(text.to_owned()),
        status: Some(status.to_owned()),
        source_row_no: Some(number),
        missing_reception: false,
        values: reference_columns(market)
            .into_iter()
            .map(|column| match column.kind {
                RawKind::Decimal(_) => RawValue::Decimal(Some(0)),
                RawKind::Signed => RawValue::Signed(Some(0)),
                RawKind::Unsigned => RawValue::Unsigned(Some(0)),
            })
            .collect(),
    }
}

fn load(
    market: Market,
    symbol: &str,
    rows: &[RawReferenceRow],
    pre_open_only: bool,
) -> Result<LoadedReferences, LoadError> {
    let request = request(market, symbol);
    let columns = RawSnapshotColumns::bind(market, &raw_columns(market)).expect("columns");
    let mut loader = ReferenceLoader::new(&request, "file", pre_open_only).expect("loader");
    for (place, row) in rows.iter().enumerate() {
        loader.load(&request.targets, &columns, row, place)?;
    }
    Ok(loader.finish(&request.targets))
}

fn sse_references() -> Vec<RawReferenceRow> {
    [
        ("09:20:00.000", "OCALL"),
        ("09:25:01.000", "TRADE"),
        ("09:31:00.000", "TRADE"),
        ("14:57:00.000", "CCALL"),
        ("15:00:03.000", "CLOSE"),
    ]
    .iter()
    .enumerate()
    .map(|(i, (text, status))| empty_row(Market::Sse, "600000", i as u64 + 1, text, status))
    .collect()
}

fn sse_row(sequence: u64, kind: SseKind, text: &str, status: u8) -> SseRow {
    SseRow {
        source_row: sequence,
        sequence,
        channel: 1,
        symbol: "600000".to_owned(),
        quote_time_ns: time(text),
        local_time_ns: time(text),
        kind,
        buy_order_no: sequence,
        sell_order_no: 0,
        price_units: 100_000,
        quantity: 10,
        flag: Aggressor::Buy,
        status,
    }
}

fn sse_input() -> DayInput {
    DayInput {
        ingest: IngestStats::default(),
        regressions: vec![],
        repairs: vec![],
        channels: vec![ChannelRows {
            channel: 1,
            sse: vec![
                sse_row(1, SseKind::Add, "09:30:00.000", 0),
                sse_row(2, SseKind::Status, "15:00:01.000", 2),
            ],
            sz_orders: vec![],
            sz_executions: vec![],
        }],
    }
}

#[test]
fn a_day_is_validated_from_its_references_to_its_report() {
    let references = load(Market::Sse, "600000", &sse_references(), false).expect("references");
    let report =
        validate_market_day(config(Market::Sse, "600000"), references, sse_input()).expect("report");
    assert_eq!(report.selected_references, 3);
    let outcome = |anchor| {
        report.records.iter().find(|record| record.anchor == anchor).map(|record| record.outcome)
    };
    assert_eq!(outcome(ValidationAnchor::PreOpen), Some(ValidationOutcome::Matched));
    assert_eq!(outcome(ValidationAnchor::ContinuousTrading), Some(ValidationOutcome::Mismatched));
    assert_eq!(outcome(ValidationAnchor::MarketClose), Some(ValidationOutcome::Mismatched));
    assert_eq!(report.run_outcome, RunOutcome::Failed);
    assert_eq!(report.replay.applied_events, 1);
    assert_eq!(report.selection_audit.len(), 1);
    assert_eq!(report.selection_audit[0].coverage, ReferenceCoverage::Selected);
    assert_eq!(report.selection_audit[0].reference_records, 5);
}

#[test]
fn the_open_is_validated_alone() {
    let references = load(Market::Sse, "600000", &sse_references(), true).expect("references");
    let cutoff = opening_cutoff(&references.books, day()).expect("cutoff");
    assert_eq!(cutoff, time("09:25:02.000"));
    let mut input = sse_input();
    input.channels[0].sse.retain(|row| row.quote_time_ns < cutoff);
    input.channels[0].sse.push(sse_row(1, SseKind::Add, "09:25:01.500", 0));
    let report = validate_pre_open_market_day(config(Market::Sse, "600000"), references, input)
        .expect("report");
    assert_eq!(report.selected_references, 1);
    assert_eq!(report.matched, 1);
    assert_eq!(report.run_outcome, RunOutcome::Passed);
}

#[test]
fn without_an_opening_frame_the_cutoff_is_the_open() {
    let references = load(Market::Sse, "600000", &[], true).expect("references");
    assert_eq!(opening_cutoff(&references.books, day()), Ok(time("09:30:00.000")));
}

#[test]
fn a_configuration_that_cannot_be_is_refused_first() {
    let references = load(Market::Sse, "600000", &sse_references(), false).expect("references");
    let mut config = config(Market::Sse, "600000");
    config.continuous_lookback = Some(Duration::from_secs(2));
    assert_eq!(
        validate_market_day(config, references, sse_input()).err(),
        Some(ProductionError::InvalidRequest("continuous lookback cannot exceed 1s".to_owned()))
    );
}

fn sz_order(sequence: u64, side: SzSide) -> SzOrderRow {
    SzOrderRow {
        source_row: sequence,
        sequence,
        channel: 1,
        symbol: "000001".to_owned(),
        quote_time_ns: time("14:56:00.000"),
        local_time_ns: 0,
        price_units: 100_000,
        quantity: 10,
        side,
        kind: SzOrderKind::Limit,
    }
}

fn sz_trade(sequence: u64, text: &str) -> SzExecutionRow {
    SzExecutionRow {
        source_row: sequence,
        sequence,
        channel: 1,
        symbol: "000001".to_owned(),
        quote_time_ns: time(text),
        local_time_ns: 0,
        bid_order_no: 2,
        ask_order_no: 1,
        price_units: 100_000,
        quantity: 1,
        kind: SzExecutionKind::Trade,
    }
}

fn sz_input(second: &str) -> DayInput {
    DayInput {
        ingest: IngestStats::default(),
        regressions: vec![],
        repairs: vec![],
        channels: vec![ChannelRows {
            channel: 1,
            sse: vec![],
            sz_orders: vec![sz_order(1, SzSide::Sell), sz_order(2, SzSide::Buy)],
            sz_executions: vec![sz_trade(3, "14:56:01.100"), sz_trade(4, second)],
        }],
    }
}

#[test]
fn what_an_observer_refuses_ends_the_validation() {
    let run = |second| {
        let references = load(Market::Szse, "000001", &[], false).expect("references");
        validate_market_day(config(Market::Szse, "000001"), references, sz_input(second))
    };
    let report = run("14:56:01.200").expect("in order");
    assert_eq!(report.replay.applied_events, 4);
    assert_eq!(report.run_outcome, RunOutcome::NoEligibleReferences);
    assert!(matches!(run("14:56:01.090").err(), Some(ProductionError::Validation(_))));
    assert!(matches!(
        run("14:56:00.090").err(),
        Some(ProductionError::QuoteTimeRegression { .. })
    ));
}

#[test]
fn twins_are_marked_and_others_are_not() {
    let rows: Vec<RawReferenceRow> = [
        ("09:31:00.000", 1),
        ("09:31:03.000", 2),
        ("09:31:03.000", 3),
        ("09:31:06.000", 4),
    ]
    .iter()
    .map(|(text, number)| empty_row(Market::Sse, "600000", *number, text, "TRADE"))
    .collect();
    let references = load(Market::Sse, "600000", &rows, false).expect("references");
    let frames = &references.books.get("600000").expect("books").continuous_trading;
    let marked: Vec<bool> = frames.iter().map(|frame| frame.load_error.is_some()).collect();
    assert_eq!(marked, [false, true, true, false]);
}

#[test]
fn rows_without_a_key_are_schema_errors() {
    let mut row = empty_row(Market::Sse, "600000", 1, "09:31:00.000", "TRADE");
    row.status = None;
    assert_eq!(
        load(Market::Sse, "600000", &[row], false).err(),
        Some(LoadError::Schema("null snapshot key at batch row 0".to_owned()))
    );
    let mut row = empty_row(Market::Sse, "600000", 1, "9:31", "TRADE");
    row.source_row_no = Some(2);
    assert!(matches!(
        load(Market::Sse, "600000", &[row], false).err(),
        Some(LoadError::Content(_))
    ));
}

#[test]
fn unreadable_frames_are_kept_with_their_error() {
    let mut row = empty_row(Market::Sse, "600000", 1, "09:31:00.000", "TRADE");
    for value in &mut row.values {
        if matches!(value, RawValue::Decimal(_)) {
            *value = RawValue::Decimal(Some(-1));
        }
    }
    let references = load(Market::Sse, "600000", &[row], false).expect("references");
    let frames = &references.books.get("600000").expect("books").continuous_trading;
    assert_eq!(frames.len(), 1);
    assert!(frames[0].view.is_none());
    assert!(frames[0].load_error.is_some());
}

#[test]
fn wanted_symbols_without_rows_are_listed() {
    let references = load(Market::Sse, "600000", &[], false).expect("references");
    assert!(references.books.contains_key("600000"));
    assert_eq!(references.selection_audit.len(), 0);
}

#[test]
fn retention_changes_no_count() {
    let run = |retain, cap| {
        let references = load(Market::Sse, "600000", &sse_references(), false).expect("references");
        let mut config = config(Market::Sse, "600000");
        config.retain_matched_records = retain;
        config.max_detail_records = cap;
        validate_market_day(config, references, sse_input()).expect("report")
    };
    let full = run(true, None);
    assert_eq!((full.records.len(), full.omitted_matched_records), (3, 0));
    let compact = run(false, Some(1));
    assert_eq!(compact.records.len(), 1);
    assert_eq!(compact.omitted_matched_records, 1);
    assert_eq!(compact.omitted_failure_records, 1);
    for report in [&full, &compact] {
        assert_eq!(report.selected_references, 3);
        assert_eq!(report.comparable_references, 3);
        assert_eq!((report.matched, report.mismatched), (1, 2));
        assert_eq!(report.mismatched_symbols, 1);
    }
}

#[test]
fn acceptance_is_by_the_standard_rules() {
    let frames: Vec<RawReferenceRow> = [("09:20:00.000", "O0"), ("09:25:01.000", "B0")]
        .iter()
        .enumerate()
        .map(|(i, (text, status))| empty_row(Market::Szse, "000001", i as u64 + 1, text, status))
        .collect();
    let run = |lookahead, policy| {
        let references = load(Market::Szse, "000001", &frames, true).expect("references");
        let mut config = config(Market::Szse, "000001");
        config.continuous_lookahead = lookahead;
        config.request.sz_market_order_policy = policy;
        let mut input = sz_input("14:56:01.200");
        input.channels[0].sz_executions.clear();
        input.channels[0].sz_orders =
            vec![SzOrderRow { quote_time_ns: time("09:25:01.500"), ..sz_order(1, SzSide::Sell) }];
        validate_pre_open_market_day(config, references, input).expect("report")
    };
    let evidence = SzMarketOrderPolicy::RequireEvidence;
    assert!(run(None, evidence).is_standard_acceptance());
    let overridden = run(Some(Duration::from_secs(1)), evidence);
    assert_eq!(overridden.run_outcome, RunOutcome::Passed);
    assert!(overridden.diagnostic_window_override);
    assert!(!overridden.is_standard_acceptance());
    let inferred = run(None, SzMarketOrderPolicy::RestAtLastTradePrice);
    assert_eq!(inferred.run_outcome, RunOutcome::Passed);
    assert!(!inferred.is_standard_acceptance());
}

#[test]
fn requests_that_cannot_be_served_are_refused() {
    let complaint = Some(ProductionError::InvalidRequest("batch size must be positive".to_owned()));
    let asked = || {
        let mut config = config(Market::Sse, "600000");
        config.request.batch_size = 0;
        config
    };
    let input = sse_input();
    assert_eq!(
        replay_market_day(&asked().request, &input.ingest, vec![], vec![], &input.channels).err(),
        complaint
    );
    assert_eq!(
        replay_market_day(&asked().request, &IngestStats::default(), vec![], vec![], &vec![]).err(),
        complaint
    );
    let references = load(Market::Sse, "600000", &sse_references(), false).expect("references");
    assert_eq!(validate_market_day(asked(), references, input).err(), complaint);
    let references = load(Market::Sse, "600000", &sse_references(), true).expect("references");
    let mut input = sse_input();
    input.channels.clear();
    assert_eq!(validate_pre_open_market_day(asked(), references, input).err(), complaint);
}

#[test]
fn a_replayed_day_keeps_the_balance_of_its_rows() {
    let mut input = sse_input();
    input.ingest.input_rows = 7;
    input.ingest.selected_rows = 2;
    input.ingest.excluded_rows = 5;
    input.ingest.excluded_non_stock_rows = 4;
    input.ingest.excluded_unselected_stock_rows = 1;
    let (report, outputs) = replay_market_day(
        &request(Market::Sse, "600000"),
        &input.ingest,
        vec![],
        vec![],
        &input.channels,
    )
    .expect("report");
    assert_eq!(outputs.len(), 1);
    assert_eq!(report.input_rows, report.selected_rows + report.excluded_rows);
    assert_eq!(
        report.excluded_rows,
        report.excluded_non_stock_rows + report.excluded_unselected_stock_rows
    );
    assert_eq!(report.excluded_after_cutoff_rows, 0);
    assert_eq!(report.sz_market_order_policy, SzMarketOrderPolicy::RequireEvidence);
}
