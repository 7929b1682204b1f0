//! Replay of rows, channels and days.

use qtp_core::market_data::{Market, Side, TradingDay};
use qtp_core::order_book::OrderBook;
use qtp_core::production::input::IngestStats;
use qtp_core::production::{
    parse_market_timestamp, replay_market_day, Aggressor, BookRuntime, BookSnapshot, ChannelRows,
    Disposition, Duration, ErrorModel, MarketDayRequest, NullObserver, ObservationPoint, ProductionError,
    ReplayReport, SequenceRepair, SnapshotKind, SnapshotOutput, SnapshotSchedule, SseKind, SseRow,
    StateObserver, SymbolMap, SzExecutionKind, SzExecutionRow, SzMarketOrderPolicy, SzOrderKind,
    SzOrderRow, SzSide, TargetUniverse,
};
use qtp_core::production::replay::{
    apply_pending_group, collect_pending_group, one_sided_reference, opening_report,
    process_sse_channel, process_sz_channel, process_sz_execution, process_sz_order,
    run_market_day, runtime, same_second_regression_is_allowed, ObservationLog, PendingGroup,
};

fn runtime_request() -> MarketDayRequest {
    MarketDayRequest {
        raw_root: Default::default(),
        output_root: Default::default(),
        temp_root: Default::default(),
        trading_day: TradingDay::from_yyyymmdd(20_260_828).expect("valid test day"),
        market: Market::Szse,
        targets: TargetUniverse::AllStocks,
        snapshots: None,
        batch_size: 1,
        sz_market_order_policy: SzMarketOrderPolicy::RequireEvidence,
    }
}

fn no_output() -> SnapshotOutput {
    SnapshotOutput::new(false)
}

fn pending_order() -> SzOrderRow {
    SzOrderRow {
        source_row: 2,
        sequence: 2,
        channel: 1,
        symbol: "000001".to_owned(),
        quote_time_ns: 100,
        local_time_ns: 200,
        price_units: 123_456,
        quantity: 10,
        side: SzSide::Buy,
        kind: SzOrderKind::Market,
    }
}

fn pending_response(sequence: u64, quantity: u64, cancel: bool) -> SzExecutionRow {
    SzExecutionRow {
        source_row: sequence,
        sequence,
        channel: 1,
        symbol: pending_order().symbol,
        quote_time_ns: 100,
        local_time_ns: 200 + sequence as i64,
        bid_order_no: 2,
        ask_order_no: if cancel { 0 } else { 1 },
        price_units: if cancel { 0 } else { 100_000 },
        quantity,
        kind: if cancel { SzExecutionKind::Cancel } else { SzExecutionKind::Trade },
    }
}

#[derive(Default)]
struct PendingObserver(Vec<(&'static str, u64)>);

impl StateObserver for PendingObserver {
    type Origin = ();

    fn origin(&self) {}

    fn log(&self) -> ObservationLog {
        unreachable!()
    }

    fn ready(&self) -> bool {
        true
    }

    fn refusal(&self) -> Option<ErrorModel> {
        unreachable!()
    }

    fn observe(
        &mut self,
        _: u32,
        _: &str,
        book: &OrderBook,
        point: ObservationPoint,
    ) -> Result<(), ProductionError> {
        let label = match point {
            ObservationPoint::BeforeEvent(_) => "before",
            ObservationPoint::AfterEvent(_) => "after",
            _ => "other",
        };
        self.0.push((label, book.summary().last_raw_sequence.map_or(0, |seq| seq.get())));
        Ok(())
    }

    fn observe_trade_with_sequence(
        &mut self,
        _: u32,
        _: &str,
        sequence: u64,
        _: i64,
        _: i64,
        _: u64,
    ) -> Result<(), ProductionError> {
        self.0.push(("trade", sequence));
        Ok(())
    }
}

#[test]
fn pending_application_keeps_observer_order_and_partial_failure_effects() {
    for fail in [false, true] {
        let request = runtime_request();
        let mut runtimes = SymbolMap::new();
        let runtime = runtime(&request, &mut runtimes, "000001").expect("runtime");
        let mut report = ReplayReport::default();
        let mut maker = pending_order();
        maker.sequence = 1;
        maker.kind = SzOrderKind::Limit;
        maker.side = SzSide::Sell;
        maker.price_units = 100_000;
        process_sz_order(
            &request,
            1,
            &maker,
            runtime,
            false,
            &mut no_output(),
            &mut NullObserver::new(),
            &mut report,
        )
        .expect("maker");
        let mut observer = PendingObserver::default();
        // Bad cancellation exercises an apply failure, independently of collection.
        let group = PendingGroup {
            responses: vec![
                pending_response(3, 4, false),
                pending_response(4, if fail { 5 } else { 6 }, true),
            ],
            disposition: Disposition::Terminal,
        };
        let result = apply_pending_group(
            &request,
            1,
            &pending_order(),
            &group,
            runtime,
            &mut no_output(),
            &mut observer,
            &mut report,
        );
        let summary = runtime.book.summary();
        assert_eq!(summary.statistics.trade_count, 1);
        assert_eq!(summary.statistics.total_quantity, 4);
        assert_eq!(summary.statistics.total_turnover_units, 400_000);
        assert_eq!(summary.last_quote_time.map(|time| time.as_nanos()), Some(100));
        if fail {
            assert!(result
                .expect_err("quantity mismatch")
                .message()
                .contains("does not equal remaining 6"));
            assert_eq!(observer.0, vec![("before", 1)]);
            assert_eq!(summary.last_raw_sequence.map(|seq| seq.get()), Some(3));
            assert_eq!(summary.last_apply_sequence.map(|seq| seq.get()), Some(3));
            assert_eq!(summary.last_local_time.map(|time| time.as_nanos()), Some(203));
            assert_eq!(
                runtime.active_reference_with_remaining(Side::Buy, 2).map(|(_, qty)| qty),
                Some(6)
            );
            assert_eq!(report.applied_events, 3);
            assert_eq!(report.sz_pending_groups, 0);
        } else {
            result.expect("group applied");
            assert_eq!(observer.0, vec![("before", 1), ("trade", 3), ("after", 4)]);
            assert_eq!(summary.last_raw_sequence.map(|seq| seq.get()), Some(4));
            assert_eq!(summary.last_apply_sequence.map(|seq| seq.get()), Some(4));
            assert_eq!(summary.last_local_time.map(|time| time.as_nanos()), Some(204));
            assert!(runtime.active_reference(Side::Buy, 2).is_none());
            assert_eq!(report.applied_events, 4);
            assert_eq!(report.sz_pending_groups, 1);
        }
    }
}

#[test]
fn pending_collection_preserves_unconsumed_error_and_foreign_rows() {
    let row = pending_order();
    for case in 0..7 {
        let mut next = pending_response(3, 10, true);
        let mut order = None;
        match case {
            0 => {
                let mut other = row.clone();
                other.sequence = 3;
                order = Some(other);
            }
            1 => next.sequence = 4,
            2 => next.quote_time_ns += 1,
            3 => next.channel = 2,
            4 => next.symbol = "000002".to_owned(),
            5 => next.quantity = 9,
            _ => next.bid_order_no = 99,
        }
        let executions = vec![next];
        let mut position = 0;
        let error = collect_pending_group(
            SzMarketOrderPolicy::RequireEvidence,
            1,
            &row,
            Some(100_000),
            order.as_ref(),
            &executions,
            &mut position,
        )
        .err()
        .expect("rejected boundary");
        if case == 0 {
            assert!(matches!(error, ProductionError::AmbiguousSequence { sequence: 3, .. }));
        }
        assert_eq!(position, 0, "case {case} must not consume failing/foreign row");
    }
    assert!(collect_pending_group(
        SzMarketOrderPolicy::RequireEvidence,
        1,
        &row,
        Some(100_000),
        None,
        &Vec::new(),
        &mut 0,
    )
    .is_err());
    let executions = vec![pending_response(3, 10, true)];
    let mut position = 0;
    let group = collect_pending_group(
        SzMarketOrderPolicy::RequireEvidence,
        1,
        &row,
        Some(100_000),
        None,
        &executions,
        &mut position,
    )
    .expect("terminal response");
    assert_eq!(group.responses.len(), 1);
    assert_eq!(position, executions.len());
}

fn check_runtime_reuse() {
    let request = runtime_request();
    let mut runtimes: SymbolMap<BookRuntime> = SymbolMap::new();
    let first = runtime(&request, &mut runtimes, "000001").expect("create runtime");
    first.last_business_quote_time_ns = Some(123);
    first.market_close_emitted = true;

    let existing = runtime(&request, &mut runtimes, "000001").expect("reuse runtime");
    assert_eq!(existing.last_business_quote_time_ns, Some(123));
    assert!(existing.market_close_emitted);
    let second = runtime(&request, &mut runtimes, "000002").expect("independent runtime");
    assert_eq!(second.last_business_quote_time_ns, None);
    assert!(!second.market_close_emitted);
    assert_eq!(runtimes.len(), 2);
}

#[test]
fn replay_runtime_reuses_existing_state_and_keeps_symbols_independent() {
    check_runtime_reuse();
}

#[test]
fn tests_runtime_reuses_existing_state_and_keeps_symbols_independent() {
    check_runtime_reuse();
}

fn check_runtime_creation_failure() {
    let mut request = runtime_request();
    let mut runtimes: SymbolMap<BookRuntime> = SymbolMap::new();
    runtime(&request, &mut runtimes, "000001")
        .expect("create runtime")
        .last_business_quote_time_ns = Some(123);
    // Public fields allow this invalid schedule; cursor creation must fail.
    request.snapshots =
        Some(SnapshotSchedule { interval: Duration::from_secs(u64::MAX), depth: 10 });
    assert!(matches!(
        runtime(&request, &mut runtimes, "000002"),
        Err(ProductionError::Arithmetic(_))
    ));
    assert_eq!(runtimes.len(), 1);
    assert!(!runtimes.contains_key("000002"));
    let existing = runtime(&request, &mut runtimes, "000001").expect("reuse runtime");
    assert_eq!(existing.last_business_quote_time_ns, Some(123));
    assert!(existing.cursor.is_none());

    request.snapshots =
        Some(SnapshotSchedule::new(Duration::from_secs(30), 10).expect("valid schedule"));
    assert!(runtime(&request, &mut runtimes, "000002").expect("retry creation").cursor.is_some());
    assert_eq!(runtimes.len(), 2);
}

#[test]
fn replay_runtime_creation_failure_does_not_insert_or_reinitialize_existing_state() {
    check_runtime_creation_failure();
}

#[test]
fn tests_runtime_creation_failure_does_not_insert_or_reinitialize_existing_state() {
    check_runtime_creation_failure();
}

fn check_cancel_lookup() {
    let request = runtime_request();
    let mut runtimes = SymbolMap::new();
    let runtime = runtime(&request, &mut runtimes, "000001").expect("runtime");
    let mut report = ReplayReport::default();
    let row = SzOrderRow {
        source_row: 1,
        sequence: 1,
        channel: 1,
        symbol: "000001".to_owned(),
        quote_time_ns: 100,
        local_time_ns: 200,
        price_units: 100_000,
        quantity: 10,
        side: SzSide::Buy,
        kind: SzOrderKind::Limit,
    };
    process_sz_order(
        &request,
        1,
        &row,
        runtime,
        false,
        &mut no_output(),
        &mut NullObserver::new(),
        &mut report,
    )
    .expect("add");
    let (key, remaining) = runtime.active_reference_with_remaining(Side::Buy, 1).expect("active");
    assert_eq!(remaining, 10);
    assert_eq!(runtime.active_reference(Side::Buy, 1), Some(key));
    let mut cancel = SzExecutionRow {
        source_row: 2,
        sequence: 2,
        channel: 1,
        symbol: row.symbol,
        quote_time_ns: 100,
        local_time_ns: 201,
        bid_order_no: 1,
        ask_order_no: 0,
        price_units: 0,
        quantity: 9,
        kind: SzExecutionKind::Cancel,
    };
    let err = process_sz_execution(
        &request,
        1,
        &cancel,
        runtime,
        &mut no_output(),
        &mut NullObserver::new(),
        &mut report,
    )
    .expect_err("wrong quantity");
    assert!(err.message().contains("cancellation quantity 9 does not equal remaining 10"));
    assert_eq!(runtime.active_reference_with_remaining(Side::Buy, 1), Some((key, 10)));
    cancel.quantity = 10;
    process_sz_execution(
        &request,
        1,
        &cancel,
        runtime,
        &mut no_output(),
        &mut NullObserver::new(),
        &mut report,
    )
    .expect("cancel");
    assert_eq!(runtime.resolve_history(Side::Buy, 1), Some(key));
    assert_eq!(runtime.active_reference_with_remaining(Side::Buy, 1), None);
    for order_no in [1, 999] {
        cancel.bid_order_no = order_no;
        cancel.sequence = 3;
        let err = process_sz_execution(
            &request,
            1,
            &cancel,
            runtime,
            &mut no_output(),
            &mut NullObserver::new(),
            &mut report,
        )
        .expect_err("inactive or missing");
        assert!(err.message().contains("unknown cancellation target"));
    }
    assert_eq!(report.applied_events, 2);
}

#[test]
fn replay_sz_cancel_lookup_retains_unknown_target_errors_and_current_remaining() {
    check_cancel_lookup();
}

#[test]
fn tests_sz_cancel_lookup_retains_unknown_target_errors_and_current_remaining() {
    check_cancel_lookup();
}

fn check_one_sided_reference() {
    assert_eq!(one_sided_reference(10, 0, "000001", 1).ok(), Some((Side::Buy, 10)));
    assert!(one_sided_reference(0, 0, "000001", 1).is_err());
    assert!(one_sided_reference(10, 20, "000001", 1).is_err());
}

#[test]
fn replay_requires_one_cancellation_reference() {
    check_one_sided_reference();
}

#[test]
fn tests_requires_one_cancellation_reference() {
    check_one_sided_reference();
}

fn check_same_second_regressions() {
    let previous = 13 * 3_600_000_000_000 + 10 * 60_000_000_000 + 60_000_000;
    let current = previous - 10_000_000;
    assert!(same_second_regression_is_allowed(previous, current, false));
    assert!(!same_second_regression_is_allowed(previous, current, true));
    assert!(!same_second_regression_is_allowed(
        13 * 3_600_000_000_000,
        13 * 3_600_000_000_000 - 1_000_000,
        false,
    ));
}

#[test]
fn replay_only_unscheduled_same_second_quote_time_regressions_are_allowed() {
    check_same_second_regressions();
}

#[test]
fn tests_only_unscheduled_same_second_quote_time_regressions_are_allowed() {
    check_same_second_regressions();
}

#[derive(Default)]
struct RecordingObserver(Vec<(ObservationPoint, BookSnapshot)>);

impl StateObserver for RecordingObserver {
    type Origin = ();

    fn origin(&self) {}

    fn log(&self) -> ObservationLog {
        unreachable!()
    }

    fn ready(&self) -> bool {
        true
    }

    fn refusal(&self) -> Option<ErrorModel> {
        unreachable!()
    }

    fn observe(
        &mut self,
        channel: u32,
        _symbol: &str,
        book: &OrderBook,
        point: ObservationPoint,
    ) -> Result<(), ProductionError> {
        self.0.push((point, BookSnapshot::capture(book, channel, SnapshotKind::Scheduled, 0, 10)));
        Ok(())
    }

    fn observe_trade_with_sequence(
        &mut self,
        _: u32,
        _: &str,
        _: u64,
        _: i64,
        _: i64,
        _: u64,
    ) -> Result<(), ProductionError> {
        Ok(())
    }
}

fn sse_row(sequence: u64, kind: SseKind, time: &str, status: u8) -> SseRow {
    let time = parse_market_timestamp(runtime_request().trading_day, time).expect("time");
    SseRow {
        source_row: sequence,
        sequence,
        channel: 1,
        symbol: "600000".to_owned(),
        quote_time_ns: time,
        local_time_ns: time + 123,
        kind,
        buy_order_no: sequence,
        sell_order_no: 0,
        price_units: 100_000,
        quantity: 10,
        flag: Aggressor::Buy,
        status,
    }
}

fn replay_sse_rows(
    rows: &[(SseKind, &str, u8)],
) -> (Result<(), ProductionError>, ReplayReport, RecordingObserver) {
    let mut request = runtime_request();
    request.market = Market::Sse;
    let rows: Vec<SseRow> = rows
        .iter()
        .enumerate()
        .map(|(index, &(kind, time, status))| sse_row(index as u64 + 1, kind, time, status))
        .collect();
    let mut report = ReplayReport::default();
    let mut observer = RecordingObserver::default();
    let result = process_sse_channel(&request, 1, &rows, &mut observer, &mut report);
    (result.map(|_| ()), report, observer)
}

fn check_status_only() {
    let (result, report, observer) = replay_sse_rows(&[
        (SseKind::Status, "14:57:01.000", 1),
        (SseKind::Status, "15:00:01.000", 2),
        (SseKind::Status, "15:00:02.000", 2),
    ]);
    result.expect("status-only stream");
    assert_eq!(report.status_events, 3);
    assert_eq!(report.applied_events, 0);
    assert_eq!(report.market_close_snapshots, 1);
    assert_eq!(observer.0.len(), 2);
    assert!(matches!(observer.0[0].0, ObservationPoint::MarketClose(_)));
    assert_eq!(observer.0[1].0, ObservationPoint::ChannelFinished);
    for (_, snapshot) in observer.0 {
        assert_eq!(snapshot.last_quote_time_ns, None);
        assert_eq!(snapshot.last_local_time_ns, None);
        assert!(snapshot.book.bids.is_empty());
    }
}

#[test]
fn replay_sse_status_only_and_repeated_close_do_not_emit_business_observations() {
    check_status_only();
}

#[test]
fn tests_sse_status_only_and_repeated_close_do_not_emit_business_observations() {
    check_status_only();
}

fn check_business_after_close() {
    let (result, report, observer) = replay_sse_rows(&[
        (SseKind::Add, "14:56:00.000", 0),
        (SseKind::Status, "15:00:01.000", 2),
        (SseKind::Add, "15:00:02.000", 0),
    ]);
    assert!(matches!(result, Err(ProductionError::Normalize { sequence: 3, .. })));
    assert_eq!(report.applied_events, 1);
    assert_eq!(observer.0.len(), 3);
    let (point, snapshot) = observer.0.last().expect("close");
    assert!(matches!(point, ObservationPoint::MarketClose(_)));
    assert_eq!(snapshot.book.total_bid_quantity, 10);
    let time =
        parse_market_timestamp(runtime_request().trading_day, "14:56:00.000").expect("time");
    assert_eq!(snapshot.last_quote_time_ns, Some(time));
    assert_eq!(snapshot.last_local_time_ns, Some(time + 123));
}

#[test]
fn replay_sse_business_after_close_is_rejected_before_observation_or_mutation() {
    check_business_after_close();
}

#[test]
fn tests_sse_business_after_close_is_rejected_before_observation_or_mutation() {
    check_business_after_close();
}

fn check_cross_second_regression() {
    let (result, report, observer) = replay_sse_rows(&[
        (SseKind::Add, "14:57:01.000", 0),
        (SseKind::Status, "14:57:02.000", 1),
        (SseKind::Add, "14:57:00.990", 0),
    ]);
    assert!(matches!(result, Err(ProductionError::QuoteTimeRegression { .. })));
    assert_eq!(report.applied_events, 1);
    assert_eq!(observer.0.len(), 2);
    let (point, snapshot) = observer.0.last().expect("last successful event");
    assert!(matches!(point, ObservationPoint::AfterEvent(_)));
    assert_eq!(snapshot.book.total_bid_quantity, 10);
}

#[test]
fn replay_sse_cross_second_business_regression_still_fails_without_mutation() {
    check_cross_second_regression();
}

#[test]
fn tests_sse_cross_second_business_regression_still_fails_without_mutation() {
    check_cross_second_regression();
}

fn sse_day() -> (MarketDayRequest, Vec<ChannelRows>) {
    let mut request = runtime_request();
    request.market = Market::Sse;
    request.snapshots = Some(SnapshotSchedule::new(Duration::from_secs(3_600), 5).expect("schedule"));
    let rows = vec![
        sse_row(1, SseKind::Add, "09:30:00.000", 0),
        sse_row(2, SseKind::Add, "10:15:00.000", 0),
        sse_row(3, SseKind::Status, "15:00:01.000", 2),
    ];
    let channel = ChannelRows { channel: 1, sse: rows, sz_orders: vec![], sz_executions: vec![] };
    (request, vec![channel])
}

#[test]
fn snapshots_hold_what_came_strictly_before_them() {
    let (request, channels) = sse_day();
    let (report, outputs) =
        replay_market_day(&request, &IngestStats::default(), vec![], vec![], &channels)
            .expect("replayed");
    assert_eq!(outputs.len(), 1);
    let rows = &outputs[0].rows;
    let day = request.trading_day;
    for row in rows.iter().filter(|row| row.kind == SnapshotKind::Scheduled) {
        let expected = ["09:30:00.000", "10:15:00.000"]
            .iter()
            .filter(|time| parse_market_timestamp(day, time).unwrap() < row.boundary_time_ns)
            .count() as u64;
        assert_eq!(row.book.total_bid_quantity, 10 * expected, "{}", row.boundary_time_ns);
    }
    let times: Vec<_> = rows
        .iter()
        .filter(|row| row.kind == SnapshotKind::Scheduled)
        .map(|row| row.boundary_time_ns)
        .collect();
    let scheduled = ["10:15:00.000", "11:15:00.000", "14:00:00.000", "15:00:00.000"];
    assert_eq!(times, scheduled.map(|time| parse_market_timestamp(day, time).unwrap()));
    let close: Vec<_> = rows.iter().filter(|row| row.kind == SnapshotKind::MarketClose).collect();
    assert_eq!(close.len(), 1);
    assert_eq!(close[0].book.total_bid_quantity, 20);
    assert_eq!(report.applied_events, 2);
    assert_eq!(report.symbols, 1);
    assert_eq!(report.output_rows as usize, rows.len());
    assert_eq!(report.sz_pending_resolution_version, 1);
}

#[test]
fn a_day_may_be_replayed_in_parts() {
    let (request, channels) = sse_day();
    let whole = |channels: &Vec<ChannelRows>, report: &mut ReplayReport| {
        run_market_day(&request, channels, &mut NullObserver::new(), report, true).expect("replayed")
    };
    let repairs = || {
        vec![SequenceRepair {
            channel: 1,
            stream: "orders".to_owned(),
            rows: 2,
            natural_runs: 2,
            merge_passes: 1,
        }]
    };
    let open = || opening_report(&request, &IngestStats::default(), vec![], repairs());
    let mut other = channels[0].sse.clone();
    for row in &mut other {
        row.symbol = "600001".to_owned();
    }
    let second = ChannelRows { channel: 2, sse: other, sz_orders: vec![], sz_executions: vec![] };
    let both = vec![
        ChannelRows { channel: 1, sse: channels[0].sse.clone(), sz_orders: vec![], sz_executions: vec![] },
        ChannelRows { channel: 2, sse: second.sse.clone(), sz_orders: vec![], sz_executions: vec![] },
    ];
    let mut at_once = open();
    let all = whole(&both, &mut at_once);
    let mut in_parts = open();
    let mut parts = whole(&channels, &mut in_parts);
    parts.extend(whole(&vec![second], &mut in_parts));
    assert_eq!(at_once, in_parts);
    assert_eq!(all.len(), parts.len());
    for (left, right) in all.iter().zip(&parts) {
        assert_eq!(left.rows, right.rows);
    }
}

#[test]
fn observers_change_nothing() {
    let (request, channels) = sse_day();
    let open = || opening_report(&request, &IngestStats::default(), vec![], vec![]);
    let mut unwatched = open();
    let plain =
        run_market_day(&request, &channels, &mut NullObserver::new(), &mut unwatched, true)
            .expect("replayed");
    let mut watched = open();
    let mut observer = RecordingObserver::default();
    let seen = run_market_day(&request, &channels, &mut observer, &mut watched, true)
        .expect("replayed");
    assert!(!observer.0.is_empty());
    assert_eq!(unwatched, watched);
    assert_eq!(plain.len(), seen.len());
    for (left, right) in plain.iter().zip(&seen) {
        assert_eq!(left.rows, right.rows);
    }
    assert!(!watched.sz_phase_source_available);
    assert_eq!(watched.sz_phase_rows, 0);
    assert_eq!(watched.sz_resumption_checkpoints, 0);
    assert_eq!(watched.sz_resumption_rest_orders, 0);
    assert_eq!(watched.sz_market_order_policy, request.sz_market_order_policy);
}

#[test]
fn shenzhen_streams_are_merged_by_sequence() {
    let request = runtime_request();
    let mut buy = pending_order();
    buy.kind = SzOrderKind::Limit;
    buy.price_units = 100_000;
    let mut sell = buy.clone();
    sell.sequence = 1;
    sell.side = SzSide::Sell;
    let orders = vec![sell, buy];
    let executions = vec![pending_response(3, 4, false)];
    let mut report = ReplayReport::default();
    let mut observer = PendingObserver::default();
    let result =
        process_sz_channel(&request, 1, &orders, &executions, &mut observer, &mut report, true);
    assert!(result.is_ok());
    assert_eq!(report.applied_events, 3);
    assert_eq!(report.symbols, 1);
    assert_eq!(
        observer.0.iter().filter(|(label, _)| *label == "trade").collect::<Vec<_>>(),
        [&("trade", 3)]
    );
    let twins = vec![pending_response(2, 4, false)];
    let result = process_sz_channel(
        &request,
        1,
        &orders,
        &twins,
        &mut NullObserver::new(),
        &mut ReplayReport::default(),
        true,
    );
    assert!(matches!(result.err(), Some(ProductionError::AmbiguousSequence { sequence: 2, .. })));
}

/// Refuses what it is shown once it was shown so many things.
struct Refuses(u64);

impl Refuses {
    fn answer(&mut self) -> Result<(), ProductionError> {
        if self.0 == 0 {
            return Err(ProductionError::Validation("enough".to_owned()));
        }
        self.0 -= 1;
        Ok(())
    }
}

impl StateObserver for Refuses {
    type Origin = ();

    fn origin(&self) {}

    fn log(&self) -> ObservationLog {
        unreachable!()
    }

    fn ready(&self) -> bool {
        true
    }

    fn refusal(&self) -> Option<ErrorModel> {
        unreachable!()
    }

    fn observe(
        &mut self,
        _: u32,
        _: &str,
        _: &OrderBook,
        _: ObservationPoint,
    ) -> Result<(), ProductionError> {
        self.answer()
    }

    fn observe_trade_with_sequence(
        &mut self,
        _: u32,
        _: &str,
        _: u64,
        _: i64,
        _: i64,
        _: u64,
    ) -> Result<(), ProductionError> {
        self.answer()
    }
}

#[test]
fn an_observer_may_stop_a_replay() {
    let (request, channels) = sse_day();
    let mut report = ReplayReport::default();
    let result = run_market_day(&request, &channels, &mut Refuses(0), &mut report, true);
    assert_eq!(result.err(), Some(ProductionError::Validation("enough".to_owned())));
    assert_eq!(report.applied_events, 0);
}

#[test]
fn market_orders_rest_or_wait_by_policy() {
    let mut maker = pending_order();
    maker.sequence = 1;
    maker.kind = SzOrderKind::Limit;
    maker.side = SzSide::Sell;
    maker.price_units = 100_000;
    maker.quantity = 4;
    let orders = vec![maker, pending_order()];
    let executions = vec![pending_response(3, 4, false)];
    let run = |policy| {
        let mut request = runtime_request();
        request.sz_market_order_policy = policy;
        let mut report = ReplayReport::default();
        let result = process_sz_channel(
            &request,
            1,
            &orders,
            &executions,
            &mut NullObserver::new(),
            &mut report,
            true,
        );
        (result.map(|_| ()), report)
    };
    let (result, report) = run(SzMarketOrderPolicy::RestAtLastTradePrice);
    assert_eq!(result, Ok(()));
    assert_eq!(report.applied_events, 3);
    let (result, _) = run(SzMarketOrderPolicy::RequireEvidence);
    assert!(matches!(result, Err(ProductionError::UnresolvedSzOrder { order_sequence: 2, .. })));
}

#[test]
fn a_stopped_replay_keeps_the_counts_of_the_point_it_reached() {
    let request = runtime_request();
    let mut buy = pending_order();
    buy.kind = SzOrderKind::Limit;
    buy.price_units = 100_000;
    let mut sell = buy.clone();
    sell.sequence = 1;
    sell.side = SzSide::Sell;
    let orders = vec![sell, buy];
    let executions = vec![pending_response(3, 4, false)];
    // Each order is shown before and after; the trade is shown in between, and is counted
    // only then; so is the close before the end of the channel.
    let counts = [(0, 0), (1, 0), (1, 0), (2, 0), (2, 0), (2, 0), (3, 0), (3, 0), (3, 1)];
    for (shown, (applied, closes)) in counts.into_iter().enumerate() {
        let mut report = ReplayReport::default();
        let result = process_sz_channel(
            &request,
            1,
            &orders,
            &executions,
            &mut Refuses(shown as u64),
            &mut report,
            true,
        );
        assert!(result.is_err(), "after {shown}");
        assert_eq!((report.applied_events, report.market_close_snapshots), (applied, closes));
        assert_eq!(report.symbols, 0);
    }
    let mut report = ReplayReport::default();
    let mut patient = Refuses(9);
    assert!(process_sz_channel(&request, 1, &orders, &executions, &mut patient, &mut report, true)
        .is_ok());
    assert_eq!((patient.0, report.symbols), (0, 1));
}
