//! Validation of replayed books against references.

use qtp_core::market_data::{
    AddOrder, ApplySequence, BookEvent, BookKey, ChannelId, CrossingBehavior, EventMeta,
    LocalTimestampNs, Market, OrderId, OrderKey, Price, PriceScale, PricingInstruction, Quantity,
    QuoteTimestampNs, RawSequence, Side, Symbol, TradingDay,
};
use qtp_core::order_book::{BookConfig, OrderBook};
use qtp_core::production::{
    is_chinext_symbol, is_etf_symbol, parse_market_timestamp, Duration, ObservationPoint,
    ProductionError, ReplayReport, SnapshotBookView, SnapshotLevels, StateObserver, SymbolMap,
    SzMarketOrderPolicy, ValidationAnchor, ValidationOutcome, ValidationRecord, ValidationReport,
};
use qtp_core::production::validation::{
    build_report, compare_candidate, compare_views, published_weighted_price,
    quantize_validation_price, validation_price_quantum, AnchorState, CandidateContext, DayLimits,
    FieldDifference, ReferenceBookView, ReferenceSnapshot, RunOutcome, SymbolReferences,
    ValidationObserver, NO_UPPER_LIMIT,
};

const REFERENCE_MILLISECOND_NS: i64 = 1_000_000;
const REFERENCE_SECOND_NS: i64 = 1_000_000_000;

fn empty_book() -> OrderBook {
    let key = BookKey {
        market: Market::Sse,
        trading_day: TradingDay::from_yyyymmdd(20_260_828).expect("day"),
        symbol: Symbol::from("600000"),
    };
    OrderBook::new(BookConfig::new(key, PriceScale::from_decimal_places(4).expect("scale")))
}

fn add_order(book: &mut OrderBook) {
    let key = OrderKey {
        channel_id: ChannelId::new(1).expect("channel"),
        side: Side::Buy,
        order_id: OrderId::new(1).expect("order"),
    };
    let event = BookEvent::AddOrder(AddOrder {
        meta: EventMeta {
            book_key: book.config().book_key.clone(),
            raw_sequence: RawSequence::new(1).expect("raw"),
            apply_sequence: ApplySequence::new(1).expect("apply"),
            local_time: LocalTimestampNs::from_nanos(11),
            quote_time: QuoteTimestampNs::from_nanos(10),
        },
        order_key: key,
        pricing: PricingInstruction::Provided(Price::from_units(100_000).expect("price")),
        crossing: CrossingBehavior::Rest,
        quantity: Quantity::new(100).expect("quantity"),
    });
    book.apply(event).expect("add");
}

fn populated_book() -> OrderBook {
    let mut book = empty_book();
    add_order(&mut book);
    book
}

fn view_of(book: &OrderBook) -> SnapshotBookView {
    SnapshotBookView::from_book(book, 10)
}

fn timestamp(value: &str) -> i64 {
    parse_market_timestamp(TradingDay::from_yyyymmdd(20_260_828).expect("day"), value).expect("time")
}

fn frame(time_ns: i64, view: &SnapshotBookView) -> ReferenceSnapshot {
    ReferenceSnapshot {
        time_ns,
        view: Some(ReferenceBookView::try_from_view(view).expect("compact")),
        load_error: None,
        source_row_no: 1,
        missing_reception: false,
        pre_close_price_units: None,
        state: AnchorState::default(),
    }
}

fn references(list: Vec<(&str, SymbolReferences)>) -> SymbolMap<SymbolReferences> {
    let mut map = SymbolMap::new();
    for (symbol, references) in list {
        map.insert(symbol, references);
    }
    map
}

fn continuous(symbol: &str, frames: Vec<ReferenceSnapshot>) -> SymbolMap<SymbolReferences> {
    references(vec![(
        symbol,
        SymbolReferences { continuous_trading: frames, ..SymbolReferences::default() },
    )])
}

fn report_of(observer: ValidationObserver, retain: bool) -> ValidationReport {
    build_report(observer, ReplayReport::default(), retain).expect("report")
}

fn record_of(report: &ValidationReport, anchor: ValidationAnchor) -> Option<&ValidationRecord> {
    report.records.iter().find(|record| record.anchor == anchor)
}

fn limits(values: (i64, i64), source: &str) -> DayLimits {
    DayLimits {
        values: Some(values),
        source: source.to_owned(),
        error: None,
        upper_limit_normalization: None,
    }
}

#[test]
fn borrowed_symbol_entries_keep_independent_limits_and_trade_audit() {
    let mut observer = ValidationObserver::new(Market::Szse, SymbolMap::new());
    let mut all = SymbolMap::new();
    all.insert("000001", limits((120000, 80000), "first"));
    all.insert("000002", limits((240000, 160000), "second"));
    observer.set_close_limits(all);
    for _ in 0..100 {
        assert!(!observer.symbol_state_mut("000001").seen);
    }
    assert_eq!(observer.symbols.len(), 2);
    for (symbol, seq, price) in [("000001", 7, 100000), ("000002", 11, 200000)] {
        observer.observe_trade(symbol, timestamp("14:55:00.000"), price, 10).expect("trade");
        observer
            .observe_trade_with_sequence(1, symbol, seq, timestamp("14:56:00.000"), price, 10)
            .expect("sequence");
        observer
            .observe_trade_with_sequence(
                1,
                symbol,
                seq + 1,
                timestamp("15:00:00.000"),
                price + 100,
                10,
            )
            .expect("close");
        let state = observer.symbols.get(symbol).expect("state");
        let tracker = state.close_price.as_ref().expect("tracker");
        let base = tracker.range_base().expect("base");
        assert_eq!(base.raw_sequence, Some(seq));
        assert_eq!(base.price, price);
        assert!(tracker.has_closing_auction_trade());
    }
    assert_eq!(observer.symbols.len(), 2);
    for (symbol, source) in [("000001", "first"), ("000002", "second")] {
        let state = observer.symbols.get(symbol).expect("state");
        assert_eq!(state.limits.as_ref().expect("limits").source, source);
    }
}

#[test]
fn e0_projection_is_deterministic_and_never_filters_reference_or_mutates_book() {
    for case in [
        "matched",
        "reference_outside",
        "missing_base",
        "missing_metadata",
        "conflict",
        "etf",
    ] {
        let symbol = if case == "etf" { "159001" } else { "000001" };
        let book = populated_book();
        let before = book.summary();
        let full = view_of(&book);
        let mut expected = full.clone();
        if case != "reference_outside" && case != "etf" {
            expected.bids = SnapshotLevels::new();
            expected.total_bid_quantity = 0;
            expected.weighted_bid_price_units = None;
        }
        let refs = references(vec![(
            symbol,
            SymbolReferences {
                market_close: Some(frame(timestamp("15:00:00.000"), &expected)),
                ..SymbolReferences::default()
            },
        )]);
        let mut observer = ValidationObserver::new(Market::Szse, refs);
        if case != "missing_metadata" {
            let mut limits = DayLimits::default();
            limits.observe(Ok((NO_UPPER_LIMIT, 100)), "row1".to_owned());
            if case == "conflict" {
                limits.observe(Ok((120000, 80000)), "row2".to_owned());
            }
            observer.symbol_state_mut(symbol).limits = Some(limits);
        }
        if case != "missing_base" {
            observer
                .observe_trade_with_sequence(1, symbol, 7, timestamp("14:56:59.990"), 1000, 10)
                .expect("trade");
            // The final trade must not reset the independently frozen range.
            observer
                .observe_trade_with_sequence(1, symbol, 8, timestamp("15:00:00.000"), 2000, 10)
                .expect("trade");
        }
        observer
            .observe(
                1,
                symbol,
                &book,
                ObservationPoint::MarketClose(timestamp("15:00:00.000")),
            )
            .expect("close");
        assert_eq!(
            observer
                .symbols
                .get(symbol)
                .expect("state")
                .references
                .market_close
                .as_ref()
                .expect("reference")
                .view,
            Some(ReferenceBookView::try_from_view(&expected).expect("compact"))
        );
        let report = report_of(observer, true);
        let close = record_of(&report, ValidationAnchor::MarketClose).expect("close");
        let outcome = match case {
            "matched" | "etf" => ValidationOutcome::Matched,
            "reference_outside" => ValidationOutcome::Mismatched,
            _ => ValidationOutcome::DataError,
        };
        assert_eq!(close.outcome, outcome, "{case}");
        if case == "matched" || case == "reference_outside" {
            let band = close.close_price_band.as_ref().expect("rule context even on mismatch");
            assert_eq!(band.base_price_units, 1000);
            assert_eq!(band.base_raw_sequence, 7);
        } else {
            assert!(close.close_price_band.is_none());
        }
        assert_eq!(book.summary(), before);
        assert_eq!(view_of(&book), full);
    }
}

fn sz_close_references(
    symbol: &str,
    last_price_units: i64,
    pre_close_price_units: i64,
) -> SymbolMap<SymbolReferences> {
    let mut view = view_of(&empty_book());
    view.last_price_units = Some(last_price_units);
    let mut close = frame(timestamp("15:00:00.000"), &view);
    close.pre_close_price_units = Some(pre_close_price_units);
    references(vec![(
        symbol,
        SymbolReferences {
            pre_open: None,
            continuous_trading: Vec::new(),
            market_close: Some(close),
        },
    )])
}

/// A book after so many orders on alternating sides.
fn book_after(orders: u64) -> OrderBook {
    let mut book = empty_book();
    for seq in 1..=orders {
        book.apply(BookEvent::AddOrder(AddOrder {
            meta: EventMeta {
                book_key: book.config().book_key.clone(),
                raw_sequence: RawSequence::new(seq).expect("raw"),
                apply_sequence: ApplySequence::new(seq).expect("apply"),
                local_time: LocalTimestampNs::from_nanos(seq as i64),
                quote_time: QuoteTimestampNs::from_nanos(seq as i64),
            },
            order_key: OrderKey {
                channel_id: ChannelId::new(1).expect("channel"),
                side: if seq % 2 == 0 { Side::Buy } else { Side::Sell },
                order_id: OrderId::new(seq).expect("id"),
            },
            pricing: PricingInstruction::Provided(
                Price::from_units(100_000 + seq as i64 * 100).expect("price"),
            ),
            crossing: CrossingBehavior::Rest,
            quantity: Quantity::new(seq * 100).expect("qty"),
        }))
        .expect("apply");
    }
    book
}

fn published_view(book: &OrderBook, market: Market) -> SnapshotBookView {
    let mut view = view_of(book);
    view.weighted_bid_price_units =
        published_weighted_price(book, Side::Buy, market, "600000").expect("bid");
    view.weighted_ask_price_units =
        published_weighted_price(book, Side::Sell, market, "600000").expect("ask");
    view
}

#[test]
fn scalar_pruning_preserves_first_match_and_best_difference_context() {
    let candidates: Vec<OrderBook> = (0..=24).map(book_after).collect();
    for market in [Market::Sse, Market::Szse] {
        for missing_match in [false, true] {
            let mut expected = published_view(&candidates[12], market);
            if missing_match {
                expected.trade_count = 1;
            }
            let mut observer =
                ValidationObserver::new(market, continuous("600000", vec![frame(10, &expected)]));
            let mut best: Option<Vec<FieldDifference>> = None;
            let mut best_time = None;
            let mut matched_time = None;
            for (i, candidate) in candidates.iter().chain(candidates.iter().rev()).enumerate() {
                let time = i as i64;
                if matched_time.is_none() {
                    let actual = published_view(candidate, market);
                    let diffs = compare_views(market, "600000", &expected, &actual);
                    if diffs.is_empty() {
                        matched_time = Some(time);
                        best = None;
                    } else if best.as_ref().is_none_or(|b| diffs.len() < b.len()) {
                        best = Some(diffs);
                        best_time = Some(time);
                    }
                }
                let rules = observer.rules_for("600000");
                let state = observer.symbols.get_mut("600000");
                compare_candidate(
                    CandidateContext {
                        market,
                        rules,
                        symbol: "600000",
                        book: candidate,
                        limits: state.limits.as_ref(),
                        close_price: state.close_price.as_ref(),
                    },
                    &mut state.references.continuous_trading[0],
                    &mut state.cache,
                    ValidationAnchor::ContinuousTrading,
                    Some(time),
                )
                .expect("compare");
                let state = observer
                    .anchor_state("600000", ValidationAnchor::ContinuousTrading, 10)
                    .expect("state");
                assert_eq!(state.matched_candidate_time_ns, matched_time);
                assert_eq!(state.best_candidate_time_ns, best_time);
                assert_eq!(state.best_differences.as_ref(), best.as_ref());
                if state.matched {
                    assert!(state.comparison_error.is_none());
                    assert!(state.close_price_band.is_none());
                    assert!(state.best_differences.is_none());
                    assert!(state.turnover_precision.is_none());
                }
            }
        }
    }
}

#[test]
fn pre_open_accepts_a_state_inside_the_reference_second() {
    let expected = view_of(&populated_book());
    let opening = || {
        references(vec![(
            "600000",
            SymbolReferences {
                pre_open: Some(frame(10_000_000, &expected)),
                continuous_trading: Vec::new(),
                market_close: None,
            },
        )])
    };
    let mut observer = ValidationObserver::new(Market::Sse, opening());
    let mut actual = empty_book();
    assert!(observer
        .observe(1, "600000", &actual, ObservationPoint::BeforeEvent(10_000_000))
        .is_ok());
    add_order(&mut actual);
    assert!(observer
        .observe(1, "600000", &actual, ObservationPoint::AfterEvent(170_000_000))
        .is_ok());
    let report = report_of(observer, true);
    let pre_open = record_of(&report, ValidationAnchor::PreOpen);
    assert!(matches!(
        pre_open,
        Some(record) if record.outcome == ValidationOutcome::Matched
            && record.matched_candidate_time_ms == Some(170)
    ));
    assert_eq!(report.matched, 1);
    assert_eq!(report.mismatched, 0);
    assert_eq!(report.missing_source, 0);
    assert_eq!(report.selected_references, 1);
    assert_eq!(report.matched, report.comparable_references);

    let mut compact = ValidationObserver::new(Market::Sse, opening());
    assert!(compact
        .observe(1, "600000", &actual, ObservationPoint::AfterEvent(170_000_000))
        .is_ok());
    let compact_report = report_of(compact, false);
    assert_eq!(compact_report.omitted_matched_records, 1);
    assert_eq!(compact_report.records.len(), 0);
    assert!(compact_report
        .records
        .iter()
        .all(|record| record.outcome != ValidationOutcome::Matched));
    assert_eq!(
        compact_report.breakdown.get("stock.pre_open").map(|counts| counts.matched),
        Some(1)
    );
}

#[test]
fn continuous_anchor_accepts_any_state_inside_the_reference_second() {
    let expected = view_of(&populated_book());
    let reference_time = 10_000_000_000;
    let refs = continuous("600000", vec![frame(reference_time, &expected)]);
    let mut observer = ValidationObserver::new(Market::Sse, refs);
    let mut actual = empty_book();
    assert!(observer
        .observe(1, "600000", &actual, ObservationPoint::BeforeEvent(reference_time))
        .is_ok());
    add_order(&mut actual);
    assert!(observer
        .observe(
            1,
            "600000",
            &actual,
            ObservationPoint::AfterEvent(reference_time + 999_000_000),
        )
        .is_ok());

    let report = report_of(observer, true);
    assert!(matches!(
        record_of(&report, ValidationAnchor::ContinuousTrading),
        Some(record) if record.outcome == ValidationOutcome::Matched
            && record.matched_candidate_time_ms == Some(10_999)
    ));
}

#[test]
fn old_and_assumed_market_order_reports_are_not_standard_acceptance() {
    let observer = ValidationObserver::new(Market::Szse, SymbolMap::new());
    let mut report = report_of(observer, true);
    report.run_outcome = RunOutcome::Passed;
    report.selected_references = 1;
    report.comparable_references = 1;
    report.matched = 1;
    report.omitted_matched_records = 1;
    assert!(report.is_success());
    assert!(!report.is_standard_acceptance());
    report.replay.sz_pending_resolution_version = 1;
    assert!(report.is_standard_acceptance());
    report.replay.sz_market_order_policy = SzMarketOrderPolicy::AssumeContiguous;
    assert!(!report.is_standard_acceptance());
    report.replay.sz_market_order_policy = SzMarketOrderPolicy::RestAtLastTradePrice;
    assert!(report.is_success());
    assert!(!report.is_standard_acceptance());
}

#[test]
fn missing_historical_policy_does_not_imply_practical_replay() {
    let report = ReplayReport::default();
    assert_eq!(report.sz_pending_resolution_version, 0);
    assert_eq!(report.sz_market_order_policy, SzMarketOrderPolicy::RequireEvidence);
}

/// Shows an empty book half a second before a reference, and a populated one a second after.
fn shown_around(
    observer: ValidationObserver,
    symbol: &str,
    reference_time: i64,
) -> ValidationReport {
    let mut observer = observer;
    let mut actual = empty_book();
    assert!(observer
        .observe(
            1,
            symbol,
            &actual,
            ObservationPoint::BeforeEvent(reference_time - 500_000_000),
        )
        .is_ok());
    add_order(&mut actual);
    assert!(observer
        .observe(
            1,
            symbol,
            &actual,
            ObservationPoint::BeforeEvent(reference_time + 1_000_000_000),
        )
        .is_ok());
    report_of(observer, true)
}

#[test]
fn sse_continuous_anchor_accepts_a_state_from_the_previous_second() {
    let reference_time = 10_000_000_000;
    let refs = continuous("600000", vec![frame(reference_time, &view_of(&empty_book()))]);
    let observer = ValidationObserver::new(Market::Sse, refs);
    let report = shown_around(observer, "600000", reference_time);
    assert!(matches!(
        record_of(&report, ValidationAnchor::ContinuousTrading),
        Some(record) if record.outcome == ValidationOutcome::Matched
            && record.matched_candidate_time_ms == Some(9_500)
    ));
}

#[test]
fn sz_continuous_anchor_does_not_use_the_previous_second() {
    let reference_time = 10_000_000_000;
    let refs = continuous("000001", vec![frame(reference_time, &view_of(&empty_book()))]);
    let observer = ValidationObserver::new(Market::Szse, refs);
    let report = shown_around(observer, "000001", reference_time);
    assert!(matches!(
        record_of(&report, ValidationAnchor::ContinuousTrading),
        Some(record) if record.outcome == ValidationOutcome::Mismatched
            && record.matched_candidate_time_ms.is_none()
    ));
}

#[test]
fn configured_sz_lookback_accepts_a_state_from_the_previous_second() {
    let reference_time = 10_000_000_000;
    let refs = continuous("000001", vec![frame(reference_time, &view_of(&empty_book()))]);
    let observer = ValidationObserver::new(Market::Szse, refs)
        .with_continuous_lookback(Some(Duration::from_secs(1)))
        .expect("lookback");
    let report = shown_around(observer, "000001", reference_time);
    assert!(matches!(
        record_of(&report, ValidationAnchor::ContinuousTrading),
        Some(record) if record.outcome == ValidationOutcome::Matched
            && record.matched_candidate_time_ms == Some(9_500)
    ));
    assert_eq!(report.continuous_lookback_ms, 1_000);
}

#[test]
fn configured_sz_lookahead_accepts_a_state_later_in_the_three_second_frame() {
    let expected = view_of(&populated_book());
    let reference_time = 10_000_000_000;
    let refs = continuous("300001", vec![frame(reference_time, &expected)]);
    let mut observer = ValidationObserver::new(Market::Szse, refs)
        .with_continuous_lookahead(Some(Duration::from_secs(3)))
        .expect("lookahead");
    let actual = populated_book();
    assert!(observer
        .observe(
            1,
            "300001",
            &actual,
            ObservationPoint::AfterEvent(reference_time + 2_500_000_000),
        )
        .is_ok());

    let report = report_of(observer, true);
    assert!(matches!(
        record_of(&report, ValidationAnchor::ContinuousTrading),
        Some(record) if record.outcome == ValidationOutcome::Matched
            && record.matched_candidate_time_ms == Some(12_500)
    ));
    assert_eq!(report.continuous_lookahead_ms, 3_000);
}

#[test]
fn mixed_sz_universe_automatically_uses_board_specific_windows_and_audits_sequence() {
    let expected_book = populated_book();
    let expected = view_of(&expected_book);
    let symbols = ["000001", "159501", "300001", "301001", "302132"];
    let refs = references(
        symbols
            .into_iter()
            .map(|symbol| {
                (
                    symbol,
                    SymbolReferences {
                        continuous_trading: vec![frame(10_000_000_000, &expected)],
                        ..SymbolReferences::default()
                    },
                )
            })
            .collect(),
    );
    let mut observer = ValidationObserver::new(Market::Szse, refs);
    for symbol in symbols {
        observer
            .observe(1, symbol, &empty_book(), ObservationPoint::BeforeEvent(12_000_000_000))
            .expect("before");
        observer
            .observe(1, symbol, &expected_book, ObservationPoint::AfterEvent(12_000_000_000))
            .expect("after");
    }
    let report = report_of(observer, true);
    assert!(!report.diagnostic_window_override);
    for record in
        report.records.iter().filter(|r| r.anchor == ValidationAnchor::ContinuousTrading)
    {
        let chinext = is_chinext_symbol(&record.symbol);
        assert_eq!(
            record.outcome,
            if chinext { ValidationOutcome::Matched } else { ValidationOutcome::Mismatched }
        );
        assert_eq!(
            report.continuous_lookahead_ms_by_symbol.get(&record.symbol),
            Some(if chinext {
                &3000
            } else if is_etf_symbol(Market::Szse, &record.symbol) {
                &1100
            } else {
                &1000
            })
        );
        if chinext {
            assert_eq!(record.matched_candidate_time_ms, Some(12000));
            assert_eq!(
                record.matched_candidate_raw_sequence,
                expected_book.last_applied_meta().map(|m| m.raw_sequence.get())
            );
            assert_eq!(record.channel_id, Some(1));
        }
    }
}

#[test]
fn sz_etf_default_window_accepts_1099ms_but_excludes_1100ms_events() {
    for offset_ms in [0, 999, 1000, 1040, 1099, 1100, 1101] {
        let mut actual = empty_book();
        let expected = view_of(&populated_book());
        let reference_time = 10 * REFERENCE_SECOND_NS;
        let refs = references(vec![(
            "159501",
            SymbolReferences {
                pre_open: Some(frame(reference_time, &expected)),
                continuous_trading: vec![frame(reference_time, &expected)],
                market_close: None,
            },
        )]);
        let mut observer = ValidationObserver::new(Market::Szse, refs);
        let event_time = reference_time + offset_ms * REFERENCE_MILLISECOND_NS;
        observer
            .observe(1, "159501", &actual, ObservationPoint::BeforeEvent(event_time))
            .expect("before");
        add_order(&mut actual);
        observer
            .observe(1, "159501", &actual, ObservationPoint::AfterEvent(event_time))
            .expect("after");
        let report = report_of(observer, true);
        assert!(!report.diagnostic_window_override);
        assert_eq!(report.continuous_lookback_ms, 0);
        assert_eq!(report.continuous_lookahead_ms_by_symbol.get("159501"), Some(&1100));
        for (anchor, end_ms) in [
            (ValidationAnchor::ContinuousTrading, 1100),
            (ValidationAnchor::PreOpen, 1000),
        ] {
            let record = record_of(&report, anchor).expect("record");
            assert_eq!(
                record.outcome,
                if offset_ms < end_ms {
                    ValidationOutcome::Matched
                } else {
                    ValidationOutcome::Mismatched
                },
                "{anchor:?}, offset={offset_ms}"
            );
        }
    }
}

#[test]
fn cached_rules_follow_overrides_and_initialize_replay_only_symbols() {
    for (market, symbols) in [
        (Market::Sse, vec!["600000", "510300"]),
        (Market::Szse, vec!["000001", "159915", "300001"]),
    ] {
        let mut observer = ValidationObserver::new(market, SymbolMap::new());
        for symbol in &symbols {
            observer.symbol_state_mut(symbol); // Also covers limits/trades before observation.
            assert!(observer.symbols.get(symbol).expect("state").rules.is_none());
        }
        for configured_ms in [None, Some(2500), Some(1000)] {
            if let Some(ms) = configured_ms {
                observer = observer
                    .with_continuous_lookahead(Some(Duration::from_millis(ms)))
                    .expect("lookahead");
                assert!(symbols
                    .iter()
                    .all(|symbol| observer.symbols.get(symbol).expect("state").rules.is_none()));
            }
            for symbol in &symbols {
                let expected_lookahead = observer.lookahead_ns(symbol);
                let book = empty_book();
                observer
                    .observe(1, symbol, &book, ObservationPoint::BeforeEvent(10))
                    .expect("before");
                let rules = observer.symbols.get(symbol).expect("state").rules.expect("rules");
                assert_eq!(rules.lookahead_ns, expected_lookahead);
                assert_eq!(rules.price_quantum, validation_price_quantum(market, symbol));
                assert_eq!(rules.is_etf, is_etf_symbol(market, symbol));
                observer
                    .observe(1, symbol, &book, ObservationPoint::AfterEvent(10))
                    .expect("after");
                assert_eq!(observer.symbols.get(symbol).expect("state").rules, Some(rules));
            }
        }
    }
}

#[test]
fn explicit_horizon_overrides_sz_etf_default_but_not_other_market_defaults() {
    let default = ValidationObserver::new(Market::Szse, SymbolMap::new());
    for (symbol, millis) in [("000001", 1000), ("159501", 1100), ("300001", 3000)] {
        assert_eq!(default.lookahead_ns(symbol), millis * REFERENCE_MILLISECOND_NS);
    }
    for millis in [1000, 1100, 3000] {
        let observer = ValidationObserver::new(Market::Szse, SymbolMap::new())
            .with_continuous_lookahead(Some(Duration::from_millis(millis)))
            .expect("lookahead");
        assert!(observer.diagnostic_window_override);
        for symbol in ["000001", "159501", "300001"] {
            assert_eq!(
                observer.lookahead_ns(symbol),
                i64::try_from(millis).expect("millis") * REFERENCE_MILLISECOND_NS
            );
        }
    }
    let sh = ValidationObserver::new(Market::Sse, SymbolMap::new());
    for symbol in ["600000", "510300"] {
        assert_eq!(sh.lookahead_ns(symbol), REFERENCE_SECOND_NS);
    }
}

#[test]
fn overlapping_windows_do_not_block_a_later_matching_frame() {
    let refs = continuous(
        "600000",
        vec![
            frame(10_000_000_000, &view_of(&populated_book())),
            frame(11_000_000_000, &view_of(&empty_book())),
        ],
    );
    let mut observer = ValidationObserver::new(Market::Sse, refs);
    observer
        .observe(1, "600000", &empty_book(), ObservationPoint::AfterEvent(10_500_000_000))
        .expect("observed");
    let report = report_of(observer, true);
    let later = report.records.iter().find(|r| r.reference_time_ms == 11_000);
    assert!(
        matches!(later, Some(record) if record.outcome == ValidationOutcome::Matched
        && record.matched_candidate_time_ms == Some(10_500))
    );
}

#[test]
fn continuous_lookahead_rejects_overlapping_reference_frames() {
    let result = ValidationObserver::new(Market::Szse, SymbolMap::new())
        .with_continuous_lookahead(Some(Duration::from_millis(3_001)));
    assert!(matches!(result, Err(ProductionError::InvalidRequest(_))));
}

#[test]
fn detail_cap_preserves_aggregate_mismatch_and_symbol_counts() {
    let expected = view_of(&populated_book());
    let empty = view_of(&empty_book());
    let refs = references(vec![(
        "600000",
        SymbolReferences {
            pre_open: Some(frame(0, &empty)),
            continuous_trading: vec![
                frame(10_000_000_000, &expected),
                frame(12_000_000_000, &expected),
            ],
            market_close: Some(frame(14_000_000_000, &empty)),
        },
    )]);
    let mut observer =
        ValidationObserver::new(Market::Sse, refs).with_max_detail_records(Some(1));
    assert!(observer
        .observe(1, "600000", &empty_book(), ObservationPoint::BeforeEvent(14_000_000_000))
        .is_ok());

    assert!(observer
        .observe(1, "600000", &empty_book(), ObservationPoint::MarketClose(14_000_000_000))
        .is_ok());
    let report = report_of(observer, false);
    assert_eq!(report.mismatched, 2);
    assert_eq!(report.records.len(), 1);
    assert_eq!(report.omitted_failure_records, 1);
    assert_eq!(report.mismatched_symbols, 1);
    assert_eq!(report.mismatch_symbol_prefixes.get("600"), Some(1));
}

#[test]
fn mixed_detail_caps_preserve_existing_order_dependent_retention() {
    for retain_matches in [false, true] {
        for cap in [0, 1, 2] {
            let reference = |row: i64, matched| ReferenceSnapshot {
                time_ns: row * 1_000_000_000,
                source_row_no: row as u64,
                view: None,
                load_error: None,
                missing_reception: false,
                pre_close_price_units: None,
                state: AnchorState { matched, ..Default::default() },
            };
            let mut observer = ValidationObserver::new(
                Market::Sse,
                references(vec![(
                    "600000",
                    SymbolReferences {
                        pre_open: Some(reference(1, true)),
                        continuous_trading: vec![reference(2, false)],
                        market_close: Some(reference(3, true)),
                    },
                )]),
            )
            .with_max_detail_records(Some(cap));
            observer.symbol_state_mut("600000").seen = true;
            let report = report_of(observer, retain_matches);
            assert_eq!(
                (report.selected_references, report.matched, report.mismatched),
                (3, 2, 1)
            );
            let kept_failure = usize::from(cap > usize::from(retain_matches));
            assert_eq!(report.records.len(), 2 * usize::from(retain_matches) + kept_failure);
            assert_eq!(report.omitted_failure_records, 1 - kept_failure as u64);
            assert_eq!(report.omitted_matched_records, if retain_matches { 0 } else { 2 });
        }
    }
}

#[test]
fn validates_every_continuous_trading_reference_frame() {
    let book = populated_book();
    let expected = view_of(&book);
    let first_time = 10_000_000_000;
    let second_time = 12_000_000_000;
    let refs =
        continuous("600000", vec![frame(first_time, &expected), frame(second_time, &expected)]);
    let mut observer = ValidationObserver::new(Market::Sse, refs);
    assert!(observer
        .observe(1, "600000", &book, ObservationPoint::BeforeEvent(first_time))
        .is_ok());
    assert!(observer
        .observe(1, "600000", &book, ObservationPoint::BeforeEvent(second_time))
        .is_ok());

    let report = report_of(observer, true);
    let continuous = report
        .records
        .iter()
        .filter(|record| record.anchor == ValidationAnchor::ContinuousTrading)
        .collect::<Vec<_>>();
    assert_eq!(continuous.len(), 2);
    assert!(continuous.iter().all(|record| record.outcome == ValidationOutcome::Matched));
    assert_eq!(continuous[0].reference_time_ms, 10_000);
    assert_eq!(continuous[1].reference_time_ms, 12_000);
}

#[test]
fn continuous_anchor_excludes_events_at_the_next_second() {
    let expected = view_of(&populated_book());
    let reference_time = 10_000_000_000;
    let refs = continuous("600000", vec![frame(reference_time, &expected)]);
    let mut observer = ValidationObserver::new(Market::Sse, refs);
    let mut actual = empty_book();
    let next_second = reference_time + 1_000_000_000;
    assert!(observer
        .observe(1, "600000", &actual, ObservationPoint::BeforeEvent(next_second))
        .is_ok());
    add_order(&mut actual);
    assert!(observer
        .observe(1, "600000", &actual, ObservationPoint::AfterEvent(next_second))
        .is_ok());

    let report = report_of(observer, true);
    assert!(matches!(
        record_of(&report, ValidationAnchor::ContinuousTrading),
        Some(record) if record.outcome == ValidationOutcome::Mismatched
            && record.matched_candidate_time_ms.is_none()
    ));
}

fn closed(mut observer: ValidationObserver, symbol: &str) -> ValidationReport {
    assert!(observer
        .observe(
            1,
            symbol,
            &empty_book(),
            ObservationPoint::MarketClose(timestamp("15:00:00.000")),
        )
        .is_ok());
    report_of(observer, true)
}

#[test]
fn shenzhen_e0_accepts_verified_one_minute_average_close_price() {
    let symbol = "159001";
    let refs = sz_close_references(symbol, 10_010, 9_900);
    let mut observer = ValidationObserver::new(Market::Szse, refs);
    assert!(observer.observe_trade(symbol, timestamp("14:55:30.000"), 10_000, 100).is_ok());
    assert!(observer.observe_trade(symbol, timestamp("14:56:00.000"), 10_020, 100).is_ok());
    let report = closed(observer, symbol);
    assert!(matches!(
        record_of(&report, ValidationAnchor::MarketClose),
        Some(record) if record.outcome == ValidationOutcome::Matched
            && record.match_tag.as_deref() == Some("SZ_ETF_AVG_CLOSE_PRICE")
    ));
    assert_eq!(report.match_tags.get("SZ_ETF_AVG_CLOSE_PRICE"), Some(1));
}

#[test]
fn shenzhen_stock_average_close_uses_the_stock_price_quantum() {
    let symbol = "000001";
    let refs = sz_close_references(symbol, 10_000, 9_900);
    let mut observer = ValidationObserver::new(Market::Szse, refs);
    observer.symbol_state_mut(symbol).limits =
        Some(limits((200_000, 100), "synthetic limited stock"));
    assert!(observer.observe_trade(symbol, timestamp("14:55:30.000"), 10_000, 100).is_ok());
    assert!(observer.observe_trade(symbol, timestamp("14:56:00.000"), 10_060, 100).is_ok());
    let report = closed(observer, symbol);
    assert!(matches!(
        record_of(&report, ValidationAnchor::MarketClose),
        Some(record) if record.outcome == ValidationOutcome::Matched
            && record.match_tag.as_deref() == Some("SZ_STOCK_AVG_CLOSE_PRICE")
    ));
}

#[test]
fn shenzhen_e0_uses_previous_close_when_the_day_has_no_trade() {
    let symbol = "000001";
    let refs = sz_close_references(symbol, 123_400, 123_400);
    let mut observer = ValidationObserver::new(Market::Szse, refs);
    observer.symbol_state_mut(symbol).limits =
        Some(limits((200_000, 100), "synthetic limited stock"));
    let report = closed(observer, symbol);
    assert!(matches!(
        record_of(&report, ValidationAnchor::MarketClose),
        Some(record) if record.outcome == ValidationOutcome::Matched
            && record.match_tag.as_deref() == Some("SZ_STOCK_PRE_CLOSE_PRICE")
    ));
}

#[test]
fn shenzhen_e0_does_not_replace_a_closing_auction_price() {
    let symbol = "159001";
    let refs = sz_close_references(symbol, 10_010, 9_900);
    let mut observer = ValidationObserver::new(Market::Szse, refs);
    assert!(observer.observe_trade(symbol, timestamp("14:57:00.000"), 10_000, 100).is_ok());
    let report = closed(observer, symbol);
    assert!(matches!(
        record_of(&report, ValidationAnchor::MarketClose),
        Some(record) if record.outcome == ValidationOutcome::Mismatched
            && record.match_tag.is_none()
    ));
    assert!(report.match_tags.entries().is_empty());
}

#[test]
fn no_selected_references_has_no_virtual_results_and_version_is_strict() {
    let refs = references(vec![("000635", SymbolReferences::default())]);
    let report = report_of(ValidationObserver::new(Market::Szse, refs), true);
    assert_eq!(report.selected_references, 0);
    assert_eq!(report.comparable_references, 0);
    assert!(report.records.is_empty());
    assert!(report.is_success());
    assert!(!report.is_standard_acceptance());
    assert_eq!(report.run_outcome, RunOutcome::NoEligibleReferences);
    assert_eq!(report.coverage.symbols_without_reference_records, 1);
    assert_eq!(report.report_schema_version, 2);
    let replay = ReplayReport { sz_after_close_events: 1, ..ReplayReport::default() };
    let observer = ValidationObserver::new(Market::Szse, SymbolMap::new());
    let report = build_report(observer, replay, true).expect("report");
    assert_eq!(report.run_outcome, RunOutcome::Failed);
    assert!(!report.is_success());
}

#[test]
fn windows_have_their_bounds() {
    for nanos in [1_000_000_001, u64::MAX] {
        let result = ValidationObserver::new(Market::Sse, SymbolMap::new())
            .with_continuous_lookback(Some(Duration::from_nanos(nanos)));
        assert!(result.is_err(), "{nanos}");
    }
    let result = ValidationObserver::new(Market::Sse, SymbolMap::new())
        .with_continuous_lookahead(Some(Duration::from_nanos(999_999)));
    assert!(matches!(result, Err(ProductionError::InvalidRequest(_))));
    let kept = ValidationObserver::new(Market::Sse, SymbolMap::new())
        .with_continuous_lookback(None)
        .expect("default");
    assert_eq!(kept.continuous_lookback_ns, REFERENCE_SECOND_NS);
    assert!(!kept.diagnostic_window_override);
}

#[test]
fn reports_are_complete_and_in_order() {
    let refs = references(
        ["600001", "600000"]
            .iter()
            .map(|symbol| {
                (
                    *symbol,
                    SymbolReferences {
                        pre_open: Some(frame(1, &view_of(&empty_book()))),
                        continuous_trading: vec![frame(2, &view_of(&empty_book()))],
                        market_close: Some(frame(3, &view_of(&empty_book()))),
                    },
                )
            })
            .collect(),
    );
    let report = report_of(ValidationObserver::new(Market::Sse, refs), true);
    assert_eq!(report.selected_references, 6);
    assert_eq!(report.missing_source, 6);
    assert_eq!(report.run_outcome, RunOutcome::Failed);
    let order: Vec<(&str, i64)> =
        report.records.iter().map(|r| (r.symbol.as_str(), r.reference_source_row_no as i64)).collect();
    let mut sorted = order.clone();
    sorted.sort();
    assert_eq!(order, sorted);
    assert_eq!(
        report.selected_references,
        report.comparable_references + report.data_errors + report.missing_source
    );
}

#[test]
fn negative_prices_are_cut_off_towards_zero() {
    assert_eq!(quantize_validation_price(10, Some(-26)), Some(-20));
    assert_eq!(quantize_validation_price(10, Some(-7)), Some(0));
    assert_eq!(quantize_validation_price(10, Some(25)), Some(30));
    assert_eq!(quantize_validation_price(10, Some(24)), Some(20));
    assert_eq!(quantize_validation_price(10, None), None);
}
