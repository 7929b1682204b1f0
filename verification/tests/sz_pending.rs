//! Orders that wait for their immediate responses.

use qtp_core::production::{
    Disposition, PendingOrder, ProductionError, SzExecutionKind, SzExecutionRow,
    SzMarketOrderPolicy, SzOrderKind, SzOrderRow, SzSide, MAX_RESPONSES,
};

fn order() -> SzOrderRow {
    SzOrderRow {
        source_row: 1,
        sequence: 10,
        channel: 1,
        symbol: "000001".into(),
        quote_time_ns: 100,
        local_time_ns: 999,
        price_units: 123_456,
        quantity: 300,
        side: SzSide::Buy,
        kind: SzOrderKind::Market,
    }
}

fn execution(
    sequence: u64,
    quantity: u64,
    price_units: i64,
    kind: SzExecutionKind,
) -> SzExecutionRow {
    SzExecutionRow {
        source_row: sequence,
        sequence,
        channel: 1,
        symbol: "000001".into(),
        quote_time_ns: 100,
        local_time_ns: 1000,
        price_units,
        quantity,
        bid_order_no: 10,
        ask_order_no: if kind == SzExecutionKind::Trade { 2 } else { 0 },
        kind,
    }
}

#[test]
fn one_price_is_not_proof_of_rest_but_cancel_closes_ioc() {
    let mut pending = PendingOrder::new(&order(), Some(100_000));
    pending
        .observe(&execution(11, 100, 100_000, SzExecutionKind::Trade))
        .expect("valid test fixture");
    assert!(pending.finish(SzMarketOrderPolicy::RequireEvidence, Some(12)).is_err());
    assert_eq!(
        pending
            .finish(SzMarketOrderPolicy::AssumeContiguous, Some(12))
            .expect("valid test fixture"),
        Disposition::Rest(100_000)
    );
    pending
        .observe(&execution(12, 200, 0, SzExecutionKind::Cancel))
        .expect("valid test fixture");
    assert_eq!(
        pending.finish(SzMarketOrderPolicy::RequireEvidence, None).expect("valid test fixture"),
        Disposition::Terminal
    );
}

#[test]
fn multiple_prices_require_terminal_response() {
    let mut p = PendingOrder::new(&order(), Some(100_000));
    p.observe(&execution(11, 100, 100_000, SzExecutionKind::Trade)).expect("valid test fixture");
    p.observe(&execution(12, 100, 100_100, SzExecutionKind::Trade)).expect("valid test fixture");
    assert!(p.finish(SzMarketOrderPolicy::AssumeContiguous, Some(13)).is_err());
    p.observe(&execution(13, 100, 0, SzExecutionKind::Cancel)).expect("valid test fixture");
    assert!(p.terminal());
}

#[test]
fn full_fill_and_unfilled_cancellation_are_terminal() {
    for row in [
        execution(11, 300, 100_000, SzExecutionKind::Trade),
        execution(11, 300, 0, SzExecutionKind::Cancel),
    ] {
        let mut p = PendingOrder::new(&order(), Some(100_000));
        p.observe(&row).expect("valid test fixture");
        assert_eq!(
            p.finish(SzMarketOrderPolicy::RequireEvidence, None).expect("valid test fixture"),
            Disposition::Terminal
        );
    }
}

#[test]
fn empty_same_side_never_becomes_a_hidden_lifetime_order() {
    let mut row = order();
    row.kind = SzOrderKind::SameSideBest;
    let mut p = PendingOrder::new(&row, None);
    assert!(p.finish(SzMarketOrderPolicy::AssumeContiguous, Some(11)).is_err());
    assert!(p.observe(&execution(11, 100, 100_000, SzExecutionKind::Trade)).is_err());
    p.observe(&execution(11, 300, 0, SzExecutionKind::Cancel)).expect("valid test fixture");
    assert!(p.terminal());
}

#[test]
fn gaps_cross_time_overfill_and_partial_cancel_fail_without_advancing() {
    for change in 0..5 {
        let mut p = PendingOrder::new(&order(), Some(100_000));
        let mut e = execution(11, 100, 100_000, SzExecutionKind::Trade);
        match change {
            0 => e.sequence = 12,
            1 => e.quote_time_ns = 101,
            2 => e.quantity = 301,
            3 => {
                e.kind = SzExecutionKind::Cancel;
                e.ask_order_no = 0;
            }
            _ => e.symbol = "000002".into(),
        }
        assert!(p.observe(&e).is_err());
        assert_eq!(p.remaining, 300);
        assert_eq!(p.last_sequence, 10);
    }
}

#[test]
fn eof_gap_and_wrong_initial_price_cannot_infer_rest() {
    for best in [100_000, 99_000] {
        let mut p = PendingOrder::new(&order(), Some(best));
        p.observe(&execution(11, 100, 100_000, SzExecutionKind::Trade))
            .expect("valid test fixture");
        assert!(p.finish(SzMarketOrderPolicy::AssumeContiguous, None).is_err());
        assert!(p.finish(SzMarketOrderPolicy::AssumeContiguous, Some(13)).is_err());
        if best != 100_000 {
            assert!(p.finish(SzMarketOrderPolicy::AssumeContiguous, Some(12)).is_err());
        }
    }
}

#[test]
fn sell_reference_and_buffer_limit_are_checked() {
    let mut row = order();
    row.side = SzSide::Sell;
    row.quantity = MAX_RESPONSES as u64 + 2;
    let mut p = PendingOrder::new(&row, Some(100_000));
    for i in 0..MAX_RESPONSES {
        let mut e = execution(11 + i as u64, 1, 100_000, SzExecutionKind::Trade);
        e.bid_order_no = 2;
        e.ask_order_no = 10;
        p.observe(&e).expect("sell response");
    }
    let mut overflow = execution(11 + MAX_RESPONSES as u64, 1, 100_000, SzExecutionKind::Trade);
    overflow.bid_order_no = 2;
    overflow.ask_order_no = 10;
    assert!(p.observe(&overflow).is_err());
    assert_eq!(p.remaining, 2);
    assert_eq!(p.responses, MAX_RESPONSES);
}

#[test]
fn a_refusal_tells_which_order_waits() {
    let p = PendingOrder::new(&order(), Some(100_000));
    assert_eq!(
        p.error("because"),
        ProductionError::UnresolvedSzOrder {
            symbol: "000001".into(),
            channel: 1,
            order_sequence: 10,
            last_sequence: 10,
            detail: "because",
        }
    );
    assert!(p.error("because").message().contains("because"));
    assert!(p.references(&execution(50, 1, 1, SzExecutionKind::Trade)));
    let mut other = execution(50, 1, 1, SzExecutionKind::Trade);
    other.bid_order_no = 11;
    assert!(!p.references(&other));
}
