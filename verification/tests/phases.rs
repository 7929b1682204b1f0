//! Which reference frames are selected.

use qtp_core::market_data::{Market, TradingDay};
use qtp_core::production::validation::{
    PhaseTracker, ReferenceCoverage, SelectionAudit, SkipReason,
};
use qtp_core::production::ValidationAnchor;

const REASONS: [SkipReason; 5] = [
    SkipReason::StatusNotApplicable,
    SkipReason::MissingNormalPredecessor,
    SkipReason::OutsideSelectionWindow,
    SkipReason::UnexpectedPhaseTransition,
    SkipReason::AdditionalStaticFrame,
];

fn sequence(
    market: Market,
    day: u32,
    symbol: &str,
    rows: &[(&str, i64)],
) -> (SelectionAudit, Vec<Option<ValidationAnchor>>) {
    let mut tracker =
        PhaseTracker::new(market, TradingDay::from_yyyymmdd(day).expect("day"), symbol);
    let actions = rows
        .iter()
        .enumerate()
        .map(|(i, (status, time))| {
            tracker
                .observe(market, (*time, i as u64 + 1), status, 100, 200)
                .expect("position")
        })
        .collect();
    assert_eq!(
        tracker.audit.reference_records,
        tracker.audit.selected_counts.entries().iter().map(|(_, count)| count).sum::<u64>()
            + REASONS.iter().map(|reason| tracker.audit.skipped_counts.get(*reason)).sum::<u64>()
    );
    assert!(tracker.audit.first_samples.len() <= 3);
    (tracker.audit, actions)
}

#[test]
fn normal_sz_selects_first_static_and_all_continuous() {
    let (_, actions) = sequence(
        Market::Szse,
        20260828,
        "000001",
        &[
            ("O0", 10),
            ("B0", 20),
            ("B0", 30),
            ("T0", 40),
            ("B0", 50),
            ("T0", 60),
            ("C0", 70),
            ("E0", 80),
            ("E0", 90),
        ],
    );
    assert_eq!(
        actions,
        [
            None,
            Some(ValidationAnchor::PreOpen),
            None,
            Some(ValidationAnchor::ContinuousTrading),
            None,
            Some(ValidationAnchor::ContinuousTrading),
            None,
            Some(ValidationAnchor::MarketClose),
            None
        ]
    );
}

#[test]
fn halted_and_resumed_sequences_only_select_eligible_frames() {
    let (audit, actions) = sequence(
        Market::Szse,
        20260828,
        "000001",
        &[("S0", 1), ("H0", 2), ("E0", 3)],
    );
    assert!(actions.iter().all(Option::is_none));
    assert_eq!(audit.coverage, ReferenceCoverage::NoEligibleReferences);
    assert_eq!(
        audit
            .first_samples
            .get(SkipReason::MissingNormalPredecessor)
            .as_ref()
            .and_then(|sample| sample.previous_status.as_deref()),
        Some("H0")
    );
    let (_, actions) = sequence(
        Market::Szse,
        20260828,
        "000001",
        &[("H0", 1), ("T0", 2), ("E0", 3), ("C0", 4), ("E0", 5)],
    );
    assert_eq!(
        actions,
        [None, Some(ValidationAnchor::ContinuousTrading), None, None, Some(ValidationAnchor::MarketClose)]
    );
}

#[test]
fn interrupted_predecessors_and_late_normal_transitions() {
    let (_, actions) = sequence(
        Market::Szse,
        20260828,
        "000001",
        &[
            ("O0", 1),
            ("H0", 2),
            ("B0", 3),
            ("O0", 4),
            ("B0", 5),
            ("T0", 6),
            ("C0", 7),
            ("H0", 8),
            ("E0", 9),
            ("C0", 10),
            ("E0", 11),
        ],
    );
    assert_eq!(actions[2], None);
    assert_eq!(actions[4], Some(ValidationAnchor::PreOpen));
    assert_eq!(actions[8], None);
    assert_eq!(actions[10], Some(ValidationAnchor::MarketClose));
}

#[test]
fn sh_first_static_time_window_and_recovery() {
    let (audit, actions) = sequence(
        Market::Sse,
        20260828,
        "600000",
        &[
            ("TRADE", 90),
            ("TRADE", 100),
            ("OCALL", 101),
            ("TRADE", 102),
            ("TRADE", 103),
            ("TRADE", 200),
            ("CLOSE", 201),
            ("CCALL", 202),
            ("SUSP", 203),
            ("CLOSE", 204),
            ("CCALL", 205),
            ("CLOSE", 206),
            ("CLOSE", 207),
        ],
    );
    assert_eq!(actions[0], None);
    assert_eq!(actions[1], None);
    assert_eq!(actions[3], Some(ValidationAnchor::PreOpen));
    assert_eq!(actions[4], None);
    assert_eq!(actions[5], Some(ValidationAnchor::ContinuousTrading));
    assert_eq!(actions[6], None);
    assert_eq!(actions[9], None);
    assert_eq!(actions[11], Some(ValidationAnchor::MarketClose));
    assert_eq!(actions[12], None);
    assert_eq!(audit.selected_counts.get("market_close"), Some(1));
}

#[test]
fn historical_sh_etf_close_boundary_is_preserved() {
    for day in [20260703, 20260706, 20260828] {
        for symbol in ["510300", "600000"] {
            for predecessor in ["TRADE", "CCALL"] {
                let historical = day < 20260706 && symbol == "510300";
                let (_, actions) = sequence(
                    Market::Sse,
                    day,
                    symbol,
                    &[(predecessor, 200), ("CLOSE", 300), ("CLOSE", 301)],
                );
                assert_eq!(actions[1].is_some(), (predecessor == "TRADE") == historical);
                assert!(actions[2].is_none());
            }
        }
    }
}

#[test]
fn phase_skips_do_not_hide_position_corruption() {
    for position in [(5, 2), (10, 1)] {
        let mut tracker = PhaseTracker::new(
            Market::Szse,
            TradingDay::from_yyyymmdd(20260828).expect("day"),
            "000001",
        );
        tracker
            .observe(Market::Szse, (10, 1), "H0", 100, 200)
            .expect("first");
        assert!(
            tracker
                .observe(Market::Szse, position, "E0", 100, 200)
                .is_err()
        );
    }
}

#[test]
fn invalid_phase_positions_skip_without_reopening_completed_stages() {
    for (market, opening, trade, closing, close) in [
        (Market::Szse, "O0", "T0", "C0", "E0"),
        (Market::Sse, "OCALL", "TRADE", "CCALL", "CLOSE"),
    ] {
        let (_, actions) = sequence(
            market,
            20260828,
            "000001",
            &[
                (trade, 200),
                (opening, 201),
                (closing, 202),
                (trade, 203),
                (close, 204),
                (closing, 205),
                (close, 206),
            ],
        );
        assert_eq!(actions[1], None);
        assert_eq!(actions[3], None);
        assert_eq!(actions[4], None);
        assert_eq!(actions[6], Some(ValidationAnchor::MarketClose));
    }
}

#[test]
fn the_open_alone_ends_with_its_frame() {
    let mut tracker = PhaseTracker::new(
        Market::Szse,
        TradingDay::from_yyyymmdd(20260828).expect("day"),
        "000001",
    )
    .with_pre_open_only(true);
    let mut selected = Vec::new();
    for (i, status) in ["O0", "B0", "T0", "C0", "E0"].iter().enumerate() {
        let position = (10 * i as i64, i as u64 + 1);
        selected.push(tracker.observe(Market::Szse, position, status, 100, 200).expect("position"));
    }
    assert_eq!(selected, [None, Some(ValidationAnchor::PreOpen), None, None, None]);
    assert_eq!(tracker.audit.reference_records, 5);
    assert_eq!(tracker.audit.coverage, ReferenceCoverage::Selected);
}

#[test]
fn an_empty_audit_has_no_records() {
    let audit = SelectionAudit::empty("000001".to_owned());
    assert_eq!(audit.reference_records, 0);
    assert_eq!(audit.coverage, ReferenceCoverage::NoReferenceRecords);
    assert_eq!(audit.first_samples.len(), 0);
    assert_eq!(audit.clone(), audit);
}

#[test]
fn selections_follow_the_phases_and_every_status_is_counted() {
    let rows = [
        ("O0", 1),
        ("B0", 2),
        ("B0", 3),
        ("T0", 4),
        ("O0", 5),
        ("T0", 6),
        ("B0", 7),
        ("C0", 8),
        ("E0", 9),
        ("T0", 10),
        ("E0", 11),
    ];
    let (audit, actions) = sequence(Market::Szse, 20_260_828, "000001", &rows);
    let selected: Vec<ValidationAnchor> = actions.into_iter().flatten().collect();
    assert_eq!(
        selected,
        vec![
            ValidationAnchor::PreOpen,
            ValidationAnchor::ContinuousTrading,
            ValidationAnchor::ContinuousTrading,
            ValidationAnchor::MarketClose,
        ]
    );
    assert_eq!(audit.reference_records, 11);
    for (status, count) in [("O0", 2), ("B0", 3), ("T0", 3), ("C0", 1), ("E0", 2)] {
        assert!(audit
            .status_counts
            .entries()
            .iter()
            .any(|(text, n)| text.as_str() == status && *n == count));
    }
    assert_eq!(
        audit.status_counts.entries().iter().map(|(_, count)| *count).sum::<u64>(),
        audit.reference_records
    );
}
