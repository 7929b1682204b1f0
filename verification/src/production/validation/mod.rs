//! Validation of replayed books against reference snapshots.

pub mod assembly;
pub mod candidate;
pub mod close_range;
pub mod columns;
pub mod counts;
pub mod day;
pub mod decoding;
pub mod difference;
pub mod effects;
pub mod laws;
pub mod loader;
pub mod observer;
pub mod phases;
pub mod precision;
pub mod reference;
pub mod report;
pub mod rules;
pub mod setup;
pub mod sz_close_price;
pub mod window;
pub mod windows;

pub use candidate::{
    best_candidates_never_get_worse, cached_candidates_are_fresh, changes_leave_the_cache_behind,
    compare_candidate, early_rejections_change_nothing, matches_are_final,
    open_references_match_what_agrees, AnchorModel, AnchorState, CandidateCache, CandidateContext,
    ReferenceSnapshot,
};
pub use close_range::{
    bounds, first_limits_stay, project, ClosePriceBandAudit, DayLimits, NO_UPPER_LIMIT,
    ROUNDED_NO_UPPER_LIMIT, TICK,
};
pub use columns::{
    decode_amount, decode_price, decode_quantity, decode_required_quantity, reference_columns,
    rescale_nonnegative_decimal, RawKind, RawSnapshotColumns, RawValue, ReferenceColumn,
};
pub use counts::{
    CoverageCounts, CoverageSummary, ReportCounts, RunOutcome, ValidationCounts, ValidationOutcome,
};
pub use day::{
    acceptance_is_by_the_standard_rules, validate_market_day, validate_pre_open_market_day, DayInput,
};
pub use difference::{
    compare_reference_scalars, compare_view_mask, compare_views, list_differences,
    masks_count_their_differences,
    weighted_prices_match, DifferenceMask, FieldDifference, WEIGHTED_PRICE_TOLERANCE_UNITS,
};
pub use loader::{
    twins_are_neighbours, LoadError, LoadedReferences, RawReferenceRow, ReferenceLoader,
};
pub use observer::{refusals_are_final, ObserverModel, ValidationObserver};
pub use phases::{
    recording_keeps_consistent, selections_follow_the_phases, single_frames_come_once,
    FirstSamples, PhaseFlags, PhaseTracker, ReferenceCoverage, SelectionAudit, SelectionSample,
    SkipCounts, SkipReason,
};
pub use precision::{turnover_precision, TurnoverPrecisionAudit, UpperLimitNormalizationAudit};
pub use reference::{ReferenceBookView, ReferenceLevels};
pub use report::{
    build_report, cases_keep_the_balance, classify_reference, matches_have_no_errors,
    reports_are_complete, reports_are_in_order, retention_changes_no_count, Retention, ValidationRecord, ValidationReport,
};
pub use rules::{
    anchor_text, multiples_stay, published_prices_are_rounded, published_weighted_price, quantize_validation_price, round_weighted_to_quantum,
    validation_price, validation_price_quantum, SymbolValidationRules,
};
pub use setup::{full_day_observer, opening_cutoff, pre_open_observer};
pub use sz_close_price::{
    reconcile_sz_market_close_price, taken_trades_are_summed, RangeBase, SzClosePriceTracker,
};
pub use window::{
    finished_references_are_final, walks_leave_only_final_references_behind,
    windows_are_half_open, SymbolReferences, SymbolValidationState, WindowConfig,
};
