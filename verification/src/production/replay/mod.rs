//! Replay of channel streams into order books.

pub mod accounts;
pub mod channel;
pub mod day;
pub mod effects;
pub mod event;
pub mod extension;
pub mod group;
pub mod independence;
pub mod model;
pub mod observe;
pub mod report;
pub mod runtime;
pub mod sse;
pub mod stops;
pub mod strictness;
pub mod sz;

pub use channel::{process_sse_channel, process_sz_channel, runtime, ChannelState, ChannelStep};
pub use day::{
    day_replayed, days_may_be_split, opening_model, opening_report, output_views, process_channel,
    replay_market_day, request_refused, run_market_day, ChannelRows, DayModel,
};
pub use event::{one_sided_reference, outcome_ok, state_of};
pub use extension::extends;
pub use group::{
    apply_pending_group, collect_pending_group, responses_are_executions,
    responses_keep_to_one_time, PendingGroup,
};
pub use independence::{
    observers_change_nothing, replays_keep_their_input, replays_report_no_phases, same_input,
    without_phases,
};
pub use model::{snapshots_hold_what_came_before, Step, StepState};
pub use observe::{NullObserver, ObservationLog, ObservationPoint, Observed, StateObserver};
pub use report::{bump, bump_error, ReplayReport, ReportModel, SequenceRegression, SequenceRepair};
pub use runtime::{same_second_regression_is_allowed, BookRuntime, RuntimeModel, SnapshotOutput};
pub use sse::process_sse_row;
pub use strictness::{
    all_strict, book_before, event_time, is_strict, recorded_times, schedule_times,
    snapshots_are_strict_and_complete,
};
pub use sz::{process_sz_execution, process_sz_order, LAST_QUOTE_TIME_NS};
