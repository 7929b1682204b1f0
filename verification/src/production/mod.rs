//! Market-day replay and snapshot validation.

pub mod count_map;
pub mod duration;
pub mod effects;
pub mod error;
pub mod input;
pub mod layout;
pub mod replay;
pub mod rows;
pub mod schema;
pub mod sequence;
pub mod snapshot;
pub mod spool;
pub mod spool_file;
pub mod symbol_map;
pub mod sz_pending;
pub mod time;
pub mod types;
pub mod validation;
pub mod writer;

pub use count_map::{incremented, is_full, CountMap};
pub use duration::Duration;
pub use error::{ErrorModel, ProductionError};
pub use replay::{
    replay_market_day, BookRuntime, ChannelRows, NullObserver, ObservationPoint, Observed,
    ReplayReport, ReportModel, RuntimeModel, SequenceRegression, SequenceRepair, SnapshotOutput,
    StateObserver,
};
pub use rows::{
    Aggressor, SseKind, SseRow, SzExecutionKind, SzExecutionRow, SzOrderKind, SzOrderRow, SzSide,
};
pub use snapshot::{
    drained_times_come_once_and_in_order, due_times_are_those_that_have_come,
    snapshot_times_skip_the_lunch_break, BookSnapshot, SnapshotBookModel, SnapshotBookView, SnapshotCursor, SnapshotLevel,
    SnapshotLevels, SnapshotModel,
};
pub use symbol_map::{ascending, insert_sorted, string_views, SymbolMap};
pub use sz_pending::{Disposition, PendingOrder, MAX_RESPONSES};
pub use time::{
    parse_duration, parse_market_timestamp, time_of_day_nanos, MarketTimestampParser,
};
pub use types::{
    is_chinext_symbol, is_etf_symbol, is_stock_symbol, is_supported_symbol, request_policy,
    request_targets, MarketDayRequest, SnapshotKind, SnapshotSchedule, SzMarketOrderPolicy,
    TargetUniverse, ValidationAnchor, ValidationConfig, PRODUCTION_PRICE_DECIMAL_PLACES,
    PRODUCTION_PRICE_MULTIPLIER,
};
pub use validation::{
    validate_market_day, validate_pre_open_market_day, ClosePriceBandAudit, FieldDifference,
    ValidationCounts, ValidationOutcome, ValidationRecord, ValidationReport,
};
