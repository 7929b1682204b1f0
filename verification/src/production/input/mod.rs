//! Selection and checking of raw feed rows.

pub mod effects;
pub mod fields;
pub mod laws;
pub mod shanghai;
pub mod shenzhen;
pub mod stats;

pub use fields::{
    decimal_result, nonnegative_result, positive_result, text_result, timestamp_field_result,
};
pub use laws::{
    executions_are_accounted_for, orders_are_accounted_for, ticks_are_accounted_for,
    ticks_are_in_sequence,
};
pub use shanghai::{
    ingest_sse, sse_ingested, sse_ingested_all, validate_sequence, RawSseRow, SseIngest,
};
pub use shenzhen::{
    ingest_sz_executions, ingest_sz_orders, sz_execution_ingested, sz_execution_ingested_all,
    sz_order_ingested, sz_order_ingested_all, AuditModel, RawSzExecution, RawSzOrder,
    RegressionModel, SequenceAudit, SzExecutionIngest, SzOrderIngest,
};
pub use stats::{register_symbol_channel, IngestStats, Selection, StatsModel};
