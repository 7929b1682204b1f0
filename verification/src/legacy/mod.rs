//! Compatibility rules, normalization, and replay for legacy QTP records.

pub mod effects;
pub mod normalization;
pub mod references;
pub mod replay;
pub mod rules;

pub use normalization::{
    normalize, steady_time_is_ignored, LegacyContext, NormalizeError, NormalizeErrorModel,
};
pub use references::{
    ambiguity_is_final, registered_orders_are_found, OrderReferenceIndex, ReferenceEntry,
    ReferenceIndexModel, Resolution,
};
pub use replay::{
    failed_calls_can_be_resumed, failures_keep_what_came_before, replays_can_be_resumed,
    LegacyReplay, LegacyReplayModel, ReplayError, ReplayErrorKind, ReplayErrorModel, ReplaySource,
};
pub use rules::LegacyQtpRules;
