use vstd::prelude::*;

use super::super::count_map::{incremented, is_full, CountMap};
use super::super::error::{ErrorModel, ProductionError};
use super::super::time::{spec_time_of_day, time_of_day_nanos};
use super::super::types::SzMarketOrderPolicy;
use crate::market_data::QuoteTimestampNs;

verus! {

/// An adjacent inversion in the original input, before target filtering.
#[derive(Debug, PartialEq, Eq)]
pub struct SequenceRegression {
    pub channel: u32,
    pub stream: String,
    pub previous_sequence: u64,
    pub sequence: u64,
    pub previous_source_row: u64,
    pub source_row: u64,
}

/// Repair of selected rows in one channel and one input stream.
#[derive(Debug, PartialEq, Eq)]
pub struct SequenceRepair {
    pub channel: u32,
    pub stream: String,
    pub rows: u64,
    pub natural_runs: usize,
    pub merge_passes: usize,
}

/// Counts of one replay.
#[derive(Debug, PartialEq, Eq)]
pub struct ReplayReport {
    /// Original-input inversions, audited before universe filtering.
    pub sz_sequence_regressions: Vec<SequenceRegression>,
    /// Selected channel streams repaired before the existing two-way merge.
    pub sz_sequence_repairs: Vec<SequenceRepair>,
    /// Zero in historical reports; one uses bounded pending-order resolution.
    pub sz_pending_resolution_version: u32,
    pub sz_market_order_policy: SzMarketOrderPolicy,
    pub sz_pending_groups: u64,
    pub sz_inferred_market_remainders: u64,
    pub sz_empty_same_side_cancellations: u64,
    pub input_rows: u64,
    pub selected_rows: u64,
    pub excluded_rows: u64,
    pub excluded_after_cutoff_rows: u64,
    pub excluded_non_stock_rows: u64,
    pub excluded_unselected_stock_rows: u64,
    pub channels: usize,
    pub symbols: u64,
    pub applied_events: u64,
    pub status_events: u64,
    pub same_second_quote_time_regressions: u64,
    pub scheduled_snapshots: u64,
    pub market_close_snapshots: u64,
    pub output_rows: u64,
    /// Legacy phase-assisted replay counters, retained for historical report compatibility.
    /// New replay does not read reference snapshots; these four fields stay false/zero.
    pub sz_phase_source_available: bool,
    pub sz_phase_rows: u64,
    pub sz_resumption_checkpoints: usize,
    pub sz_resumption_rest_orders: u64,
    /// Successfully applied SZ limit orders, directly resting irrespective of crossing or phase.
    /// Zero in older reports that used phase-assisted HideIfCrossing.
    pub sz_direct_rest_limit_orders: u64,
    /// Successfully applied SZ events strictly later than 15:00 (quote time, not receipt time).
    pub sz_after_close_events: u64,
    /// Per-symbol counts requiring phase review before E0 validation can pass.
    pub sz_after_close_events_by_symbol: CountMap,
}

/// Counts of one replay, with its collections as mathematical ones.
#[verifier::ext_equal]
pub struct ReportModel {
    pub sz_sequence_regressions: Seq<SequenceRegression>,
    pub sz_sequence_repairs: Seq<SequenceRepair>,
    pub sz_pending_resolution_version: u32,
    pub sz_market_order_policy: SzMarketOrderPolicy,
    pub sz_pending_groups: u64,
    pub sz_inferred_market_remainders: u64,
    pub sz_empty_same_side_cancellations: u64,
    pub input_rows: u64,
    pub selected_rows: u64,
    pub excluded_rows: u64,
    pub excluded_after_cutoff_rows: u64,
    pub excluded_non_stock_rows: u64,
    pub excluded_unselected_stock_rows: u64,
    pub channels: usize,
    pub symbols: u64,
    pub applied_events: u64,
    pub status_events: u64,
    pub same_second_quote_time_regressions: u64,
    pub scheduled_snapshots: u64,
    pub market_close_snapshots: u64,
    pub output_rows: u64,
    pub sz_phase_source_available: bool,
    pub sz_phase_rows: u64,
    pub sz_resumption_checkpoints: usize,
    pub sz_resumption_rest_orders: u64,
    pub sz_direct_rest_limit_orders: u64,
    pub sz_after_close_events: u64,
    pub sz_after_close_events_by_symbol: Map<Seq<char>, u64>,
}

impl View for ReplayReport {
    type V = ReportModel;

    open spec fn view(&self) -> ReportModel {
        ReportModel {
            sz_sequence_regressions: self.sz_sequence_regressions@,
            sz_sequence_repairs: self.sz_sequence_repairs@,
            sz_pending_resolution_version: self.sz_pending_resolution_version,
            sz_market_order_policy: self.sz_market_order_policy,
            sz_pending_groups: self.sz_pending_groups,
            sz_inferred_market_remainders: self.sz_inferred_market_remainders,
            sz_empty_same_side_cancellations: self.sz_empty_same_side_cancellations,
            input_rows: self.input_rows,
            selected_rows: self.selected_rows,
            excluded_rows: self.excluded_rows,
            excluded_after_cutoff_rows: self.excluded_after_cutoff_rows,
            excluded_non_stock_rows: self.excluded_non_stock_rows,
            excluded_unselected_stock_rows: self.excluded_unselected_stock_rows,
            channels: self.channels,
            symbols: self.symbols,
            applied_events: self.applied_events,
            status_events: self.status_events,
            same_second_quote_time_regressions: self.same_second_quote_time_regressions,
            scheduled_snapshots: self.scheduled_snapshots,
            market_close_snapshots: self.market_close_snapshots,
            output_rows: self.output_rows,
            sz_phase_source_available: self.sz_phase_source_available,
            sz_phase_rows: self.sz_phase_rows,
            sz_resumption_checkpoints: self.sz_resumption_checkpoints,
            sz_resumption_rest_orders: self.sz_resumption_rest_orders,
            sz_direct_rest_limit_orders: self.sz_direct_rest_limit_orders,
            sz_after_close_events: self.sz_after_close_events,
            sz_after_close_events_by_symbol: self.sz_after_close_events_by_symbol@,
        }
    }
}

impl ReportModel {
    /// Every row of the input was selected or excluded.
    pub open spec fn accounted(self) -> bool {
        &&& self.input_rows == self.selected_rows + self.excluded_rows
            + self.excluded_after_cutoff_rows
        &&& self.excluded_rows == self.excluded_non_stock_rows
            + self.excluded_unselected_stock_rows
    }

    /// A report before anything was counted.
    pub open spec fn empty() -> Self {
        ReportModel {
            sz_sequence_regressions: Seq::empty(),
            sz_sequence_repairs: Seq::empty(),
            sz_pending_resolution_version: 0,
            sz_market_order_policy: SzMarketOrderPolicy::RequireEvidence,
            sz_pending_groups: 0,
            sz_inferred_market_remainders: 0,
            sz_empty_same_side_cancellations: 0,
            input_rows: 0,
            selected_rows: 0,
            excluded_rows: 0,
            excluded_after_cutoff_rows: 0,
            excluded_non_stock_rows: 0,
            excluded_unselected_stock_rows: 0,
            channels: 0,
            symbols: 0,
            applied_events: 0,
            status_events: 0,
            same_second_quote_time_regressions: 0,
            scheduled_snapshots: 0,
            market_close_snapshots: 0,
            output_rows: 0,
            sz_phase_source_available: false,
            sz_phase_rows: 0,
            sz_resumption_checkpoints: 0,
            sz_resumption_rest_orders: 0,
            sz_direct_rest_limit_orders: 0,
            sz_after_close_events: 0,
            sz_after_close_events_by_symbol: Map::empty(),
        }
    }
}

impl Default for ReplayReport {
    fn default() -> (r: Self)
        ensures
            r.wf(),
            r@ == ReportModel::empty(),
    {
        let r = ReplayReport {
            sz_sequence_regressions: Vec::new(),
            sz_sequence_repairs: Vec::new(),
            sz_pending_resolution_version: 0,
            sz_market_order_policy: SzMarketOrderPolicy::RequireEvidence,
            sz_pending_groups: 0,
            sz_inferred_market_remainders: 0,
            sz_empty_same_side_cancellations: 0,
            input_rows: 0,
            selected_rows: 0,
            excluded_rows: 0,
            excluded_after_cutoff_rows: 0,
            excluded_non_stock_rows: 0,
            excluded_unselected_stock_rows: 0,
            channels: 0,
            symbols: 0,
            applied_events: 0,
            status_events: 0,
            same_second_quote_time_regressions: 0,
            scheduled_snapshots: 0,
            market_close_snapshots: 0,
            output_rows: 0,
            sz_phase_source_available: false,
            sz_phase_rows: 0,
            sz_resumption_checkpoints: 0,
            sz_resumption_rest_orders: 0,
            sz_direct_rest_limit_orders: 0,
            sz_after_close_events: 0,
            sz_after_close_events_by_symbol: CountMap::new(),
        };
        assert(r@ =~= ReportModel::empty());
        r
    }
}

/// Nanoseconds after midnight at which trading closes.
pub const CLOSE_TIME_OF_DAY: i64 = 54_000_000_000_000;

/// A counter with one more, or the error of one that can go no further.
pub open spec fn bump_error(counter: u64, what: Seq<char>) -> Option<ErrorModel> {
    if counter == u64::MAX {
        Some(ErrorModel::Arithmetic(what))
    } else {
        None
    }
}

/// A counter with one more.
pub fn bump(counter: u64, what: &'static str) -> (r: Result<u64, ProductionError>)
    ensures
        match bump_error(counter, what@) {
            Some(error) => r is Err && r->Err_0@ == error,
            None => r is Ok && r->Ok_0 == counter + 1,
        },
{
    if counter == u64::MAX {
        Err(ProductionError::Arithmetic(what))
    } else {
        Ok(counter + 1)
    }
}

impl ReportModel {
    /// Why an applied Shenzhen event cannot be counted.
    pub open spec fn applied_error(self, symbol: Seq<char>, quote_time_ns: i64) -> Option<
        ErrorModel,
    > {
        if spec_time_of_day(quote_time_ns as int) <= CLOSE_TIME_OF_DAY {
            None
        } else if self.sz_after_close_events == u64::MAX {
            Some(ErrorModel::Arithmetic("SZ after-close event count"@))
        } else if is_full(self.sz_after_close_events_by_symbol, symbol) {
            Some(ErrorModel::Arithmetic("SZ symbol after-close event count"@))
        } else {
            None
        }
    }

    /// The report after an applied Shenzhen event: those after the close are counted.
    pub open spec fn applied(self, symbol: Seq<char>, quote_time_ns: i64) -> Self {
        if spec_time_of_day(quote_time_ns as int) <= CLOSE_TIME_OF_DAY
            || self.sz_after_close_events == u64::MAX {
            self
        } else {
            ReportModel {
                sz_after_close_events: (self.sz_after_close_events + 1) as u64,
                sz_after_close_events_by_symbol: if is_full(
                    self.sz_after_close_events_by_symbol,
                    symbol,
                ) {
                    self.sz_after_close_events_by_symbol
                } else {
                    incremented(self.sz_after_close_events_by_symbol, symbol)
                },
                ..self
            }
        }
    }
}

impl ReplayReport {
    pub open spec fn wf(self) -> bool {
        self.sz_after_close_events_by_symbol.wf()
    }

    /// Counts an applied Shenzhen event that is later than the close.
    pub fn observe_sz_applied_event(&mut self, symbol: &str, quote_time_ns: i64) -> (r: Result<
        (),
        ProductionError,
    >)
        requires
            old(self).wf(),
            quote_time_ns <= i64::MAX - 28_800_000_000_000,
        ensures
            final(self).wf(),
            final(self)@ == old(self)@.applied(symbol@, quote_time_ns),
            match old(self)@.applied_error(symbol@, quote_time_ns) {
                Some(error) => r is Err && r->Err_0@ == error,
                None => r is Ok,
            },
    {
        if time_of_day_nanos(QuoteTimestampNs::from_nanos(quote_time_ns)) > CLOSE_TIME_OF_DAY {
            self.sz_after_close_events = match bump(
                self.sz_after_close_events,
                "SZ after-close event count",
            ) {
                Ok(count) => count,
                Err(error) => return Err(error),
            };
            if !self.sz_after_close_events_by_symbol.increment(symbol) {
                return Err(ProductionError::Arithmetic("SZ symbol after-close event count"));
            }
        }
        Ok(())
    }
}

} // verus!
