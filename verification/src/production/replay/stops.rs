//! The counts of a replay at the point at which an observer stops it.

use vstd::prelude::*;

use crate::market_data::Market;

use super::super::rows::{SseKind, SseRow, SzExecutionKind, SzExecutionRow, SzOrderKind, SzOrderRow};
use super::super::snapshot::day_time;
use super::super::symbol_map::listing;
use super::super::sz_pending::Disposition;
use super::super::types::MarketDayRequest;
use super::channel::{best_units, first_sequence, waits, ChannelState};
use super::day::{ChannelRows, DayModel};
use super::group::pending_result;
use super::model::{book_side, snapshot_depth, StepState};
use super::observe::Observed;
use super::report::ReportModel;

verus! {

impl StepState {
    /// The counts of a Shanghai row when the log has come to a length.
    pub open spec fn sse_row_counts(
        self,
        request: MarketDayRequest,
        channel: u32,
        row: SseRow,
        length: nat,
    ) -> ReportModel {
        let before = self.before_event(request, channel, row.symbol@, row.quote_time_ns);
        if row.kind == SseKind::Status {
            ReportModel { status_events: (self.report.status_events + 1) as u64, ..self.report }
        } else if length <= before.state.log.len() {
            before.state.report
        } else {
            self.sse_row(request, channel, row).state.report
        }
    }

    /// The counts of a Shenzhen order when the log has come to a length.
    pub open spec fn sz_order_counts(
        self,
        request: MarketDayRequest,
        channel: u32,
        row: SzOrderRow,
        same_side: bool,
        length: nat,
    ) -> ReportModel {
        let before = self.before_event(request, channel, row.symbol@, row.quote_time_ns);
        if length <= before.state.log.len() {
            before.state.report
        } else {
            self.sz_order(request, channel, row, same_side).state.report
        }
    }

    /// The counts of a Shenzhen execution when the log has come to a length. A trade is shown
    /// before its event is counted.
    pub open spec fn sz_execution_counts(
        self,
        request: MarketDayRequest,
        channel: u32,
        row: SzExecutionRow,
        length: nat,
    ) -> ReportModel {
        let before = self.before_event(request, channel, row.symbol@, row.quote_time_ns);
        if length <= before.state.log.len() {
            before.state.report
        } else if row.kind == SzExecutionKind::Trade && length <= before.state.log.len() + 1 {
            before.state.report.applied(row.symbol@, row.quote_time_ns)
        } else {
            self.sz_execution(request, channel, row).state.report
        }
    }

    /// The counts of a pending order and its responses when the log has come to a length.
    pub open spec fn sz_group_counts(
        self,
        request: MarketDayRequest,
        channel: u32,
        row: SzOrderRow,
        responses: Seq<SzExecutionRow>,
        disposition: Disposition,
        length: nat,
    ) -> ReportModel {
        let before = self.before_event(request, channel, row.symbol@, row.quote_time_ns);
        let applied = before.state.group_applied(request, channel, row, responses, disposition);
        if length <= before.state.log.len() {
            before.state.report
        } else if length <= applied.state.shown_trades(channel, row.symbol@, responses).log.len() {
            applied.state.report
        } else {
            self.sz_group(request, channel, row, responses, disposition).state.report
        }
    }

    /// The counts of the end of a channel for one symbol when the log has come to a length.
    /// The close is shown before it is counted.
    pub open spec fn channel_end_counts(
        self,
        request: MarketDayRequest,
        channel: u32,
        symbol: Seq<char>,
        close: Option<i64>,
        length: nat,
    ) -> ReportModel {
        let recorded = self.recorded(
            self.runtime.cursor->0.len(),
            channel,
            snapshot_depth(request),
        );
        if close is Some && !recorded.state.runtime.close_emitted && length <= self.log.len() + 1 {
            recorded.state.report
        } else {
            self.channel_end(request, channel, symbol, close).state.report
        }
    }
}

impl ChannelState {
    pub open spec fn sse_row_counts(
        self,
        request: MarketDayRequest,
        channel: u32,
        row: SseRow,
        length: nat,
    ) -> ReportModel {
        match self.enter(request, row.symbol@) {
            Err(_) => self.report,
            Ok(state) => state.sse_row_counts(request, channel, row, length),
        }
    }

    /// The counts of Shanghai rows when the log has come to a length.
    pub open spec fn sse_rows_counts(
        self,
        request: MarketDayRequest,
        channel: u32,
        rows: Seq<SseRow>,
        length: nat,
    ) -> ReportModel
        decreases rows.len(),
    {
        if rows.len() == 0 {
            self.report
        } else {
            let first = self.sse_row(request, channel, rows[0]);
            if length <= first.state.log.len() {
                self.sse_row_counts(request, channel, rows[0], length)
            } else {
                first.state.sse_rows_counts(request, channel, rows.drop_first(), length)
            }
        }
    }

    pub open spec fn sz_order_counts(
        self,
        request: MarketDayRequest,
        channel: u32,
        row: SzOrderRow,
        next_order: Option<u64>,
        executions: Seq<SzExecutionRow>,
        length: nat,
    ) -> ReportModel {
        match self.enter(request, row.symbol@) {
            Err(_) => self.report,
            Ok(state) => if waits(request.sz_market_order_policy, row, state) {
                match pending_result(
                    request.sz_market_order_policy,
                    channel,
                    row,
                    best_units(state, book_side(row.side).spec_opposite()),
                    next_order,
                    executions,
                ) {
                    Err(_) => self.report,
                    Ok((taken, disposition)) => state.sz_group_counts(
                        request,
                        channel,
                        row,
                        executions.take(taken as int),
                        disposition,
                        length,
                    ),
                }
            } else {
                state.sz_order_counts(
                    request,
                    channel,
                    row,
                    row.kind == SzOrderKind::SameSideBest,
                    length,
                )
            },
        }
    }

    pub open spec fn sz_execution_counts(
        self,
        request: MarketDayRequest,
        channel: u32,
        row: SzExecutionRow,
        length: nat,
    ) -> ReportModel {
        match self.enter(request, row.symbol@) {
            Err(_) => self.report,
            Ok(state) => state.sz_execution_counts(request, channel, row, length),
        }
    }

    /// The counts of the two Shenzhen streams when the log has come to a length.
    pub open spec fn sz_rows_counts(
        self,
        request: MarketDayRequest,
        channel: u32,
        orders: Seq<SzOrderRow>,
        executions: Seq<SzExecutionRow>,
        length: nat,
    ) -> ReportModel
        decreases orders.len(), executions.len(),
    {
        if orders.len() == 0 && executions.len() == 0 {
            self.report
        } else if orders.len() > 0 && (executions.len() == 0 || orders[0].sequence
            < executions[0].sequence) {
            let rest = orders.drop_first();
            let next_order = first_sequence(rest);
            let first = self.sz_order(request, channel, orders[0], next_order, executions);
            let taken = self.sz_taken(request, channel, orders[0], next_order, executions);
            if length <= first.state.log.len() {
                self.sz_order_counts(request, channel, orders[0], next_order, executions, length)
            } else {
                first.state.sz_rows_counts(
                    request,
                    channel,
                    rest,
                    executions.skip(taken as int),
                    length,
                )
            }
        } else if executions.len() > 0 {
            let first = self.sz_execution(request, channel, executions[0]);
            if length <= first.state.log.len() {
                self.sz_execution_counts(request, channel, executions[0], length)
            } else {
                first.state.sz_rows_counts(
                    request,
                    channel,
                    orders,
                    executions.drop_first(),
                    length,
                )
            }
        } else {
            self.report
        }
    }

    /// The counts of the ends of symbols when the log has come to a length.
    pub open spec fn symbol_ends_counts(
        self,
        request: MarketDayRequest,
        channel: u32,
        symbols: Seq<Seq<char>>,
        close: Option<i64>,
        length: nat,
    ) -> ReportModel
        decreases symbols.len(),
    {
        if symbols.len() == 0 {
            self.report
        } else {
            let state = self.with_runtime(self.runtimes[symbols[0]]);
            let first = self.leave(
                symbols[0],
                state.channel_end(request, channel, symbols[0], close),
            );
            if length <= first.state.log.len() {
                state.channel_end_counts(request, channel, symbols[0], close, length)
            } else {
                first.state.symbol_ends_counts(
                    request,
                    channel,
                    symbols.drop_first(),
                    close,
                    length,
                )
            }
        }
    }

    /// The counts of the end of a channel when the log has come to a length.
    pub open spec fn channel_end_counts(
        self,
        request: MarketDayRequest,
        channel: u32,
        end_is_close: bool,
        length: nat,
    ) -> ReportModel {
        match day_time(request.trading_day, "15:00:00.000") {
            Err(_) => self.report,
            Ok(close) => self.symbol_ends_counts(
                request,
                channel,
                listing(self.runtimes.dom()),
                if end_is_close {
                    Some(close)
                } else {
                    None
                },
                length,
            ),
        }
    }

    /// The counts of a Shanghai channel when the log has come to a length.
    pub open spec fn sse_channel_counts(
        self,
        request: MarketDayRequest,
        channel: u32,
        rows: Seq<SseRow>,
        length: nat,
    ) -> ReportModel {
        let read = self.sse_rows(request, channel, rows);
        if length <= read.state.log.len() {
            self.sse_rows_counts(request, channel, rows, length)
        } else {
            read.state.channel_end_counts(request, channel, false, length)
        }
    }

    /// The counts of a Shenzhen channel when the log has come to a length.
    pub open spec fn sz_channel_counts(
        self,
        request: MarketDayRequest,
        channel: u32,
        orders: Seq<SzOrderRow>,
        executions: Seq<SzExecutionRow>,
        complete_day: bool,
        length: nat,
    ) -> ReportModel {
        let read = self.sz_rows(request, channel, orders, executions);
        if length <= read.state.log.len() {
            self.sz_rows_counts(request, channel, orders, executions, length)
        } else {
            read.state.channel_end_counts(request, channel, complete_day, length)
        }
    }
}

impl ChannelRows {
    /// The counts of a channel when the log has come to a length.
    pub open spec fn replay_counts(
        self,
        request: MarketDayRequest,
        log: Seq<Observed>,
        report: ReportModel,
        complete_day: bool,
        length: nat,
    ) -> ReportModel {
        let opened = ChannelState::opened(request, log, report);
        match request.market {
            Market::Sse => opened.sse_channel_counts(request, self.channel, self.sse@, length),
            Market::Szse => opened.sz_channel_counts(
                request,
                self.channel,
                self.sz_orders@,
                self.sz_executions@,
                complete_day,
                length,
            ),
        }
    }
}

impl DayModel {
    /// The counts of a day when the log has come to a length.
    pub open spec fn replay_all_counts(
        self,
        request: MarketDayRequest,
        channels: Seq<ChannelRows>,
        complete_day: bool,
        length: nat,
    ) -> ReportModel
        decreases channels.len(),
    {
        if channels.len() == 0 || self.error is Some {
            self.report
        } else {
            let step = channels[0].replay(request, self.log, self.report, complete_day);
            if length <= step.state.log.len() {
                channels[0].replay_counts(request, self.log, self.report, complete_day, length)
            } else {
                DayModel {
                    outputs: if step.error is None {
                        self.outputs.push(step.state.output)
                    } else {
                        self.outputs
                    },
                    log: step.state.log,
                    report: step.state.report,
                    error: step.error,
                }.replay_all_counts(request, channels.drop_first(), complete_day, length)
            }
        }
    }
}

} // verus!
