//! A replay only ever adds to what its observer was shown.

use vstd::prelude::*;

use super::super::rows::{
    SseKind, SseRow, SzExecutionKind, SzExecutionRow, SzOrderKind, SzOrderRow,
};
use super::super::snapshot::day_time;
use super::super::symbol_map::listing;
use super::super::sz_pending::Disposition;
use super::super::types::MarketDayRequest;
use super::channel::{best_units, first_sequence, ChannelState};
use super::day::{ChannelRows, DayModel};
use super::group::pending_result;
use super::model::{book_side, StepState};
use super::observe::Observed;
use super::report::ReportModel;

verus! {

/// Whether a log begins with another.
pub open spec fn extends(log: Seq<Observed>, earlier: Seq<Observed>) -> bool {
    &&& earlier.len() <= log.len()
    &&& forall|i: int| 0 <= i < earlier.len() ==> #[trigger] log[i] == earlier[i]
}

impl StepState {
    pub(crate) proof fn lemma_before_event(
        self,
        request: MarketDayRequest,
        channel: u32,
        symbol: Seq<char>,
        quote_time_ns: i64,
    )
        ensures
            extends(
                self.before_event(request, channel, symbol, quote_time_ns).state.log,
                self.log,
            ),
    {
        reveal(StepState::before_event);
    }

    pub(crate) proof fn lemma_sz_order(
        self,
        request: MarketDayRequest,
        channel: u32,
        row: SzOrderRow,
        same_side: bool,
    )
        ensures
            extends(self.sz_order(request, channel, row, same_side).state.log, self.log),
            extends(
                self.sz_order(request, channel, row, same_side).state.log,
                self.before_event(request, channel, row.symbol@, row.quote_time_ns).state.log,
            ),
    {
        reveal(StepState::sz_order);
        self.lemma_before_event(request, channel, row.symbol@, row.quote_time_ns);
    }

    pub(crate) proof fn lemma_sz_execution(
        self,
        request: MarketDayRequest,
        channel: u32,
        row: SzExecutionRow,
    )
        ensures
            extends(self.sz_execution(request, channel, row).state.log, self.log),
            extends(
                self.sz_execution(request, channel, row).state.log,
                self.before_event(request, channel, row.symbol@, row.quote_time_ns).state.log,
            ),
    {
        reveal(StepState::sz_execution);
        self.lemma_before_event(request, channel, row.symbol@, row.quote_time_ns);
    }

    pub(crate) proof fn lemma_sse_row(self, request: MarketDayRequest, channel: u32, row: SseRow)
        ensures
            extends(self.sse_row(request, channel, row).state.log, self.log),
            row.kind != SseKind::Status && !self.runtime.close_emitted
                ==> extends(
                self.sse_row(request, channel, row).state.log,
                self.before_event(request, channel, row.symbol@, row.quote_time_ns).state.log,
            ),
    {
        reveal(StepState::sse_row);
        self.lemma_before_event(request, channel, row.symbol@, row.quote_time_ns);
    }

    pub(crate) proof fn lemma_channel_end(
        self,
        request: MarketDayRequest,
        channel: u32,
        symbol: Seq<char>,
        close: Option<i64>,
    )
        ensures
            extends(self.channel_end(request, channel, symbol, close).state.log, self.log),
    {
        reveal(StepState::channel_end);
    }

    pub(crate) proof fn lemma_shown_trades(
        self,
        channel: u32,
        symbol: Seq<char>,
        rows: Seq<SzExecutionRow>,
    )
        ensures
            extends(self.shown_trades(channel, symbol, rows).log, self.log),
        decreases rows.len(),
    {
        if rows.len() > 0 {
            let first = if rows[0].kind == SzExecutionKind::Trade {
                self.shown_trade(channel, symbol, rows[0])
            } else {
                self
            };
            first.lemma_shown_trades(channel, symbol, rows.drop_first());
        }
    }

    pub(crate) proof fn lemma_sz_group(
        self,
        request: MarketDayRequest,
        channel: u32,
        row: SzOrderRow,
        responses: Seq<SzExecutionRow>,
        disposition: Disposition,
    )
        ensures
            extends(
                self.sz_group(request, channel, row, responses, disposition).state.log,
                self.log,
            ),
            extends(
                self.sz_group(request, channel, row, responses, disposition).state.log,
                self.before_event(request, channel, row.symbol@, row.quote_time_ns).state.log,
            ),
    {
        reveal(StepState::sz_group);
        reveal(StepState::group_applied);
        self.lemma_before_event(request, channel, row.symbol@, row.quote_time_ns);
        let before = self.before_event(request, channel, row.symbol@, row.quote_time_ns);
        let applied = before.state.group_applied(request, channel, row, responses, disposition);
        applied.state.lemma_shown_trades(channel, row.symbol@, responses);
    }
}

impl ChannelState {
    pub(crate) proof fn lemma_sse_row_step(
        self,
        request: MarketDayRequest,
        channel: u32,
        row: SseRow,
    )
        ensures
            extends(self.sse_row(request, channel, row).state.log, self.log),
    {
        if let Ok(state) = self.enter(request, row.symbol@) {
            state.lemma_sse_row(request, channel, row);
        }
    }

    pub(crate) proof fn lemma_sse_rows(
        self,
        request: MarketDayRequest,
        channel: u32,
        rows: Seq<SseRow>,
    )
        ensures
            extends(self.sse_rows(request, channel, rows).state.log, self.log),
            rows.len() > 0 ==> extends(
                self.sse_rows(request, channel, rows).state.log,
                self.sse_row(request, channel, rows[0]).state.log,
            ),
        decreases rows.len(),
    {
        if rows.len() > 0 {
            let first = self.sse_row(request, channel, rows[0]);
            if let Ok(state) = self.enter(request, rows[0].symbol@) {
                state.lemma_sse_row(request, channel, rows[0]);
            }
            if first.error is None {
                first.state.lemma_sse_rows(request, channel, rows.drop_first());
            }
        }
    }

    pub(crate) proof fn lemma_sz_order_step(
        self,
        request: MarketDayRequest,
        channel: u32,
        row: SzOrderRow,
        next_order: Option<u64>,
        executions: Seq<SzExecutionRow>,
    )
        ensures
            extends(
                self.sz_order(request, channel, row, next_order, executions).state.log,
                self.log,
            ),
    {
        if let Ok(state) = self.enter(request, row.symbol@) {
            state.lemma_sz_order(
                request,
                channel,
                row,
                row.kind == SzOrderKind::SameSideBest,
            );
            if let Ok((taken, disposition)) = pending_result(
                request.sz_market_order_policy,
                channel,
                row,
                best_units(
                    state,
                    book_side(row.side).spec_opposite(),
                ),
                next_order,
                executions,
            ) {
                state.lemma_sz_group(
                    request,
                    channel,
                    row,
                    executions.take(taken as int),
                    disposition,
                );
            }
        }
    }

    pub(crate) proof fn lemma_sz_execution_step(
        self,
        request: MarketDayRequest,
        channel: u32,
        row: SzExecutionRow,
    )
        ensures
            extends(self.sz_execution(request, channel, row).state.log, self.log),
    {
        if let Ok(state) = self.enter(request, row.symbol@) {
            state.lemma_sz_execution(request, channel, row);
        }
    }

    pub(crate) proof fn lemma_sz_rows(
        self,
        request: MarketDayRequest,
        channel: u32,
        orders: Seq<SzOrderRow>,
        executions: Seq<SzExecutionRow>,
    )
        ensures
            extends(self.sz_rows(request, channel, orders, executions).state.log, self.log),
        decreases orders.len(), executions.len(),
    {
        if orders.len() == 0 && executions.len() == 0 {
        } else if orders.len() > 0 && executions.len() > 0 && orders[0].sequence
            == executions[0].sequence {
        } else if orders.len() > 0 && (executions.len() == 0 || orders[0].sequence
            < executions[0].sequence) {
            let rest = orders.drop_first();
            let next_order = first_sequence(rest);
            let first = self.sz_order(request, channel, orders[0], next_order, executions);
            let taken = self.sz_taken(request, channel, orders[0], next_order, executions);
            self.lemma_sz_order_step(request, channel, orders[0], next_order, executions);
            if first.error is None {
                first.state.lemma_sz_rows(request, channel, rest, executions.skip(taken as int));
            }
        } else {
            let first = self.sz_execution(request, channel, executions[0]);
            self.lemma_sz_execution_step(request, channel, executions[0]);
            if first.error is None {
                first.state.lemma_sz_rows(request, channel, orders, executions.drop_first());
            }
        }
    }

    /// A whole Shenzhen channel shows what its next order shows, and more.
    pub(crate) proof fn lemma_order_comes_first(
        self,
        request: MarketDayRequest,
        channel: u32,
        orders: Seq<SzOrderRow>,
        executions: Seq<SzExecutionRow>,
        complete_day: bool,
    )
        requires
            orders.len() > 0,
            executions.len() == 0 || orders[0].sequence < executions[0].sequence,
        ensures
            extends(
                self.sz_channel(request, channel, orders, executions, complete_day).state.log,
                self.sz_order(
                    request,
                    channel,
                    orders[0],
                    first_sequence(orders.drop_first()),
                    executions,
                ).state.log,
            ),
            extends(
                self.sz_rows(request, channel, orders, executions).state.log,
                self.sz_order(
                    request,
                    channel,
                    orders[0],
                    first_sequence(orders.drop_first()),
                    executions,
                ).state.log,
            ),
    {
        let rest = orders.drop_first();
        let next = first_sequence(rest);
        let taken = self.sz_taken(request, channel, orders[0], next, executions);
        let first = self.sz_order(request, channel, orders[0], next, executions);
        first.state.lemma_sz_rows(request, channel, rest, executions.skip(taken as int));
        let read = self.sz_rows(request, channel, orders, executions);
        read.state.lemma_end(request, channel, complete_day);
    }

    /// A whole Shenzhen channel shows what its next execution shows, and more.
    pub(crate) proof fn lemma_execution_comes_first(
        self,
        request: MarketDayRequest,
        channel: u32,
        orders: Seq<SzOrderRow>,
        executions: Seq<SzExecutionRow>,
        complete_day: bool,
    )
        requires
            executions.len() > 0,
            orders.len() == 0 || executions[0].sequence < orders[0].sequence,
        ensures
            extends(
                self.sz_channel(request, channel, orders, executions, complete_day).state.log,
                self.sz_execution(request, channel, executions[0]).state.log,
            ),
            extends(
                self.sz_rows(request, channel, orders, executions).state.log,
                self.sz_execution(request, channel, executions[0]).state.log,
            ),
    {
        let first = self.sz_execution(request, channel, executions[0]);
        first.state.lemma_sz_rows(request, channel, orders, executions.drop_first());
        let read = self.sz_rows(request, channel, orders, executions);
        read.state.lemma_end(request, channel, complete_day);
    }

    pub(crate) proof fn lemma_symbol_ends(
        self,
        request: MarketDayRequest,
        channel: u32,
        symbols: Seq<Seq<char>>,
        close: Option<i64>,
    )
        ensures
            extends(self.symbol_ends(request, channel, symbols, close).state.log, self.log),
        decreases symbols.len(),
    {
        if symbols.len() > 0 {
            let state = self.with_runtime(self.runtimes[symbols[0]]);
            let step = state.channel_end(request, channel, symbols[0], close);
            state.lemma_channel_end(request, channel, symbols[0], close);
            let first = self.leave(symbols[0], step);
            if first.error is None {
                first.state.lemma_symbol_ends(request, channel, symbols.drop_first(), close);
            }
        }
    }

    pub(crate) proof fn lemma_end(
        self,
        request: MarketDayRequest,
        channel: u32,
        end_is_close: bool,
    )
        ensures
            extends(self.channel_end(request, channel, end_is_close).state.log, self.log),
    {
        if let Ok(close) = day_time(request.trading_day, "15:00:00.000") {
            self.lemma_symbol_ends(
                request,
                channel,
                listing(self.runtimes.dom()),
                if end_is_close {
                    Some(close)
                } else {
                    None
                },
            );
        }
    }
}

impl ChannelRows {
    pub(crate) proof fn lemma_replay(
        self,
        request: MarketDayRequest,
        log: Seq<Observed>,
        report: ReportModel,
        complete_day: bool,
    )
        ensures
            extends(self.replay(request, log, report, complete_day).state.log, log),
    {
        let opened = ChannelState::opened(request, log, report);
        opened.lemma_sse_rows(request, self.channel, self.sse@);
        opened.lemma_sz_rows(request, self.channel, self.sz_orders@, self.sz_executions@);
        let sse = opened.sse_rows(request, self.channel, self.sse@);
        sse.state.lemma_end(request, self.channel, false);
        let sz = opened.sz_rows(request, self.channel, self.sz_orders@, self.sz_executions@);
        sz.state.lemma_end(request, self.channel, complete_day);
    }
}

impl DayModel {
    pub(crate) proof fn lemma_replay_all(
        self,
        request: MarketDayRequest,
        channels: Seq<ChannelRows>,
        complete_day: bool,
    )
        ensures
            extends(self.replay_all(request, channels, complete_day).log, self.log),
        decreases channels.len(),
    {
        if channels.len() > 0 && self.error is None {
            channels[0].lemma_replay(request, self.log, self.report, complete_day);
            let step = channels[0].replay(request, self.log, self.report, complete_day);
            let next = DayModel {
                outputs: if step.error is None {
                    self.outputs.push(step.state.output)
                } else {
                    self.outputs
                },
                log: step.state.log,
                report: step.state.report,
                error: step.error,
            };
            next.lemma_replay_all(request, channels.drop_first(), complete_day);
        }
    }
}

} // verus!
