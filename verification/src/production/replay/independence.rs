//! What a replay leaves does not depend on what its observer was shown.

use vstd::prelude::*;

use super::super::rows::{SseRow, SzExecutionKind, SzExecutionRow, SzOrderKind, SzOrderRow};
use super::super::snapshot::day_time;
use super::super::symbol_map::listing;
use super::super::sz_pending::Disposition;
use super::super::types::MarketDayRequest;
use super::channel::{best_units, first_sequence, waits, ChannelState, ChannelStep};
use super::day::{ChannelRows, DayModel};
use super::group::pending_result;
use super::model::{book_side, Step, StepState};
use super::observe::Observed;
use super::report::ReportModel;

verus! {

/// Whether a report says nothing of phases, which a replay does not read.
pub open spec fn without_phases(report: ReportModel) -> bool {
    &&& !report.sz_phase_source_available
    &&& report.sz_phase_rows == 0
    &&& report.sz_resumption_checkpoints == 0
    &&& report.sz_resumption_rest_orders == 0
}

/// Whether a report says the same of the input of a day as another.
pub open spec fn same_input(report: ReportModel, start: ReportModel) -> bool {
    &&& report.sz_sequence_regressions == start.sz_sequence_regressions
    &&& report.sz_sequence_repairs == start.sz_sequence_repairs
    &&& report.sz_pending_resolution_version == start.sz_pending_resolution_version
    &&& report.sz_market_order_policy == start.sz_market_order_policy
    &&& report.input_rows == start.input_rows
    &&& report.selected_rows == start.selected_rows
    &&& report.excluded_rows == start.excluded_rows
    &&& report.excluded_after_cutoff_rows == start.excluded_after_cutoff_rows
    &&& report.excluded_non_stock_rows == start.excluded_non_stock_rows
    &&& report.excluded_unselected_stock_rows == start.excluded_unselected_stock_rows
    &&& report.channels == start.channels
}

/// Whether a report has the input of another, and brings no phases into one without them.
spec fn continues(report: ReportModel, start: ReportModel) -> bool {
    &&& same_input(report, start)
    &&& without_phases(start) ==> without_phases(report)
}

/// Whether two steps differ at most in what was shown, and continue a report.
spec fn same_step(start: ReportModel, a: Step, b: Step) -> bool {
    &&& a.state.same_but_shown(b.state)
    &&& a.error == b.error
    &&& continues(a.state.report, start)
}

impl StepState {
    /// Whether two states differ at most in what was shown.
    spec fn same_but_shown(self, other: Self) -> bool {
        &&& self.runtime == other.runtime
        &&& self.output == other.output
        &&& self.report == other.report
    }

    proof fn lemma_same_before_event(
        self,
        other: Self,
        request: MarketDayRequest,
        channel: u32,
        symbol: Seq<char>,
        quote_time_ns: i64,
    )
        requires
            self.same_but_shown(other),
        ensures
            same_step(
                self.report,
                self.before_event(request, channel, symbol, quote_time_ns),
                other.before_event(request, channel, symbol, quote_time_ns),
            ),
    {
        reveal(StepState::before_event);
    }

    proof fn lemma_same_sz_order(
        self,
        other: Self,
        request: MarketDayRequest,
        channel: u32,
        row: SzOrderRow,
        same_side: bool,
    )
        requires
            self.same_but_shown(other),
        ensures
            same_step(
                self.report,
                self.sz_order(request, channel, row, same_side),
                other.sz_order(request, channel, row, same_side),
            ),
    {
        reveal(StepState::sz_order);
        self.lemma_same_before_event(other, request, channel, row.symbol@, row.quote_time_ns);
    }

    proof fn lemma_same_sz_execution(
        self,
        other: Self,
        request: MarketDayRequest,
        channel: u32,
        row: SzExecutionRow,
    )
        requires
            self.same_but_shown(other),
        ensures
            same_step(
                self.report,
                self.sz_execution(request, channel, row),
                other.sz_execution(request, channel, row),
            ),
    {
        reveal(StepState::sz_execution);
        self.lemma_same_before_event(other, request, channel, row.symbol@, row.quote_time_ns);
    }

    proof fn lemma_same_sz_executions(
        self,
        request: MarketDayRequest,
        channel: u32,
        rows: Seq<SzExecutionRow>,
    )
        ensures
            continues(self.sz_executions(request, channel, rows).state.report, self.report),
        decreases rows.len(),
    {
        if rows.len() > 0 {
            self.lemma_same_sz_execution(self, request, channel, rows[0]);
            let first = self.sz_execution(request, channel, rows[0]);
            if first.error is None {
                first.state.lemma_same_sz_executions(request, channel, rows.drop_first());
            }
        }
    }

    proof fn lemma_same_sse_row(
        self,
        other: Self,
        request: MarketDayRequest,
        channel: u32,
        row: SseRow,
    )
        requires
            self.same_but_shown(other),
        ensures
            same_step(
                self.report,
                self.sse_row(request, channel, row),
                other.sse_row(request, channel, row),
            ),
    {
        reveal(StepState::sse_row);
        self.lemma_same_before_event(other, request, channel, row.symbol@, row.quote_time_ns);
    }

    proof fn lemma_same_channel_end(
        self,
        other: Self,
        request: MarketDayRequest,
        channel: u32,
        symbol: Seq<char>,
        close: Option<i64>,
    )
        requires
            self.same_but_shown(other),
        ensures
            same_step(
                self.report,
                self.channel_end(request, channel, symbol, close),
                other.channel_end(request, channel, symbol, close),
            ),
    {
        reveal(StepState::channel_end);
    }

    proof fn lemma_same_shown_trades(
        self,
        channel: u32,
        symbol: Seq<char>,
        rows: Seq<SzExecutionRow>,
    )
        ensures
            self.shown_trades(channel, symbol, rows).same_but_shown(self),
        decreases rows.len(),
    {
        if rows.len() > 0 {
            let first = if rows[0].kind == SzExecutionKind::Trade {
                self.shown_trade(channel, symbol, rows[0])
            } else {
                self
            };
            first.lemma_same_shown_trades(channel, symbol, rows.drop_first());
        }
    }

    proof fn lemma_same_group_applied(
        self,
        other: Self,
        request: MarketDayRequest,
        channel: u32,
        row: SzOrderRow,
        responses: Seq<SzExecutionRow>,
        disposition: Disposition,
    )
        requires
            self.same_but_shown(other),
        ensures
            same_step(
                self.report,
                self.group_applied(request, channel, row, responses, disposition),
                other.group_applied(request, channel, row, responses, disposition),
            ),
    {
        reveal(StepState::group_applied);
        assert(self.unwatched() == other.unwatched());
        self.unwatched().lemma_same_sz_order(self.unwatched(), request, channel, row, false);
        let ordered = self.resumed(self.unwatched().sz_order(request, channel, row, false));
        let twin = other.resumed(other.unwatched().sz_order(request, channel, row, false));
        assert(ordered.state.unwatched() == twin.state.unwatched());
        ordered.state.unwatched().lemma_same_sz_executions(request, channel, responses);
    }

    proof fn lemma_same_sz_group(
        self,
        other: Self,
        request: MarketDayRequest,
        channel: u32,
        row: SzOrderRow,
        responses: Seq<SzExecutionRow>,
        disposition: Disposition,
    )
        requires
            self.same_but_shown(other),
        ensures
            same_step(
                self.report,
                self.sz_group(request, channel, row, responses, disposition),
                other.sz_group(request, channel, row, responses, disposition),
            ),
    {
        reveal(StepState::sz_group);
        self.lemma_same_before_event(other, request, channel, row.symbol@, row.quote_time_ns);
        let before = self.before_event(request, channel, row.symbol@, row.quote_time_ns);
        let twin = other.before_event(request, channel, row.symbol@, row.quote_time_ns);
        before.state.lemma_same_group_applied(
            twin.state,
            request,
            channel,
            row,
            responses,
            disposition,
        );
        before.state.group_applied(
            request,
            channel,
            row,
            responses,
            disposition,
        ).state.lemma_same_shown_trades(channel, row.symbol@, responses);
        twin.state.group_applied(
            request,
            channel,
            row,
            responses,
            disposition,
        ).state.lemma_same_shown_trades(channel, row.symbol@, responses);
    }
}

/// Whether two steps of a channel differ at most in what was shown, and continue a report.
spec fn same_channel_step(start: ReportModel, a: ChannelStep, b: ChannelStep) -> bool {
    &&& a.state.same_but_shown(b.state)
    &&& a.error == b.error
    &&& continues(a.state.report, start)
}

impl ChannelState {
    /// Whether two states differ at most in what was shown.
    spec fn same_but_shown(self, other: Self) -> bool {
        &&& self.runtimes == other.runtimes
        &&& self.output == other.output
        &&& self.report == other.report
    }

    proof fn lemma_same_sse_rows(
        self,
        other: Self,
        request: MarketDayRequest,
        channel: u32,
        rows: Seq<SseRow>,
    )
        requires
            self.same_but_shown(other),
        ensures
            same_channel_step(
                self.report,
                self.sse_rows(request, channel, rows),
                other.sse_rows(request, channel, rows),
            ),
        decreases rows.len(),
    {
        if rows.len() > 0 {
            if let Ok(state) = self.enter(request, rows[0].symbol@) {
                let twin = other.enter(request, rows[0].symbol@)->Ok_0;
                state.lemma_same_sse_row(twin, request, channel, rows[0]);
            }
            let first = self.sse_row(request, channel, rows[0]);
            if first.error is None {
                first.state.lemma_same_sse_rows(
                    other.sse_row(request, channel, rows[0]).state,
                    request,
                    channel,
                    rows.drop_first(),
                );
            }
        }
    }

    proof fn lemma_same_order(
        self,
        other: Self,
        request: MarketDayRequest,
        channel: u32,
        row: SzOrderRow,
        next_order: Option<u64>,
        executions: Seq<SzExecutionRow>,
    )
        requires
            self.same_but_shown(other),
        ensures
            same_channel_step(
                self.report,
                self.sz_order(request, channel, row, next_order, executions),
                other.sz_order(request, channel, row, next_order, executions),
            ),
            self.sz_taken(request, channel, row, next_order, executions) == other.sz_taken(
                request,
                channel,
                row,
                next_order,
                executions,
            ),
    {
        if let Ok(state) = self.enter(request, row.symbol@) {
            let twin = other.enter(request, row.symbol@)->Ok_0;
            if waits(request.sz_market_order_policy, row, state) {
                if let Ok((taken, disposition)) = pending_result(
                    request.sz_market_order_policy,
                    channel,
                    row,
                    best_units(state, book_side(row.side).spec_opposite()),
                    next_order,
                    executions,
                ) {
                    state.lemma_same_sz_group(
                        twin,
                        request,
                        channel,
                        row,
                        executions.take(taken as int),
                        disposition,
                    );
                }
            } else {
                state.lemma_same_sz_order(
                    twin,
                    request,
                    channel,
                    row,
                    row.kind == SzOrderKind::SameSideBest,
                );
            }
        }
    }

    proof fn lemma_same_sz_rows(
        self,
        other: Self,
        request: MarketDayRequest,
        channel: u32,
        orders: Seq<SzOrderRow>,
        executions: Seq<SzExecutionRow>,
    )
        requires
            self.same_but_shown(other),
        ensures
            same_channel_step(
                self.report,
                self.sz_rows(request, channel, orders, executions),
                other.sz_rows(request, channel, orders, executions),
            ),
        decreases orders.len(), executions.len(),
    {
        if orders.len() == 0 && executions.len() == 0 {
        } else if orders.len() > 0 && executions.len() > 0 && orders[0].sequence
            == executions[0].sequence {
        } else if orders.len() > 0 && (executions.len() == 0 || orders[0].sequence
            < executions[0].sequence) {
            let rest = orders.drop_first();
            let next_order = first_sequence(rest);
            self.lemma_same_order(other, request, channel, orders[0], next_order, executions);
            let first = self.sz_order(request, channel, orders[0], next_order, executions);
            let taken = self.sz_taken(request, channel, orders[0], next_order, executions);
            if first.error is None {
                first.state.lemma_same_sz_rows(
                    other.sz_order(request, channel, orders[0], next_order, executions).state,
                    request,
                    channel,
                    rest,
                    executions.skip(taken as int),
                );
            }
        } else {
            if let Ok(state) = self.enter(request, executions[0].symbol@) {
                let twin = other.enter(request, executions[0].symbol@)->Ok_0;
                state.lemma_same_sz_execution(twin, request, channel, executions[0]);
            }
            let first = self.sz_execution(request, channel, executions[0]);
            if first.error is None {
                first.state.lemma_same_sz_rows(
                    other.sz_execution(request, channel, executions[0]).state,
                    request,
                    channel,
                    orders,
                    executions.drop_first(),
                );
            }
        }
    }

    proof fn lemma_same_symbol_ends(
        self,
        other: Self,
        request: MarketDayRequest,
        channel: u32,
        symbols: Seq<Seq<char>>,
        close: Option<i64>,
    )
        requires
            self.same_but_shown(other),
        ensures
            same_channel_step(
                self.report,
                self.symbol_ends(request, channel, symbols, close),
                other.symbol_ends(request, channel, symbols, close),
            ),
        decreases symbols.len(),
    {
        if symbols.len() > 0 {
            let state = self.with_runtime(self.runtimes[symbols[0]]);
            let twin = other.with_runtime(other.runtimes[symbols[0]]);
            state.lemma_same_channel_end(twin, request, channel, symbols[0], close);
            let first = self.leave(
                symbols[0],
                state.channel_end(request, channel, symbols[0], close),
            );
            let second = other.leave(
                symbols[0],
                twin.channel_end(request, channel, symbols[0], close),
            );
            if first.error is None {
                first.state.lemma_same_symbol_ends(
                    second.state,
                    request,
                    channel,
                    symbols.drop_first(),
                    close,
                );
            }
        }
    }

    proof fn lemma_same_end(
        self,
        other: Self,
        request: MarketDayRequest,
        channel: u32,
        end_is_close: bool,
    )
        requires
            self.same_but_shown(other),
        ensures
            same_channel_step(
                self.report,
                self.channel_end(request, channel, end_is_close),
                other.channel_end(request, channel, end_is_close),
            ),
    {
        if let Ok(close) = day_time(request.trading_day, "15:00:00.000") {
            self.lemma_same_symbol_ends(
                other,
                request,
                channel,
                listing(self.runtimes.dom()),
                if end_is_close {
                    Some(close)
                } else {
                    None
                },
            );
        }
    }
}

impl ChannelRows {
    proof fn lemma_same_replay(
        self,
        request: MarketDayRequest,
        log: Seq<Observed>,
        other: Seq<Observed>,
        report: ReportModel,
        complete_day: bool,
    )
        ensures
            same_channel_step(
                report,
                self.replay(request, log, report, complete_day),
                self.replay(request, other, report, complete_day),
            ),
    {
        let opened = ChannelState::opened(request, log, report);
        let twin = ChannelState::opened(request, other, report);
        opened.lemma_same_sse_rows(twin, request, self.channel, self.sse@);
        opened.lemma_same_sz_rows(
            twin,
            request,
            self.channel,
            self.sz_orders@,
            self.sz_executions@,
        );
        opened.sse_rows(request, self.channel, self.sse@).state.lemma_same_end(
            twin.sse_rows(request, self.channel, self.sse@).state,
            request,
            self.channel,
            false,
        );
        opened.sz_rows(
            request,
            self.channel,
            self.sz_orders@,
            self.sz_executions@,
        ).state.lemma_same_end(
            twin.sz_rows(request, self.channel, self.sz_orders@, self.sz_executions@).state,
            request,
            self.channel,
            complete_day,
        );
    }
}

impl DayModel {
    /// The day after one more channel.
    spec fn after(self, step: ChannelStep) -> Self {
        DayModel {
            outputs: if step.error is None {
                self.outputs.push(step.state.output)
            } else {
                self.outputs
            },
            log: step.state.log,
            report: step.state.report,
            error: step.error,
        }
    }
}

/// Watching changes nothing: days that differ in what an observer was shown leave the same
/// snapshots, the same counts and the same error. Neither the windows in which references are
/// compared nor anything else that an observer does reaches what is replayed.
pub proof fn observers_change_nothing(
    day: DayModel,
    log: Seq<Observed>,
    request: MarketDayRequest,
    channels: Seq<ChannelRows>,
    complete_day: bool,
)
    ensures
        ({
            let one = day.replay_all(request, channels, complete_day);
            let two = (DayModel { log, ..day }).replay_all(request, channels, complete_day);
            one == (DayModel { log: one.log, ..two })
        }),
    decreases channels.len(),
{
    if channels.len() > 0 && day.error is None {
        let other = DayModel { log, ..day };
        channels[0].lemma_same_replay(request, day.log, log, day.report, complete_day);
        let step = channels[0].replay(request, day.log, day.report, complete_day);
        let twin = channels[0].replay(request, log, day.report, complete_day);
        let next = day.after(step);
        assert(other.after(twin) == (DayModel { log: twin.state.log, ..next }));
        observers_change_nothing(
            next,
            twin.state.log,
            request,
            channels.drop_first(),
            complete_day,
        );
    }
}

proof fn lemma_continues(
    day: DayModel,
    request: MarketDayRequest,
    channels: Seq<ChannelRows>,
    complete_day: bool,
)
    ensures
        continues(day.replay_all(request, channels, complete_day).report, day.report),
    decreases channels.len(),
{
    if channels.len() > 0 && day.error is None {
        channels[0].lemma_same_replay(request, day.log, day.log, day.report, complete_day);
        let step = channels[0].replay(request, day.log, day.report, complete_day);
        lemma_continues(day.after(step), request, channels.drop_first(), complete_day);
    }
}

/// A replay reads no phases: a report that starts without them says nothing of them at the
/// end.
pub proof fn replays_report_no_phases(
    day: DayModel,
    request: MarketDayRequest,
    channels: Seq<ChannelRows>,
    complete_day: bool,
)
    requires
        without_phases(day.report),
    ensures
        without_phases(day.replay_all(request, channels, complete_day).report),
{
    lemma_continues(day, request, channels, complete_day);
}

/// A replay reports the policy and the counts of the input that it started with.
pub proof fn replays_keep_their_input(
    day: DayModel,
    request: MarketDayRequest,
    channels: Seq<ChannelRows>,
    complete_day: bool,
)
    ensures
        same_input(day.replay_all(request, channels, complete_day).report, day.report),
{
    lemma_continues(day, request, channels, complete_day);
}

} // verus!
