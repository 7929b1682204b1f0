//! Whole channel streams.

use vstd::prelude::*;

use crate::market_data::Side;
use crate::order_book::MAX_STORED_ORDERS;

use super::super::error::{ErrorModel, ProductionError};
use super::super::rows::{SseRow, SzExecutionRow, SzOrderKind, SzOrderRow};
use super::super::snapshot::{day_time, SnapshotModel};
use super::super::symbol_map::{listing, string_views, SymbolMap};
use super::super::sz_pending::PendingOrder;
use super::super::time::parse_market_timestamp;
use super::super::types::{MarketDayRequest, SzMarketOrderPolicy};
use super::event::{outcome_ok, state_of, sz_side};
use super::extension::extends;
use super::group::{apply_pending_group, collect_pending_group, collected, pending_result};
use super::model::{book_side, Step, StepState};
use super::observe::{answered, Observed, StateObserver};
use super::report::{ReplayReport, ReportModel};
use super::runtime::{BookRuntime, RuntimeModel, SnapshotOutput};
use super::sse::{finish_symbol, process_sse_row};
use super::sz::{process_sz_execution, process_sz_order, LAST_QUOTE_TIME_NS};

verus! {

/// What the rows of a channel work on: the state of each symbol, the recorded snapshots, what
/// the observer was shown, and the counts.
#[verifier::ext_equal]
pub struct ChannelState {
    pub runtimes: Map<Seq<char>, RuntimeModel>,
    pub output: Option<Seq<SnapshotModel>>,
    pub log: Seq<Observed>,
    pub report: ReportModel,
}

/// What came of rows of a channel: the state they leave, and why they went no further.
#[verifier::ext_equal]
pub struct ChannelStep {
    pub state: ChannelState,
    pub error: Option<ErrorModel>,
}

/// The price of the best level of a side.
pub open spec fn best_units(state: StepState, side: Side) -> Option<i64> {
    match state.runtime.book.best_price(side) {
        Some(price) => Some(price.spec_units()),
        None => None,
    }
}

/// Whether a Shenzhen order waits for its immediate responses: a market order, unless it
/// rests at the last trade price, and a same-side best order that finds no level.
pub open spec fn waits(policy: SzMarketOrderPolicy, row: SzOrderRow, state: StepState) -> bool {
    match row.kind {
        SzOrderKind::Market => policy != SzMarketOrderPolicy::RestAtLastTradePrice,
        SzOrderKind::SameSideBest => best_units(state, book_side(row.side)) is None,
        SzOrderKind::Limit => false,
    }
}

/// The sequence of the first order, if there is one.
pub open spec fn first_sequence(orders: Seq<SzOrderRow>) -> Option<u64> {
    if orders.len() == 0 {
        None
    } else {
        Some(orders[0].sequence)
    }
}

impl ChannelState {
    pub open spec fn done(self) -> ChannelStep {
        ChannelStep { state: self, error: None }
    }

    pub open spec fn failed(self, error: ErrorModel) -> ChannelStep {
        ChannelStep { state: self, error: Some(error) }
    }

    /// The state of one symbol, which starts afresh with its first row.
    pub open spec fn enter(self, request: MarketDayRequest, symbol: Seq<char>) -> Result<
        StepState,
        ErrorModel,
    > {
        if self.runtimes.contains_key(symbol) {
            Ok(self.with_runtime(self.runtimes[symbol]))
        } else {
            match RuntimeModel::fresh(
                request.market,
                request.trading_day,
                symbol,
                request.snapshots,
            ) {
                Ok(runtime) => Ok(self.with_runtime(runtime)),
                Err(error) => Err(error),
            }
        }
    }

    pub open spec fn with_runtime(self, runtime: RuntimeModel) -> StepState {
        StepState { runtime, output: self.output, log: self.log, report: self.report }
    }

    /// The channel after a step of one symbol.
    pub open spec fn leave(self, symbol: Seq<char>, step: Step) -> ChannelStep {
        ChannelStep {
            state: ChannelState {
                runtimes: self.runtimes.insert(symbol, step.state.runtime),
                output: step.state.output,
                log: step.state.log,
                report: step.state.report,
            },
            error: step.error,
        }
    }

    /// What one Shanghai row does.
    pub open spec fn sse_row(self, request: MarketDayRequest, channel: u32, row: SseRow) -> ChannelStep {
        match self.enter(request, row.symbol@) {
            Err(error) => self.failed(error),
            Ok(state) => self.leave(row.symbol@, state.sse_row(request, channel, row)),
        }
    }

    /// What Shanghai rows do, in their order.
    pub open spec fn sse_rows(
        self,
        request: MarketDayRequest,
        channel: u32,
        rows: Seq<SseRow>,
    ) -> ChannelStep
        decreases rows.len(),
    {
        if rows.len() == 0 {
            self.done()
        } else {
            let first = self.sse_row(request, channel, rows[0]);
            if first.error is Some {
                first
            } else {
                first.state.sse_rows(request, channel, rows.drop_first())
            }
        }
    }

    /// How many executions a Shenzhen order takes with it.
    pub open spec fn sz_taken(
        self,
        request: MarketDayRequest,
        channel: u32,
        row: SzOrderRow,
        next_order: Option<u64>,
        executions: Seq<SzExecutionRow>,
    ) -> nat {
        match self.enter(request, row.symbol@) {
            Err(_) => 0,
            Ok(state) => if waits(request.sz_market_order_policy, row, state) {
                collected(
                    PendingOrder::spec_new(
                        row,
                        best_units(state, book_side(row.side).spec_opposite()),
                    ),
                    next_order,
                    channel,
                    executions,
                ).taken
            } else {
                0
            },
        }
    }

    /// What one Shenzhen order does, with the executions that answer it.
    pub open spec fn sz_order(
        self,
        request: MarketDayRequest,
        channel: u32,
        row: SzOrderRow,
        next_order: Option<u64>,
        executions: Seq<SzExecutionRow>,
    ) -> ChannelStep {
        match self.enter(request, row.symbol@) {
            Err(error) => self.failed(error),
            Ok(state) => self.leave(
                row.symbol@,
                if waits(request.sz_market_order_policy, row, state) {
                    match pending_result(
                        request.sz_market_order_policy,
                        channel,
                        row,
                        best_units(state, book_side(row.side).spec_opposite()),
                        next_order,
                        executions,
                    ) {
                        Err(error) => state.failed(error),
                        Ok((taken, disposition)) => state.sz_group(
                            request,
                            channel,
                            row,
                            executions.take(taken as int),
                            disposition,
                        ),
                    }
                } else {
                    state.sz_order(
                        request,
                        channel,
                        row,
                        row.kind == SzOrderKind::SameSideBest,
                    )
                },
            ),
        }
    }

    /// What one Shenzhen execution does.
    pub open spec fn sz_execution(
        self,
        request: MarketDayRequest,
        channel: u32,
        row: SzExecutionRow,
    ) -> ChannelStep {
        match self.enter(request, row.symbol@) {
            Err(error) => self.failed(error),
            Ok(state) => self.leave(row.symbol@, state.sz_execution(request, channel, row)),
        }
    }

    /// What the two Shenzhen streams do, merged by sequence. The same sequence in both is
    /// ambiguous.
    pub open spec fn sz_rows(
        self,
        request: MarketDayRequest,
        channel: u32,
        orders: Seq<SzOrderRow>,
        executions: Seq<SzExecutionRow>,
    ) -> ChannelStep
        decreases orders.len(), executions.len(),
    {
        if orders.len() == 0 && executions.len() == 0 {
            self.done()
        } else if orders.len() > 0 && executions.len() > 0 && orders[0].sequence
            == executions[0].sequence {
            self.failed(
                ErrorModel::AmbiguousSequence { channel, sequence: orders[0].sequence },
            )
        } else if orders.len() > 0 && (executions.len() == 0 || orders[0].sequence
            < executions[0].sequence) {
            let rest = orders.drop_first();
            let next_order = first_sequence(rest);
            let first = self.sz_order(request, channel, orders[0], next_order, executions);
            let taken = self.sz_taken(request, channel, orders[0], next_order, executions);
            if first.error is Some {
                first
            } else {
                first.state.sz_rows(request, channel, rest, executions.skip(taken as int))
            }
        } else {
            let first = self.sz_execution(request, channel, executions[0]);
            if first.error is Some {
                first
            } else {
                first.state.sz_rows(request, channel, orders, executions.drop_first())
            }
        }
    }

    /// The end of the channel, for each symbol.
    pub open spec fn symbol_ends(
        self,
        request: MarketDayRequest,
        channel: u32,
        symbols: Seq<Seq<char>>,
        close: Option<i64>,
    ) -> ChannelStep
        decreases symbols.len(),
    {
        if symbols.len() == 0 {
            self.done()
        } else {
            let first = self.leave(
                symbols[0],
                self.with_runtime(self.runtimes[symbols[0]]).channel_end(
                    request,
                    channel,
                    symbols[0],
                    close,
                ),
            );
            if first.error is Some {
                first
            } else {
                first.state.symbol_ends(request, channel, symbols.drop_first(), close)
            }
        }
    }

    /// The end of the channel: each symbol in ascending order, then the totals.
    pub open spec fn channel_end(
        self,
        request: MarketDayRequest,
        channel: u32,
        end_is_close: bool,
    ) -> ChannelStep {
        match day_time(request.trading_day, "15:00:00.000") {
            Err(error) => self.failed(error),
            Ok(close) => {
                let ended = self.symbol_ends(
                    request,
                    channel,
                    listing(self.runtimes.dom()),
                    if end_is_close {
                        Some(close)
                    } else {
                        None
                    },
                );
                if ended.error is Some {
                    ended
                } else {
                    ended.state.totalled()
                }
            },
        }
    }

    /// The symbols and recorded snapshots of the channel are counted.
    pub open spec fn totalled(self) -> ChannelStep {
        let symbols = self.report.symbols + self.runtimes.len();
        let with_symbols = ChannelState {
            report: ReportModel { symbols: symbols as u64, ..self.report },
            ..self
        };
        if symbols > u64::MAX {
            self.failed(ErrorModel::Arithmetic("symbol count"@))
        } else if self.output is None {
            with_symbols.done()
        } else if self.report.output_rows + self.output->0.len() > u64::MAX {
            with_symbols.failed(ErrorModel::Arithmetic("output row count"@))
        } else {
            ChannelState {
                report: ReportModel {
                    output_rows: (self.report.output_rows + self.output->0.len()) as u64,
                    ..with_symbols.report
                },
                ..with_symbols
            }.done()
        }
    }

    /// A channel of which nothing was read yet.
    pub open spec fn opened(request: MarketDayRequest, log: Seq<Observed>, report: ReportModel) -> Self {
        ChannelState {
            runtimes: Map::empty(),
            output: if request.snapshots is Some {
                Some(Seq::empty())
            } else {
                None
            },
            log,
            report,
        }
    }

    /// What a whole Shanghai channel does.
    pub open spec fn sse_channel(
        self,
        request: MarketDayRequest,
        channel: u32,
        rows: Seq<SseRow>,
    ) -> ChannelStep {
        let read = self.sse_rows(request, channel, rows);
        if read.error is Some {
            read
        } else {
            read.state.channel_end(request, channel, false)
        }
    }

    /// What a whole Shenzhen channel does. Its end is the close of a complete day.
    pub open spec fn sz_channel(
        self,
        request: MarketDayRequest,
        channel: u32,
        orders: Seq<SzOrderRow>,
        executions: Seq<SzExecutionRow>,
        complete_day: bool,
    ) -> ChannelStep {
        let read = self.sz_rows(request, channel, orders, executions);
        if read.error is Some {
            read
        } else {
            read.state.channel_end(request, channel, complete_day)
        }
    }
}

/// The state of each symbol.
pub open spec fn runtime_views(runtimes: Map<Seq<char>, BookRuntime>) -> Map<
    Seq<char>,
    RuntimeModel,
> {
    runtimes.map_values(|runtime: BookRuntime| runtime@)
}

pub open spec fn channel_state<O: StateObserver>(
    runtimes: SymbolMap<BookRuntime>,
    output: SnapshotOutput,
    observer: O,
    report: ReplayReport,
) -> ChannelState {
    ChannelState {
        runtimes: runtime_views(runtimes@),
        output: output@,
        log: observer.log(),
        report: report@,
    }
}

/// Whether an outcome is the one that a step of a channel describes, or the refusal of an
/// observer that was shown what the step shows first, with the counts of that point.
pub open spec fn channel_outcome_ok(
    step: ChannelStep,
    end: ChannelState,
    refusal: Option<ErrorModel>,
    r: Result<(), ProductionError>,
    shown: nat,
    counts: ReportModel,
) -> bool {
    match refusal {
        None => end == step.state && answered(r, step.error),
        Some(error) => {
            &&& r is Err
            &&& r->Err_0@ == error
            &&& extends(step.state.log, end.log)
            &&& shown < end.log.len()
            &&& end.report == counts
        },
    }
}

/// Each book is in order and holds at most so many orders.
pub open spec fn runtimes_ok(runtimes: Map<Seq<char>, BookRuntime>, orders: nat) -> bool {
    forall|symbol: Seq<char>| #[trigger]
        runtimes.contains_key(symbol) ==> runtimes[symbol].wf()
            && runtimes[symbol]@.book.orders.len() <= orders
}

pub open spec fn schedule_ok(request: MarketDayRequest) -> bool {
    request.snapshots matches Some(schedule) ==> schedule.interval.spec_nanos() > 0
}

/// The state of one symbol, which starts afresh with its first row.
pub fn runtime<'a>(
    request: &MarketDayRequest,
    runtimes: &'a mut SymbolMap<BookRuntime>,
    symbol: &str,
) -> (r: Result<&'a mut BookRuntime, ProductionError>)
    requires
        old(runtimes).wf(),
        schedule_ok(*request),
    ensures
        final(runtimes).wf(),
        if old(runtimes)@.contains_key(symbol@) {
            &&& r is Ok
            &&& *r->Ok_0 == old(runtimes)@[symbol@]
            &&& final(runtimes)@ == old(runtimes)@.insert(symbol@, *final(r->Ok_0))
        } else {
            match RuntimeModel::fresh(
                request.market,
                request.trading_day,
                symbol@,
                request.snapshots,
            ) {
                Ok(fresh) => {
                    &&& r is Ok
                    &&& (*r->Ok_0).wf()
                    &&& (*r->Ok_0)@ == fresh
                    &&& final(runtimes)@ == old(runtimes)@.insert(symbol@, *final(r->Ok_0))
                },
                Err(error) => {
                    &&& r is Err
                    &&& r->Err_0@ == error
                    &&& final(runtimes)@ == old(runtimes)@
                },
            }
        },
{
    if !runtimes.contains_key(symbol) {
        match BookRuntime::new(request, symbol, request.snapshots) {
            Ok(runtime) => runtimes.insert(symbol, runtime),
            Err(error) => return Err(error),
        }
    }
    let found = runtimes.get_mut(symbol);
    Ok(found)
}

proof fn lemma_views_insert(
    runtimes: Map<Seq<char>, BookRuntime>,
    symbol: Seq<char>,
    runtime: BookRuntime,
)
    ensures
        runtime_views(runtimes.insert(symbol, runtime)) == runtime_views(runtimes).insert(
            symbol,
            runtime@,
        ),
{
    assert(runtime_views(runtimes.insert(symbol, runtime)) =~= runtime_views(runtimes).insert(
        symbol,
        runtime@,
    ));
}

/// A fresh book holds no orders.
proof fn lemma_fresh_orders(request: MarketDayRequest, symbol: Seq<char>)
    ensures
        RuntimeModel::fresh(request.market, request.trading_day, symbol, request.snapshots)
            matches Ok(fresh) ==> fresh.book.orders.len() == 0,
{
}

/// Replays one Shanghai row of a channel.
fn step_sse_row<O: StateObserver>(
    request: &MarketDayRequest,
    channel: u32,
    row: &SseRow,
    runtimes: &mut SymbolMap<BookRuntime>,
    output: &mut SnapshotOutput,
    observer: &mut O,
    report: &mut ReplayReport,
    Ghost(orders): Ghost<nat>,
) -> (r: Result<(), ProductionError>)
    requires
        schedule_ok(*request),
        old(runtimes).wf(),
        runtimes_ok(old(runtimes)@, orders),
        orders < MAX_STORED_ORDERS,
        old(report).wf(),
        old(observer).ready(),
        old(observer).refusal() is None,
    ensures
        final(runtimes).wf(),
        r is Ok ==> runtimes_ok(final(runtimes)@, orders + 1),
        final(report).wf(),
        final(observer).ready(),
        final(observer).origin() == old(observer).origin(),
        channel_outcome_ok(
            channel_state(*old(runtimes), *old(output), *old(observer), *old(report)).sse_row(
                *request,
                channel,
                *row,
            ),
            channel_state(*final(runtimes), *final(output), *final(observer), *final(report)),
            final(observer).refusal(),
            r,
            old(observer).log().len(),
            channel_state(
                *old(runtimes),
                *old(output),
                *old(observer),
                *old(report),
            ).sse_row_counts(
                *request,
                channel,
                *row,
                final(observer).log().len(),
            ),
        ),
{
    let ghost before = runtimes@;
    proof {
        lemma_fresh_orders(*request, row.symbol@);
    }
    let found = match runtime(request, runtimes, row.symbol.as_str()) {
        Ok(found) => found,
        Err(error) => return Err(error),
    };
    let r = process_sse_row(request, channel, row, found, output, observer, report);
    proof {
        lemma_views_insert(before, row.symbol@, runtimes@[row.symbol@]);
    }
    r
}

/// Replays one Shenzhen execution of a channel.
fn step_sz_execution<O: StateObserver>(
    request: &MarketDayRequest,
    channel: u32,
    row: &SzExecutionRow,
    runtimes: &mut SymbolMap<BookRuntime>,
    output: &mut SnapshotOutput,
    observer: &mut O,
    report: &mut ReplayReport,
    Ghost(orders): Ghost<nat>,
) -> (r: Result<(), ProductionError>)
    requires
        schedule_ok(*request),
        old(runtimes).wf(),
        runtimes_ok(old(runtimes)@, orders),
        row.quote_time_ns <= LAST_QUOTE_TIME_NS,
        old(report).wf(),
        old(observer).ready(),
        old(observer).refusal() is None,
    ensures
        final(runtimes).wf(),
        r is Ok ==> runtimes_ok(final(runtimes)@, orders),
        final(report).wf(),
        final(observer).ready(),
        final(observer).origin() == old(observer).origin(),
        channel_outcome_ok(
            channel_state(*old(runtimes), *old(output), *old(observer), *old(report)).sz_execution(
                *request,
                channel,
                *row,
            ),
            channel_state(*final(runtimes), *final(output), *final(observer), *final(report)),
            final(observer).refusal(),
            r,
            old(observer).log().len(),
            channel_state(
                *old(runtimes),
                *old(output),
                *old(observer),
                *old(report),
            ).sz_execution_counts(
                *request,
                channel,
                *row,
                final(observer).log().len(),
            ),
        ),
{
    let ghost before = runtimes@;
    proof {
        lemma_fresh_orders(*request, row.symbol@);
    }
    let found = match runtime(request, runtimes, row.symbol.as_str()) {
        Ok(found) => found,
        Err(error) => return Err(error),
    };
    let r = process_sz_execution(request, channel, row, found, output, observer, report);
    proof {
        lemma_views_insert(before, row.symbol@, runtimes@[row.symbol@]);
    }
    r
}

/// Replays one Shenzhen order of a symbol, with the executions that answer it.
fn process_sz_order_group<O: StateObserver>(
    request: &MarketDayRequest,
    channel: u32,
    row: &SzOrderRow,
    next_order: Option<&SzOrderRow>,
    executions: &Vec<SzExecutionRow>,
    position: &mut usize,
    runtime: &mut BookRuntime,
    output: &mut SnapshotOutput,
    observer: &mut O,
    report: &mut ReplayReport,
) -> (r: Result<(), ProductionError>)
    requires
        old(runtime).wf(),
        old(report).wf(),
        old(observer).ready(),
        old(observer).refusal() is None,
        row.quote_time_ns <= LAST_QUOTE_TIME_NS,
        *old(position) <= executions@.len(),
        forall|i: int|
            0 <= i < executions@.len() ==> (#[trigger] executions@[i]).quote_time_ns
                <= LAST_QUOTE_TIME_NS,
        old(runtime)@.book.orders.len() < MAX_STORED_ORDERS,
    ensures
        final(runtime).wf(),
        final(report).wf(),
        final(observer).ready(),
        final(observer).origin() == old(observer).origin(),
        ({
            let start = state_of(*old(runtime), *old(output), *old(observer), *old(report));
            let next = match next_order {
                Some(order) => Some(order.sequence),
                None => None,
            };
            let rest = executions@.skip(*old(position) as int);
            let opposite = best_units(start, book_side(row.side).spec_opposite());
            let policy = request.sz_market_order_policy;
            let taken = if waits(policy, *row, start) {
                collected(PendingOrder::spec_new(*row, opposite), next, channel, rest).taken
            } else {
                0
            };
            let step = if waits(policy, *row, start) {
                match pending_result(policy, channel, *row, opposite, next, rest) {
                    Err(error) => start.failed(error),
                    Ok((taken, disposition)) => start.sz_group(
                        *request,
                        channel,
                        *row,
                        rest.take(taken as int),
                        disposition,
                    ),
                }
            } else {
                start.sz_order(*request, channel, *row, row.kind == SzOrderKind::SameSideBest)
            };
            let length = final(observer).log().len();
            let counts = if waits(policy, *row, start) {
                match pending_result(policy, channel, *row, opposite, next, rest) {
                    Err(_) => start.report,
                    Ok((taken, disposition)) => start.sz_group_counts(
                        *request,
                        channel,
                        *row,
                        rest.take(taken as int),
                        disposition,
                        length,
                    ),
                }
            } else {
                start.sz_order_counts(
                    *request,
                    channel,
                    *row,
                    row.kind == SzOrderKind::SameSideBest,
                    length,
                )
            };
            &&& taken <= rest.len()
            &&& *final(position) == *old(position) + taken
            &&& outcome_ok(
                step,
                state_of(*final(runtime), *final(output), *final(observer), *final(report)),
                final(observer).refusal(),
                r,
                start.log.len(),
                counts,
            )
        }),
        final(runtime)@.book.orders.len() <= old(runtime)@.book.orders.len() + 1,
{
    let ghost start = state_of(*runtime, *output, *observer, *report);
    let ghost first = *position;
    let side = sz_side(row.side);
    let waits = match row.kind {
        SzOrderKind::Market => request.sz_market_order_policy
            != SzMarketOrderPolicy::RestAtLastTradePrice,
        SzOrderKind::SameSideBest => runtime.book.best_level(side).is_none(),
        SzOrderKind::Limit => false,
    };
    if !waits {
        return process_sz_order(
            request,
            channel,
            row,
            runtime,
            row.kind == SzOrderKind::SameSideBest,
            output,
            observer,
            report,
        );
    }
    let opposite_best = match runtime.book.best_level(side.opposite()) {
        Some(level) => Some(level.price.units()),
        None => None,
    };
    // Classification happens before any book mutation.
    let group = match collect_pending_group(
        request.sz_market_order_policy,
        channel,
        row,
        opposite_best,
        next_order,
        executions,
        position,
    ) {
        Ok(group) => group,
        Err(error) => return Err(error),
    };
    proof {
        let rest = executions@.skip(first as int);
        assert forall|i: int| 0 <= i < group.responses@.len() implies (
        #[trigger] group.responses@[i]).quote_time_ns <= LAST_QUOTE_TIME_NS by {
            assert(group.responses@[i] == executions@[first + i]);
        }
    }
    apply_pending_group(request, channel, row, &group, runtime, output, observer, report)
}

/// Replays one Shenzhen order of a channel, with the executions that answer it.
fn step_sz_order<O: StateObserver>(
    request: &MarketDayRequest,
    channel: u32,
    row: &SzOrderRow,
    next_order: Option<&SzOrderRow>,
    executions: &Vec<SzExecutionRow>,
    position: &mut usize,
    runtimes: &mut SymbolMap<BookRuntime>,
    output: &mut SnapshotOutput,
    observer: &mut O,
    report: &mut ReplayReport,
    Ghost(orders): Ghost<nat>,
) -> (r: Result<(), ProductionError>)
    requires
        schedule_ok(*request),
        old(runtimes).wf(),
        runtimes_ok(old(runtimes)@, orders),
        orders < MAX_STORED_ORDERS,
        row.quote_time_ns <= LAST_QUOTE_TIME_NS,
        *old(position) <= executions@.len(),
        forall|i: int|
            0 <= i < executions@.len() ==> (#[trigger] executions@[i]).quote_time_ns
                <= LAST_QUOTE_TIME_NS,
        old(report).wf(),
        old(observer).ready(),
        old(observer).refusal() is None,
    ensures
        final(runtimes).wf(),
        r is Ok ==> runtimes_ok(final(runtimes)@, orders + 1),
        final(report).wf(),
        final(observer).ready(),
        final(observer).origin() == old(observer).origin(),
        ({
            let start = channel_state(
                *old(runtimes),
                *old(output),
                *old(observer),
                *old(report),
            );
            let next = match next_order {
                Some(order) => Some(order.sequence),
                None => None,
            };
            let rest = executions@.skip(*old(position) as int);
            let taken = start.sz_taken(*request, channel, *row, next, rest);
            &&& taken <= rest.len()
            &&& *final(position) == *old(position) + taken
            &&& channel_outcome_ok(
                start.sz_order(*request, channel, *row, next, rest),
                channel_state(*final(runtimes), *final(output), *final(observer), *final(report)),
                final(observer).refusal(),
                r,
                start.log.len(),
                start.sz_order_counts(
                    *request,
                    channel,
                    *row,
                    next,
                    rest,
                    final(observer).log().len(),
                ),
            )
        }),
{
    let ghost before = runtimes@;
    proof {
        lemma_fresh_orders(*request, row.symbol@);
    }
    let found = match runtime(request, runtimes, row.symbol.as_str()) {
        Ok(found) => found,
        Err(error) => return Err(error),
    };
    let r = process_sz_order_group(
        request,
        channel,
        row,
        next_order,
        executions,
        position,
        found,
        output,
        observer,
        report,
    );
    proof {
        lemma_views_insert(before, row.symbol@, runtimes@[row.symbol@]);
    }
    r
}

/// Ends a channel for each symbol, in ascending order.
fn finish_symbols<O: StateObserver>(
    request: &MarketDayRequest,
    channel: u32,
    close: Option<i64>,
    runtimes: &mut SymbolMap<BookRuntime>,
    output: &mut SnapshotOutput,
    observer: &mut O,
    report: &mut ReplayReport,
) -> (r: Result<(), ProductionError>)
    requires
        old(runtimes).wf(),
        forall|symbol: Seq<char>| #[trigger]
            old(runtimes)@.contains_key(symbol) ==> old(runtimes)@[symbol].wf(),
        old(report).wf(),
        old(observer).ready(),
        old(observer).refusal() is None,
    ensures
        final(runtimes).wf(),
        final(report).wf(),
        final(observer).ready(),
        final(observer).origin() == old(observer).origin(),
        channel_outcome_ok(
            channel_state(*old(runtimes), *old(output), *old(observer), *old(report)).symbol_ends(
                *request,
                channel,
                listing(old(runtimes)@.dom()),
                close,
            ),
            channel_state(*final(runtimes), *final(output), *final(observer), *final(report)),
            final(observer).refusal(),
            r,
            old(observer).log().len(),
            channel_state(
                *old(runtimes),
                *old(output),
                *old(observer),
                *old(report),
            ).symbol_ends_counts(
                *request,
                channel,
                listing(old(runtimes)@.dom()),
                close,
                final(observer).log().len(),
            ),
        ),
{
    let ghost start = channel_state(*runtimes, *output, *observer, *report);
    let ghost dom = runtimes@.dom();
    let symbols = runtimes.sorted_symbols();
    let ghost list = string_views(symbols@);
    let mut at: usize = 0;
    assert(list.skip(0) =~= list);
    while at < symbols.len()
        invariant
            runtimes.wf(),
            forall|symbol: Seq<char>| #[trigger]
                runtimes@.contains_key(symbol) ==> runtimes@[symbol].wf(),
            runtimes@.dom() == dom,
            report.wf(),
            observer.ready(),
            observer.refusal() is None,
            observer.origin() == old(observer).origin(),
            at <= symbols@.len(),
            list == string_views(symbols@),
            list.to_set() == dom,
            list == listing(old(runtimes)@.dom()),
            start == channel_state(*old(runtimes), *old(output), *old(observer), *old(report)),
            start.symbol_ends(*request, channel, list, close) == channel_state(
                *runtimes,
                *output,
                *observer,
                *report,
            ).symbol_ends(*request, channel, list.skip(at as int), close),
            start.log.len() <= observer.log().len(),
            forall|length: nat|
                #![trigger start.symbol_ends_counts(*request, channel, list, close, length)]
                length > observer.log().len() ==> start.symbol_ends_counts(
                    *request,
                    channel,
                    list,
                    close,
                    length,
                ) == channel_state(*runtimes, *output, *observer, *report).symbol_ends_counts(
                    *request,
                    channel,
                    list.skip(at as int),
                    close,
                    length,
                ),
        decreases symbols@.len() - at,
    {
        let symbol = symbols[at].as_str();
        let ghost now = channel_state(*runtimes, *output, *observer, *report);
        let ghost before = runtimes@;
        proof {
            assert(list[at as int] == symbol@);
            assert(list.to_set().contains(symbol@));
            assert(list.skip(at as int)[0] == symbol@);
            assert(list.skip(at as int).drop_first() =~= list.skip(at + 1));
            now.with_runtime(now.runtimes[symbol@]).lemma_channel_end(
                *request,
                channel,
                symbol@,
                close,
            );
        }
        let found = runtimes.get_mut(symbol);
        let r = finish_symbol(request, channel, symbol, close, found, output, observer, report);
        proof {
            lemma_views_insert(before, symbol@, runtimes@[symbol@]);
            assert(runtimes@.dom() =~= dom);
        }
        match r {
            Ok(()) => {},
            Err(error) => {
                proof {
                    let state = now.with_runtime(now.runtimes[symbol@]);
                    now.leave(
                        symbol@,
                        state.channel_end(*request, channel, symbol@, close),
                    ).state.lemma_symbol_ends(*request, channel, list.skip(at + 1), close);
                }
                return Err(error);
            },
        }
        at = at + 1;
    }
    Ok(())
}

/// Ends a channel: each symbol in ascending order, then the totals.
fn finish_channel<O: StateObserver>(
    request: &MarketDayRequest,
    channel: u32,
    end_is_close: bool,
    runtimes: &mut SymbolMap<BookRuntime>,
    output: &mut SnapshotOutput,
    observer: &mut O,
    report: &mut ReplayReport,
) -> (r: Result<(), ProductionError>)
    requires
        old(runtimes).wf(),
        forall|symbol: Seq<char>| #[trigger]
            old(runtimes)@.contains_key(symbol) ==> old(runtimes)@[symbol].wf(),
        old(report).wf(),
        old(observer).ready(),
        old(observer).refusal() is None,
    ensures
        final(runtimes).wf(),
        final(report).wf(),
        final(observer).ready(),
        final(observer).origin() == old(observer).origin(),
        channel_outcome_ok(
            channel_state(*old(runtimes), *old(output), *old(observer), *old(report)).channel_end(
                *request,
                channel,
                end_is_close,
            ),
            channel_state(*final(runtimes), *final(output), *final(observer), *final(report)),
            final(observer).refusal(),
            r,
            old(observer).log().len(),
            channel_state(
                *old(runtimes),
                *old(output),
                *old(observer),
                *old(report),
            ).channel_end_counts(
                *request,
                channel,
                end_is_close,
                final(observer).log().len(),
            ),
        ),
{
    assert(runtime_views(runtimes@).dom() =~= runtimes@.dom());
    let close: i64 = match parse_market_timestamp(request.trading_day, "15:00:00.000") {
        Ok(close) => close,
        Err(error) => return Err(error),
    };
    let end: Option<i64> = if end_is_close {
        Some(close)
    } else {
        None
    };
    match finish_symbols(request, channel, end, runtimes, output, observer, report) {
        Ok(()) => {},
        Err(error) => return Err(error),
    }
    assert(runtime_views(runtimes@).dom() =~= runtimes@.dom());
    report.symbols = match report.symbols.checked_add(runtimes.len() as u64) {
        Some(count) => count,
        None => return Err(ProductionError::Arithmetic("symbol count")),
    };
    if output.enabled {
        report.output_rows = match report.output_rows.checked_add(output.rows.len() as u64) {
            Some(count) => count,
            None => return Err(ProductionError::Arithmetic("output row count")),
        };
    }
    Ok(())
}

/// Replays a Shanghai channel and gives its snapshots.
pub fn process_sse_channel<O: StateObserver>(
    request: &MarketDayRequest,
    channel: u32,
    rows: &Vec<SseRow>,
    observer: &mut O,
    report: &mut ReplayReport,
) -> (r: Result<SnapshotOutput, ProductionError>)
    requires
        schedule_ok(*request),
        rows@.len() < MAX_STORED_ORDERS,
        old(report).wf(),
        old(observer).ready(),
        old(observer).refusal() is None,
    ensures
        final(report).wf(),
        final(observer).ready(),
        final(observer).origin() == old(observer).origin(),
        replayed(
            ChannelState::opened(*request, old(observer).log(), old(report)@).sse_channel(
                *request,
                channel,
                rows@,
            ),
            final(observer).log(),
            final(observer).refusal(),
            final(report)@,
            r,
            old(observer).log().len(),
            ChannelState::opened(*request, old(observer).log(), old(report)@).sse_channel_counts(
                *request,
                channel,
                rows@,
                final(observer).log().len(),
            ),
        ),
{
    let mut runtimes: SymbolMap<BookRuntime> = SymbolMap::new();
    let mut output = SnapshotOutput::new(request.snapshots.is_some());
    let ghost start = channel_state(runtimes, output, *observer, *report);
    proof {
        assert(start.runtimes =~= Map::<Seq<char>, RuntimeModel>::empty());
        assert(rows@.skip(0) =~= rows@);
    }
    let mut at: usize = 0;
    while at < rows.len()
        invariant
            schedule_ok(*request),
            runtimes.wf(),
            runtimes_ok(runtimes@, at as nat),
            report.wf(),
            observer.ready(),
            observer.refusal() is None,
            observer.origin() == old(observer).origin(),
            at <= rows@.len(),
            rows@.len() < MAX_STORED_ORDERS,
            start == ChannelState::opened(*request, old(observer).log(), old(report)@),
            start.sse_rows(*request, channel, rows@) == channel_state(
                runtimes,
                output,
                *observer,
                *report,
            ).sse_rows(*request, channel, rows@.skip(at as int)),
            start.log.len() <= observer.log().len(),
            forall|length: nat|
                #![trigger start.sse_rows_counts(*request, channel, rows@, length)]
                length > observer.log().len() ==> start.sse_rows_counts(
                    *request,
                    channel,
                    rows@,
                    length,
                ) == channel_state(runtimes, output, *observer, *report).sse_rows_counts(
                    *request,
                    channel,
                    rows@.skip(at as int),
                    length,
                ),
        decreases rows@.len() - at,
    {
        let ghost now = channel_state(runtimes, output, *observer, *report);
        proof {
            assert(rows@.skip(at as int)[0] == rows@[at as int]);
            assert(rows@.skip(at as int).drop_first() =~= rows@.skip(at + 1));
            now.lemma_sse_row_step(*request, channel, rows@[at as int]);
        }
        match step_sse_row(
            request,
            channel,
            &rows[at],
            &mut runtimes,
            &mut output,
            observer,
            report,
            Ghost(at as nat),
        ) {
            Ok(()) => {},
            Err(error) => {
                proof {
                    now.lemma_sse_rows(*request, channel, rows@.skip(at as int));
                    start.sse_rows(*request, channel, rows@).state.lemma_end(
                        *request,
                        channel,
                        false,
                    );
                }
                return Err(error);
            },
        }
        at = at + 1;
    }
    match finish_channel(
        request,
        channel,
        false,
        &mut runtimes,
        &mut output,
        observer,
        report,
    ) {
        Ok(()) => Ok(output),
        Err(error) => Err(error),
    }
}

/// Whether an outcome is the one that a step of a channel describes, of which only the
/// snapshots, what the observer was shown and the counts are left; or the refusal of an
/// observer that was shown what the step shows first, with the counts of that point.
pub open spec fn replayed(
    step: ChannelStep,
    log: Seq<Observed>,
    refusal: Option<ErrorModel>,
    report: ReportModel,
    r: Result<SnapshotOutput, ProductionError>,
    shown: nat,
    counts: ReportModel,
) -> bool {
    match refusal {
        None => {
            &&& log == step.state.log
            &&& report == step.state.report
            &&& match step.error {
                Some(error) => r is Err && r->Err_0@ == error,
                None => r is Ok && r->Ok_0@ == step.state.output,
            }
        },
        Some(error) => {
            &&& r is Err
            &&& r->Err_0@ == error
            &&& extends(step.state.log, log)
            &&& shown < log.len()
            &&& report == counts
        },
    }
}

/// Replays a Shenzhen channel, its two streams merged by sequence, and gives its snapshots.
#[verifier::rlimit(40)]
pub fn process_sz_channel<O: StateObserver>(
    request: &MarketDayRequest,
    channel: u32,
    orders: &Vec<SzOrderRow>,
    executions: &Vec<SzExecutionRow>,
    observer: &mut O,
    report: &mut ReplayReport,
    complete_day: bool,
) -> (r: Result<SnapshotOutput, ProductionError>)
    requires
        schedule_ok(*request),
        orders@.len() < MAX_STORED_ORDERS,
        forall|i: int|
            0 <= i < orders@.len() ==> (#[trigger] orders@[i]).quote_time_ns <= LAST_QUOTE_TIME_NS,
        forall|i: int|
            0 <= i < executions@.len() ==> (#[trigger] executions@[i]).quote_time_ns
                <= LAST_QUOTE_TIME_NS,
        old(report).wf(),
        old(observer).ready(),
        old(observer).refusal() is None,
    ensures
        final(report).wf(),
        final(observer).ready(),
        final(observer).origin() == old(observer).origin(),
        replayed(
            ChannelState::opened(*request, old(observer).log(), old(report)@).sz_channel(
                *request,
                channel,
                orders@,
                executions@,
                complete_day,
            ),
            final(observer).log(),
            final(observer).refusal(),
            final(report)@,
            r,
            old(observer).log().len(),
            ChannelState::opened(*request, old(observer).log(), old(report)@).sz_channel_counts(
                *request,
                channel,
                orders@,
                executions@,
                complete_day,
                final(observer).log().len(),
            ),
        ),
{
    let mut runtimes: SymbolMap<BookRuntime> = SymbolMap::new();
    let mut output = SnapshotOutput::new(request.snapshots.is_some());
    let ghost start = channel_state(runtimes, output, *observer, *report);
    proof {
        assert(start.runtimes =~= Map::<Seq<char>, RuntimeModel>::empty());
        assert(orders@.skip(0) =~= orders@);
        assert(executions@.skip(0) =~= executions@);
    }
    let mut order: usize = 0;
    let mut execution: usize = 0;
    while order < orders.len() || execution < executions.len()
        invariant
            schedule_ok(*request),
            runtimes.wf(),
            runtimes_ok(runtimes@, order as nat),
            report.wf(),
            observer.ready(),
            observer.refusal() is None,
            observer.origin() == old(observer).origin(),
            order <= orders@.len(),
            execution <= executions@.len(),
            orders@.len() < MAX_STORED_ORDERS,
            forall|i: int|
                0 <= i < orders@.len() ==> (#[trigger] orders@[i]).quote_time_ns
                    <= LAST_QUOTE_TIME_NS,
            forall|i: int|
                0 <= i < executions@.len() ==> (#[trigger] executions@[i]).quote_time_ns
                    <= LAST_QUOTE_TIME_NS,
            start == ChannelState::opened(*request, old(observer).log(), old(report)@),
            start.sz_rows(*request, channel, orders@, executions@) == channel_state(
                runtimes,
                output,
                *observer,
                *report,
            ).sz_rows(
                *request,
                channel,
                orders@.skip(order as int),
                executions@.skip(execution as int),
            ),
            start.log.len() <= observer.log().len(),
            forall|length: nat|
                #![trigger start.sz_rows_counts(*request, channel, orders@, executions@, length)]
                length > observer.log().len() ==> start.sz_rows_counts(
                    *request,
                    channel,
                    orders@,
                    executions@,
                    length,
                ) == channel_state(runtimes, output, *observer, *report).sz_rows_counts(
                    *request,
                    channel,
                    orders@.skip(order as int),
                    executions@.skip(execution as int),
                    length,
                ),
        decreases orders@.len() - order, executions@.len() - execution,
    {
        let ghost now = channel_state(runtimes, output, *observer, *report);
        let ghost left = orders@.skip(order as int);
        let ghost right = executions@.skip(execution as int);
        proof {
            if order < orders@.len() {
                assert(left[0] == orders@[order as int]);
                assert(left.drop_first() =~= orders@.skip(order + 1));
                if order + 1 < orders@.len() {
                    assert(left.drop_first()[0] == orders@[order + 1]);
                }
                now.lemma_sz_order_step(
                    *request,
                    channel,
                    left[0],
                    first_sequence(left.drop_first()),
                    right,
                );
            }
            if execution < executions@.len() {
                assert(right[0] == executions@[execution as int]);
                assert(right.drop_first() =~= executions@.skip(execution + 1));
                now.lemma_sz_execution_step(*request, channel, right[0]);
            }
        }
        if order < orders.len() && execution < executions.len() && orders[order].sequence
            == executions[execution].sequence {
            return Err(
                ProductionError::AmbiguousSequence { channel, sequence: orders[order].sequence },
            );
        }
        let take_order = order < orders.len() && (execution == executions.len()
            || orders[order].sequence < executions[execution].sequence);
        if take_order {
            let next_order = if order + 1 < orders.len() {
                Some(&orders[order + 1])
            } else {
                None
            };
            let ghost first = execution;
            match step_sz_order(
                request,
                channel,
                &orders[order],
                next_order,
                executions,
                &mut execution,
                &mut runtimes,
                &mut output,
                observer,
                report,
                Ghost(order as nat),
            ) {
                Ok(()) => {},
                Err(error) => {
                    proof {
                        now.lemma_order_comes_first(
                            *request,
                            channel,
                            left,
                            right,
                            complete_day,
                        );
                    }
                    return Err(error);
                },
            }
            assert(right.skip(execution - first) =~= executions@.skip(execution as int));
            order = order + 1;
        } else {
            match step_sz_execution(
                request,
                channel,
                &executions[execution],
                &mut runtimes,
                &mut output,
                observer,
                report,
                Ghost(order as nat),
            ) {
                Ok(()) => {},
                Err(error) => {
                    proof {
                        now.lemma_execution_comes_first(
                            *request,
                            channel,
                            left,
                            right,
                            complete_day,
                        );
                    }
                    return Err(error);
                },
            }
            execution = execution + 1;
        }
    }
    match finish_channel(
        request,
        channel,
        complete_day,
        &mut runtimes,
        &mut output,
        observer,
        report,
    ) {
        Ok(()) => Ok(output),
        Err(error) => Err(error),
    }
}

} // verus!
