//! Shenzhen orders that wait for their immediate responses.

use vstd::prelude::*;

use crate::market_data::Symbol;
use crate::order_book::MAX_STORED_ORDERS;

use super::super::error::{ErrorModel, ProductionError};
use super::super::rows::{SzExecutionKind, SzExecutionRow, SzOrderKind, SzOrderRow};
use super::super::sz_pending::{Disposition, PendingOrder, MAX_RESPONSES};
use super::super::types::{MarketDayRequest, SzMarketOrderPolicy};
use super::event::{before_business_event, order_key, outcome_ok, price, state_of, sz_side};
use super::extension::extends;
use super::model::StepState;
use super::observe::{answered, NullObserver, ObservationPoint, StateObserver};
use super::report::{bump, ReplayReport};
use super::runtime::{BookRuntime, SnapshotOutput};
use super::sz::{process_sz_execution, process_sz_order, LAST_QUOTE_TIME_NS};

verus! {

/// The responses of a pending order, and what becomes of it.
#[derive(Debug, PartialEq, Eq)]
pub struct PendingGroup {
    pub responses: Vec<SzExecutionRow>,
    pub disposition: Disposition,
}

/// What came of the collection of responses: the pending order, how many executions are its
/// responses, and why the collection failed.
pub struct Collected {
    pub pending: PendingOrder,
    pub taken: nat,
    pub error: Option<ErrorModel>,
}

/// The leading executions that answer a pending order. They end where nothing of the order is
/// left, before an execution that does not name it, and before the next order.
pub open spec fn collected(
    pending: PendingOrder,
    next_order: Option<u64>,
    channel: u32,
    executions: Seq<SzExecutionRow>,
) -> Collected
    decreases executions.len(),
{
    if executions.len() == 0 {
        Collected { pending, taken: 0, error: None }
    } else {
        let next = executions[0];
        if next_order == Some(next.sequence) {
            Collected {
                pending,
                taken: 0,
                error: Some(ErrorModel::AmbiguousSequence { channel, sequence: next.sequence }),
            }
        } else if pending.remaining == 0 || (next_order is Some && next_order->0 < next.sequence)
            || !pending.spec_references(next) {
            Collected { pending, taken: 0, error: None }
        } else {
            match pending.observe_complaint(next) {
                Some(detail) => Collected {
                    pending,
                    taken: 0,
                    error: Some(pending.spec_error(detail)),
                },
                None => {
                    let rest = collected(
                        pending.observe_next(next),
                        next_order,
                        channel,
                        executions.drop_first(),
                    );
                    Collected { taken: rest.taken + 1, ..rest }
                },
            }
        }
    }
}

/// The smaller of the sequences that come next.
pub open spec fn next_sequence(next_order: Option<u64>, executions: Seq<SzExecutionRow>) -> Option<
    u64,
> {
    if executions.len() == 0 {
        next_order
    } else if next_order is Some && next_order->0 <= executions[0].sequence {
        next_order
    } else {
        Some(executions[0].sequence)
    }
}

/// The number of responses and what becomes of a pending order, or why it cannot be told.
pub open spec fn pending_result(
    policy: SzMarketOrderPolicy,
    channel: u32,
    row: SzOrderRow,
    initial_best: Option<i64>,
    next_order: Option<u64>,
    executions: Seq<SzExecutionRow>,
) -> Result<(nat, Disposition), ErrorModel> {
    let result = collected(
        PendingOrder::spec_new(row, initial_best),
        next_order,
        channel,
        executions,
    );
    let next = next_sequence(next_order, executions.skip(result.taken as int));
    if result.error is Some {
        Err(result.error->0)
    } else {
        match result.pending.finish_complaint(policy, next) {
            Some(detail) => Err(result.pending.spec_error(detail)),
            None => Ok((result.taken, result.pending.finish_disposition())),
        }
    }
}

/// A collection takes no more executions than there are.
pub proof fn responses_are_executions(
    pending: PendingOrder,
    next_order: Option<u64>,
    channel: u32,
    executions: Seq<SzExecutionRow>,
)
    ensures
        collected(pending, next_order, channel, executions).taken <= executions.len(),
    decreases executions.len(),
{
    if executions.len() > 0 {
        responses_are_executions(
            pending.observe_next(executions[0]),
            next_order,
            channel,
            executions.drop_first(),
        );
    }
}

/// The responses of an order have its symbol and its quote time: no group reaches across the
/// time of a snapshot.
pub proof fn responses_keep_to_one_time(
    pending: PendingOrder,
    next_order: Option<u64>,
    channel: u32,
    executions: Seq<SzExecutionRow>,
    i: int,
)
    requires
        0 <= i < collected(pending, next_order, channel, executions).taken,
    ensures
        i < executions.len(),
        executions[i].quote_time_ns == pending.order.quote_time_ns,
        executions[i].symbol@ == pending.order.symbol@,
    decreases executions.len(),
{
    if executions.len() > 0 && i > 0 {
        responses_keep_to_one_time(
            pending.observe_next(executions[0]),
            next_order,
            channel,
            executions.drop_first(),
            i - 1,
        );
    }
}

/// Collects the responses of a pending order. The position moves past them; an execution that
/// is no response, or that makes the collection fail, is left.
pub fn collect_pending_group(
    policy: SzMarketOrderPolicy,
    channel: u32,
    row: &SzOrderRow,
    initial_best: Option<i64>,
    order: Option<&SzOrderRow>,
    executions: &Vec<SzExecutionRow>,
    position: &mut usize,
) -> (r: Result<PendingGroup, ProductionError>)
    requires
        *old(position) <= executions@.len(),
    ensures
        ({
            let next_order = match order {
                Some(order) => Some(order.sequence),
                None => None,
            };
            let rest = executions@.skip(*old(position) as int);
            let taken = collected(
                PendingOrder::spec_new(*row, initial_best),
                next_order,
                channel,
                rest,
            ).taken;
            &&& taken <= rest.len()
            &&& *final(position) == *old(position) + taken
            &&& match pending_result(policy, channel, *row, initial_best, next_order, rest) {
                Ok((_, disposition)) => {
                    &&& r is Ok
                    &&& r->Ok_0.responses@ == rest.take(taken as int)
                    &&& r->Ok_0.disposition == disposition
                },
                Err(error) => r is Err && r->Err_0@ == error,
            }
        }),
{
    let ghost first = *position as int;
    let ghost whole = executions@.skip(first);
    let ghost initial = PendingOrder::spec_new(*row, initial_best);
    let next_order: Option<u64> = match order {
        Some(order) => Some(order.sequence),
        None => None,
    };
    let mut pending = PendingOrder::new(row, initial_best);
    let mut responses: Vec<SzExecutionRow> = Vec::new();
    proof {
        responses_are_executions(initial, next_order, channel, whole);
        assert(whole.take(0) =~= Seq::empty());
    }
    while *position < executions.len()
        invariant_except_break
            pending.responses <= MAX_RESPONSES,
            0 <= first <= *position <= executions@.len(),
            first == *old(position),
            whole == executions@.skip(first),
            responses@ == whole.take(*position - first),
            initial == PendingOrder::spec_new(*row, initial_best),
            next_order == match order {
                Some(order) => Some(order.sequence),
                None => None,
            },
            ({
                let all = collected(initial, next_order, channel, whole);
                let rest = collected(
                    pending,
                    next_order,
                    channel,
                    executions@.skip(*position as int),
                );
                &&& all.pending == rest.pending
                &&& all.error == rest.error
                &&& all.taken == rest.taken + (*position - first)
            }),
        ensures
            first <= *position <= executions@.len(),
            responses@ == whole.take(*position - first),
            ({
                let all = collected(initial, next_order, channel, whole);
                &&& all.pending == pending
                &&& all.error is None
                &&& all.taken == *position - first
            }),
        decreases executions@.len() - *position,
    {
        let next = &executions[*position];
        let ghost rest = executions@.skip(*position as int);
        assert(rest[0] == *next);
        if let Some(sequence) = next_order {
            if sequence == next.sequence {
                return Err(
                    ProductionError::AmbiguousSequence { channel, sequence: next.sequence },
                );
            }
            if sequence < next.sequence {
                break ;
            }
        }
        if pending.terminal() || !pending.references(next) {
            break ;
        }
        match pending.observe(next) {
            Ok(()) => {},
            Err(error) => return Err(error),
        }
        responses.push(next.clone());
        proof {
            assert(rest.drop_first() =~= executions@.skip(*position + 1));
            assert(whole.take(*position + 1 - first) =~= whole.take(*position - first).push(*next));
        }
        *position = *position + 1;
    }
    let next_sequence: Option<u64> = if *position < executions.len() {
        match next_order {
            Some(sequence) => if sequence <= executions[*position].sequence {
                Some(sequence)
            } else {
                Some(executions[*position].sequence)
            },
            None => Some(executions[*position].sequence),
        }
    } else {
        next_order
    };
    proof {
        assert(whole.skip(*position - first) =~= executions@.skip(*position as int));
        if *position < executions@.len() {
            assert(executions@.skip(*position as int)[0] == executions@[*position as int]);
        }
    }
    match pending.finish(policy, next_sequence) {
        Ok(disposition) => Ok(PendingGroup { responses, disposition }),
        Err(error) => Err(error),
    }
}

/// Makes what is left of a pending order visible.
fn rest_remainder<O: StateObserver>(
    channel: u32,
    row: &SzOrderRow,
    units: i64,
    runtime: &mut BookRuntime,
    output: &SnapshotOutput,
    observer: &O,
    report: &mut ReplayReport,
) -> (r: Result<(), ProductionError>)
    requires
        old(runtime).wf(),
        old(report).wf(),
    ensures
        final(runtime).wf(),
        final(report).wf(),
        ({
            let step = state_of(*old(runtime), *output, *observer, *old(report)).rested(
                channel,
                *row,
                units,
            );
            &&& state_of(*final(runtime), *output, *observer, *final(report)) == step.state
            &&& match step.error {
                Some(error) => r is Err && r->Err_0@ == error,
                None => r is Ok,
            }
        }),
        final(runtime)@.book.orders.len() <= old(runtime)@.book.orders.len(),
{
    let symbol = row.symbol.as_str();
    let key = match order_key(channel, sz_side(row.side), row.sequence, symbol, row.sequence) {
        Ok(key) => key,
        Err(error) => return Err(error),
    };
    let price = match price(units, symbol, row.sequence) {
        Ok(price) => price,
        Err(error) => return Err(error),
    };
    let ghost before = runtime.book@;
    proof {
        runtime.book.orders_are_finite();
    }
    match runtime.book.rest_pending_order(key, price) {
        Ok(()) => {},
        Err(source) => return Err(
            ProductionError::Apply {
                symbol: Symbol::from(symbol),
                sequence: row.sequence,
                source,
            },
        ),
    }
    assert(runtime.book@.orders.dom() =~= before.orders.dom());
    report.sz_inferred_market_remainders = match bump(
        report.sz_inferred_market_remainders,
        "SZ inferred market remainder count",
    ) {
        Ok(count) => count,
        Err(error) => return Err(error),
    };
    Ok(())
}

/// Applies the responses of a pending order, with nobody watching.
fn apply_responses(
    request: &MarketDayRequest,
    channel: u32,
    responses: &Vec<SzExecutionRow>,
    runtime: &mut BookRuntime,
    report: &mut ReplayReport,
) -> (r: Result<(), ProductionError>)
    requires
        old(runtime).wf(),
        old(report).wf(),
        forall|i: int|
            0 <= i < responses@.len() ==> (#[trigger] responses@[i]).quote_time_ns
                <= LAST_QUOTE_TIME_NS,
    ensures
        final(runtime).wf(),
        final(report).wf(),
        ({
            let start = (StepState {
                runtime: old(runtime)@,
                output: None,
                log: Seq::empty(),
                report: old(report)@,
            });
            let step = start.sz_executions(*request, channel, responses@);
            &&& final(runtime)@ == step.state.runtime
            &&& final(report)@ == step.state.report
            &&& match step.error {
                Some(error) => r is Err && r->Err_0@ == error,
                None => r is Ok,
            }
        }),
        final(runtime)@.book.orders.len() <= old(runtime)@.book.orders.len(),
{
    let mut nothing = SnapshotOutput::new(false);
    let mut nobody = NullObserver::new();
    let ghost start = state_of(*runtime, nothing, nobody, *report);
    let ghost count = runtime@.book.orders.len();
    let mut at: usize = 0;
    assert(responses@.skip(0) =~= responses@);
    while at < responses.len()
        invariant
            runtime.wf(),
            report.wf(),
            nobody.ready(),
            at <= responses@.len(),
            forall|i: int|
                0 <= i < responses@.len() ==> (#[trigger] responses@[i]).quote_time_ns
                    <= LAST_QUOTE_TIME_NS,
            start.sz_executions(*request, channel, responses@) == state_of(
                *runtime,
                nothing,
                nobody,
                *report,
            ).sz_executions(*request, channel, responses@.skip(at as int)),
            runtime@.book.orders.len() <= count,
            count == old(runtime)@.book.orders.len(),
            start == (StepState {
                runtime: old(runtime)@,
                output: None,
                log: Seq::empty(),
                report: old(report)@,
            }),
        decreases responses@.len() - at,
    {
        proof {
            assert(responses@.skip(at as int)[0] == responses@[at as int]);
            assert(responses@.skip(at as int).drop_first() =~= responses@.skip(at + 1));
        }
        match process_sz_execution(
            request,
            channel,
            &responses[at],
            runtime,
            &mut nothing,
            &mut nobody,
            report,
        ) {
            Ok(()) => {},
            Err(error) => return Err(error),
        }
        at = at + 1;
    }
    Ok(())
}

/// Applies a pending order, its responses and what becomes of it, with nobody watching.
fn apply_group<O: StateObserver>(
    request: &MarketDayRequest,
    channel: u32,
    row: &SzOrderRow,
    group: &PendingGroup,
    runtime: &mut BookRuntime,
    output: &SnapshotOutput,
    observer: &O,
    report: &mut ReplayReport,
) -> (r: Result<(), ProductionError>)
    requires
        old(runtime).wf(),
        old(report).wf(),
        row.quote_time_ns <= LAST_QUOTE_TIME_NS,
        forall|i: int|
            0 <= i < group.responses@.len() ==> (#[trigger] group.responses@[i]).quote_time_ns
                <= LAST_QUOTE_TIME_NS,
        old(runtime)@.book.orders.len() < MAX_STORED_ORDERS,
    ensures
        final(runtime).wf(),
        final(report).wf(),
        ({
            let step = state_of(*old(runtime), *output, *observer, *old(report)).group_applied(
                *request,
                channel,
                *row,
                group.responses@,
                group.disposition,
            );
            &&& state_of(*final(runtime), *output, *observer, *final(report)) == step.state
            &&& match step.error {
                Some(error) => r is Err && r->Err_0@ == error,
                None => r is Ok,
            }
        }),
        final(runtime)@.book.orders.len() <= old(runtime)@.book.orders.len() + 1,
{
    proof {
        reveal(StepState::group_applied);
    }
    let ghost count = runtime@.book.orders.len();
    let mut nothing = SnapshotOutput::new(false);
    let mut nobody = NullObserver::new();
    match process_sz_order(
        request,
        channel,
        row,
        runtime,
        false,
        &mut nothing,
        &mut nobody,
        report,
    ) {
        Ok(()) => {},
        Err(error) => return Err(error),
    }
    match apply_responses(request, channel, &group.responses, runtime, report) {
        Ok(()) => {},
        Err(error) => return Err(error),
    }
    match group.disposition {
        Disposition::Terminal => Ok(()),
        Disposition::Rest(units) => rest_remainder(
            channel,
            row,
            units,
            runtime,
            output,
            observer,
            report,
        ),
    }
}

/// Shows the observer the trades of a group.
fn show_trades<O: StateObserver>(
    channel: u32,
    symbol: &str,
    responses: &Vec<SzExecutionRow>,
    observer: &mut O,
    Ghost(start): Ghost<StepState>,
) -> (r: Result<(), ProductionError>)
    requires
        old(observer).ready(),
        old(observer).refusal() is None,
        start.log == old(observer).log(),
        forall|i: int|
            0 <= i < responses@.len() ==> (#[trigger] responses@[i]).quote_time_ns
                <= LAST_QUOTE_TIME_NS,
    ensures
        final(observer).ready(),
        final(observer).origin() == old(observer).origin(),
        answered(r, final(observer).refusal()),
        start.log.len() <= final(observer).log().len(),
        ({
            let shown = start.shown_trades(channel, symbol@, responses@);
            if r is Ok {
                shown == (StepState { log: final(observer).log(), ..start })
            } else {
                &&& extends(shown.log, final(observer).log())
                &&& start.log.len() < final(observer).log().len()
            }
        }),
{
    let mut at: usize = 0;
    assert(responses@.skip(0) =~= responses@);
    while at < responses.len()
        invariant
            observer.ready(),
            observer.refusal() is None,
            observer.origin() == old(observer).origin(),
            at <= responses@.len(),
            start.log.len() <= observer.log().len(),
            forall|i: int|
                0 <= i < responses@.len() ==> (#[trigger] responses@[i]).quote_time_ns
                    <= LAST_QUOTE_TIME_NS,
            start.shown_trades(channel, symbol@, responses@) == (StepState {
                log: observer.log(),
                ..start
            }).shown_trades(channel, symbol@, responses@.skip(at as int)),
        decreases responses@.len() - at,
    {
        let row = &responses[at];
        proof {
            assert(responses@.skip(at as int)[0] == *row);
            assert(responses@.skip(at as int).drop_first() =~= responses@.skip(at + 1));
        }
        if row.kind == SzExecutionKind::Trade {
            let ghost shown = (StepState { log: observer.log(), ..start }).shown_trade(
                channel,
                symbol@,
                *row,
            );
            match observer.observe_trade_with_sequence(
                channel,
                symbol,
                row.sequence,
                row.quote_time_ns,
                row.price_units,
                row.quantity,
            ) {
                Ok(()) => {},
                Err(error) => {
                    proof {
                        shown.lemma_shown_trades(channel, symbol@, responses@.skip(at + 1));
                    }
                    return Err(error);
                },
            }
        }
        at = at + 1;
    }
    Ok(())
}

/// Replays a pending order whose responses are known. All responses have the order's quote
/// time: nobody is shown the states in between, and trades are shown once all went well.
pub fn apply_pending_group<O: StateObserver>(
    request: &MarketDayRequest,
    channel: u32,
    row: &SzOrderRow,
    group: &PendingGroup,
    runtime: &mut BookRuntime,
    output: &mut SnapshotOutput,
    observer: &mut O,
    report: &mut ReplayReport,
) -> (r: Result<(), ProductionError>)
    requires
        old(runtime).wf(),
        old(report).wf(),
        old(observer).ready(),
        old(observer).refusal() is None,
        row.quote_time_ns <= LAST_QUOTE_TIME_NS,
        forall|i: int|
            0 <= i < group.responses@.len() ==> (#[trigger] group.responses@[i]).quote_time_ns
                <= LAST_QUOTE_TIME_NS,
        old(runtime)@.book.orders.len() < MAX_STORED_ORDERS,
    ensures
        final(runtime).wf(),
        final(report).wf(),
        final(observer).ready(),
        final(observer).origin() == old(observer).origin(),
        outcome_ok(
            state_of(*old(runtime), *old(output), *old(observer), *old(report)).sz_group(
                *request,
                channel,
                *row,
                group.responses@,
                group.disposition,
            ),
            state_of(*final(runtime), *final(output), *final(observer), *final(report)),
            final(observer).refusal(),
            r,
            old(observer).log().len(),
            state_of(*old(runtime), *old(output), *old(observer), *old(report)).sz_group_counts(
                *request,
                channel,
                *row,
                group.responses@,
                group.disposition,
                final(observer).log().len(),
            ),
        ),
        final(runtime)@.book.orders.len() <= old(runtime)@.book.orders.len() + 1,
{
    proof {
        reveal(StepState::sz_group);
        let start = state_of(*runtime, *output, *observer, *report);
        start.lemma_before_event(*request, channel, row.symbol@, row.quote_time_ns);
        start.lemma_sz_group(
            *request,
            channel,
            *row,
            group.responses@,
            group.disposition,
        );
    }
    let symbol = row.symbol.as_str();
    match before_business_event(
        request,
        channel,
        symbol,
        row.quote_time_ns,
        runtime,
        output,
        observer,
        report,
    ) {
        Ok(()) => {},
        Err(error) => return Err(error),
    }
    match apply_group(request, channel, row, group, runtime, output, observer, report) {
        Ok(()) => {},
        Err(error) => return Err(error),
    }
    let ghost applied = state_of(*runtime, *output, *observer, *report);
    match show_trades(channel, symbol, &group.responses, observer, Ghost(applied)) {
        Ok(()) => {},
        Err(error) => return Err(error),
    }
    report.sz_pending_groups = match bump(report.sz_pending_groups, "SZ pending group count") {
        Ok(count) => count,
        Err(error) => return Err(error),
    };
    if row.kind == SzOrderKind::SameSideBest {
        report.sz_empty_same_side_cancellations = match bump(
            report.sz_empty_same_side_cancellations,
            "SZ empty same-side cancellation count",
        ) {
            Ok(count) => count,
            Err(error) => return Err(error),
        };
    }
    observer.observe(
        channel,
        symbol,
        &runtime.book,
        ObservationPoint::AfterEvent(row.quote_time_ns),
    )
}

} // verus!
