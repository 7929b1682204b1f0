//! Events made of rows, and what comes before each.

use vstd::prelude::*;
use vstd::string::StringExecFns;

use crate::market_data::{
    BookEvent, ChannelId, EventMeta, LocalTimestampNs, OrderId, OrderKey, Price, Quantity,
    QuoteTimestampNs, RawSequence, Side, Symbol,
};
use crate::order_book::laws::orders_come_one_at_a_time;
use crate::order_book::{meta_model, MAX_STORED_ORDERS};
use crate::text::{concat, i64_text};

use super::super::error::{ErrorModel, ProductionError};
use super::super::rows::SzSide;
use super::super::snapshot::{leading_due, BookSnapshot};
use super::super::types::{MarketDayRequest, SnapshotKind};
use super::extension::extends;
use super::model::{
    book_side, key_of, normalize, one_sided, one_sided_error, order_key_error, price_error,
    quantity_error, snapshot_depth, Step, StepState,
};
use super::observe::{answered, ObservationPoint, Observed, StateObserver};
use super::report::{bump, ReplayReport, ReportModel};
use super::runtime::{BookRuntime, RuntimeModel, SnapshotOutput};

verus! {

/// What a row of one symbol works on.
pub open spec fn state_of<O: StateObserver>(
    runtime: BookRuntime,
    output: SnapshotOutput,
    observer: O,
    report: ReplayReport,
) -> StepState {
    StepState { runtime: runtime@, output: output@, log: observer.log(), report: report@ }
}

/// Whether an outcome is the one that a step describes. An observer may stop the replay: then
/// the outcome is its refusal, what it was shown is what the step shows first, and more than
/// was shown before, and the counts are those of the point that was reached.
pub open spec fn outcome_ok(
    step: Step,
    end: StepState,
    refusal: Option<ErrorModel>,
    r: Result<(), ProductionError>,
    shown: nat,
    counts: ReportModel,
) -> bool {
    match refusal {
        None => end == step.state && answered(r, step.error),
        Some(error) => {
            &&& r is Err
            &&& r->Err_0@ == error
            &&& extends(step.state.log, end.log)
            &&& shown < end.log.len()
            &&& end.report == counts
        },
    }
}

pub(crate) fn normalize_error(symbol: &str, sequence: u64, detail: &str) -> (r: ProductionError)
    ensures
        r@ == normalize(symbol@, sequence, detail@),
{
    ProductionError::Normalize {
        symbol: Symbol::from(symbol),
        sequence,
        detail: String::from_str(detail),
    }
}

pub(crate) fn order_key(
    channel: u32,
    side: Side,
    order_no: u64,
    symbol: &str,
    sequence: u64,
) -> (r: Result<OrderKey, ProductionError>)
    ensures
        match order_key_error(channel, order_no, symbol@, sequence) {
            Some(error) => r is Err && r->Err_0@ == error,
            None => r == Ok::<OrderKey, ProductionError>(key_of(channel, side, order_no)),
        },
{
    let channel_id = match ChannelId::new(channel) {
        Some(channel_id) => channel_id,
        None => return Err(normalize_error(symbol, sequence, "channel must be positive")),
    };
    let order_id = match OrderId::new(order_no) {
        Some(order_id) => order_id,
        None => return Err(normalize_error(symbol, sequence, "order id must be positive")),
    };
    Ok(OrderKey { channel_id, side, order_id })
}

/// The one side and number that a row names.
pub fn one_sided_reference(bid: u64, ask: u64, symbol: &str, sequence: u64) -> (r: Result<
    (Side, u64),
    ProductionError,
>)
    ensures
        match one_sided(bid, ask) {
            Some(reference) => r == Ok::<(Side, u64), ProductionError>(reference),
            None => r is Err && r->Err_0@ == one_sided_error(symbol@, sequence),
        },
{
    if bid > 0 && ask == 0 {
        Ok((Side::Buy, bid))
    } else if bid == 0 && ask > 0 {
        Ok((Side::Sell, ask))
    } else {
        Err(
            normalize_error(symbol, sequence, "expected exactly one nonzero order reference"),
        )
    }
}

pub(crate) fn price(value: i64, symbol: &str, sequence: u64) -> (r: Result<Price, ProductionError>)
    ensures
        match price_error(value, symbol@, sequence) {
            Some(error) => r is Err && r->Err_0@ == error,
            None => r == Ok::<Price, ProductionError>(Price::spec_new(value)),
        },
{
    match Price::from_units(value) {
        Some(price) => Ok(price),
        None => Err(
            normalize_error(
                symbol,
                sequence,
                concat("price must be positive: ", i64_text(value).as_str()).as_str(),
            ),
        ),
    }
}

pub(crate) fn quantity(value: u64, symbol: &str, sequence: u64) -> (r: Result<
    Quantity,
    ProductionError,
>)
    ensures
        match quantity_error(value, symbol@, sequence) {
            Some(error) => r is Err && r->Err_0@ == error,
            None => r == Ok::<Quantity, ProductionError>(Quantity::spec_new(value)),
        },
{
    match Quantity::new(value) {
        Some(quantity) => Ok(quantity),
        None => Err(normalize_error(symbol, sequence, "quantity must be positive")),
    }
}

pub(crate) fn sz_side(side: SzSide) -> (r: Side)
    ensures
        r == book_side(side),
{
    match side {
        SzSide::Buy => Side::Buy,
        SzSide::Sell => Side::Sell,
    }
}

/// The metadata of the next event of a book.
pub(crate) fn meta(
    runtime: &BookRuntime,
    raw_sequence: u64,
    local_time_ns: i64,
    quote_time_ns: i64,
) -> (r: Result<EventMeta, ProductionError>)
    requires
        runtime.wf(),
    ensures
        match runtime@.meta_error(raw_sequence) {
            Some(error) => r is Err && r->Err_0@ == error,
            None => {
                &&& r is Ok
                &&& meta_model(r->Ok_0) == runtime@.meta(raw_sequence, local_time_ns, quote_time_ns)
                &&& runtime.book@.meta_error(runtime.book.spec_config().book_key, r->Ok_0) is None
            },
        },
{
    let book_key = runtime.book.config().book_key.clone();
    let raw = match RawSequence::new(raw_sequence) {
        Some(raw) => raw,
        None => return Err(
            normalize_error(
                book_key.symbol.as_str(),
                raw_sequence,
                "raw sequence must be positive",
            ),
        ),
    };
    let apply_sequence = match runtime.book.next_apply_sequence() {
        Ok(sequence) => sequence,
        Err(source) => return Err(
            ProductionError::Apply { symbol: book_key.symbol, sequence: raw_sequence, source },
        ),
    };
    Ok(
        EventMeta {
            book_key,
            raw_sequence: raw,
            apply_sequence,
            local_time: LocalTimestampNs::from_nanos(local_time_ns),
            quote_time: QuoteTimestampNs::from_nanos(quote_time_ns),
        },
    )
}

/// Applies an event to the book of a symbol.
pub(crate) fn apply(
    runtime: &mut BookRuntime,
    event: BookEvent,
    symbol: &str,
    sequence: u64,
) -> (r: Result<(), ProductionError>)
    requires
        old(runtime).wf(),
        event is AddOrder ==> old(runtime)@.book.orders.len() < MAX_STORED_ORDERS,
    ensures
        final(runtime).wf(),
        final(runtime)@.book.orders.len() <= old(runtime)@.book.orders.len() + if event is AddOrder {
            1int
        } else {
            0
        },
        match old(runtime)@.book.apply_error(old(runtime).book.spec_config(), event) {
            Some(source) => {
                &&& r is Err
                &&& r->Err_0@ == (ErrorModel::Apply { symbol: symbol@, sequence, source })
                &&& final(runtime)@ == old(runtime)@
            },
            None => {
                &&& r is Ok
                &&& final(runtime)@ == (RuntimeModel {
                    book: old(runtime)@.book.apply_next(event),
                    ..old(runtime)@
                })
            },
        },
{
    proof {
        runtime.book.orders_are_finite();
        if runtime.book@.apply_error(runtime.book.spec_config(), event) is None {
            orders_come_one_at_a_time(runtime.book@, runtime.book.spec_config(), event);
        }
    }
    match runtime.book.apply(event) {
        Ok(_) => Ok(()),
        Err(source) => Err(
            ProductionError::Apply { symbol: Symbol::from(symbol), sequence, source },
        ),
    }
}

/// How many levels snapshots show.
pub(crate) fn depth(request: &MarketDayRequest) -> (r: usize)
    ensures
        r == snapshot_depth(*request),
{
    match request.snapshots {
        Some(schedule) => schedule.depth,
        None => 10,
    }
}

/// Records the snapshots that are due, or all that are left.
pub(crate) fn record_due(
    request: &MarketDayRequest,
    channel: u32,
    until: Option<i64>,
    runtime: &mut BookRuntime,
    output: &mut SnapshotOutput,
    report: &mut ReplayReport,
    Ghost(log): Ghost<Seq<Observed>>,
) -> (r: Result<(), ProductionError>)
    requires
        old(runtime).wf(),
        old(report).wf(),
    ensures
        final(runtime).wf(),
        final(report).wf(),
        ({
            let start = (StepState { runtime: old(runtime)@, output: old(output)@, log, report: old(report)@ });
            let times = start.runtime.cursor->0;
            let due = match until {
                Some(now) => leading_due(times, now),
                None => times.len(),
            };
            let step = start.recorded(due, channel, snapshot_depth(*request));
            &&& step.state == (StepState {
                runtime: final(runtime)@,
                output: final(output)@,
                log,
                report: final(report)@,
            })
            &&& match step.error {
                Some(error) => r is Err && r->Err_0@ == error,
                None => r is Ok,
            }
        }),
{
    let ghost start = StepState { runtime: runtime@, output: output@, log, report: report@ };
    if !output.enabled {
        return Ok(());
    }
    let due: Vec<i64> = match &mut runtime.cursor {
        Some(cursor) => match until {
            Some(now) => cursor.drain_due(now),
            None => cursor.finish(),
        },
        None => return Ok(()),
    };
    let levels: usize = depth(request);
    let ghost times = start.runtime.cursor->0;
    let ghost count = match until {
        Some(now) => leading_due(times, now),
        None => times.len(),
    };
    proof {
        if until is None {
            assert(times.take(times.len() as int) =~= times);
            assert(times.skip(times.len() as int) =~= Seq::empty());
            assert(runtime@.cursor->0 =~= Seq::empty());
        }
        assert(due@ == times.take(count as int));
        assert(runtime@.cursor->0 == times.skip(count as int));
        lemma_leading_due_bound(times, until);
    }
    report.scheduled_snapshots = match report.scheduled_snapshots.checked_add(due.len() as u64) {
        Some(total) => total,
        None => return Err(ProductionError::Arithmetic("scheduled snapshot count")),
    };
    let ghost captures = start.captures(times.take(count as int), channel, levels);
    let mut at: usize = 0;
    while at < due.len()
        invariant
            runtime.wf(),
            output@ is Some,
            at <= due@.len(),
            due@ == times.take(count as int),
            captures == start.captures(due@, channel, levels),
            runtime@.book == start.runtime.book,
            runtime@.symbol == start.runtime.symbol,
            output@->0 =~= start.output->0 + captures.take(at as int),
        decreases due@.len() - at,
    {
        output.push(
            BookSnapshot::capture(
                &runtime.book,
                channel,
                SnapshotKind::Scheduled,
                due[at],
                levels,
            ),
        );
        proof {
            assert(captures.take(at + 1) =~= captures.take(at as int).push(captures[at as int]));
        }
        at = at + 1;
    }
    assert(captures.take(at as int) =~= captures);
    Ok(())
}

proof fn lemma_leading_due_bound(times: Seq<i64>, until: Option<i64>)
    ensures
        until matches Some(now) ==> leading_due(times, now) <= times.len(),
    decreases times.len(),
{
    if let Some(now) = until {
        if times.len() > 0 && times[0] <= now {
            lemma_leading_due_bound(times.drop_first(), until);
        }
    }
}

/// What comes before a business event.
pub(crate) fn before_business_event<O: StateObserver>(
    request: &MarketDayRequest,
    channel: u32,
    symbol: &str,
    quote_time_ns: i64,
    runtime: &mut BookRuntime,
    output: &mut SnapshotOutput,
    observer: &mut O,
    report: &mut ReplayReport,
) -> (r: Result<(), ProductionError>)
    requires
        old(runtime).wf(),
        old(report).wf(),
        old(observer).ready(),
        old(observer).refusal() is None,
    ensures
        final(runtime).wf(),
        final(report).wf(),
        final(observer).ready(),
        final(observer).origin() == old(observer).origin(),
        outcome_ok(
            state_of(*old(runtime), *old(output), *old(observer), *old(report)).before_event(
                *request,
                channel,
                symbol@,
                quote_time_ns,
            ),
            state_of(*final(runtime), *final(output), *final(observer), *final(report)),
            final(observer).refusal(),
            r,
            old(observer).log().len(),
            state_of(*old(runtime), *old(output), *old(observer), *old(report)).before_event(
                *request,
                channel,
                symbol@,
                quote_time_ns,
            ).state.report,
        ),
        final(runtime)@.book == old(runtime)@.book,
{
    proof {
        reveal(StepState::before_event);
    }
    match runtime.check_business_quote_time(symbol, quote_time_ns) {
        Ok(back) => {
            if back {
                report.same_second_quote_time_regressions = match bump(
                    report.same_second_quote_time_regressions,
                    "same-second quote-time regression count",
                ) {
                    Ok(count) => count,
                    Err(error) => return Err(error),
                };
            }
        },
        Err(error) => return Err(error),
    }
    match record_due(
        request,
        channel,
        Some(quote_time_ns),
        runtime,
        output,
        report,
        Ghost(observer.log()),
    ) {
        Ok(()) => {},
        Err(error) => return Err(error),
    }
    observer.observe(channel, symbol, &runtime.book, ObservationPoint::BeforeEvent(quote_time_ns))
}

} // verus!
