//! Shenzhen orders and executions.

use vstd::prelude::*;

use crate::market_data::{
    AddOrder, BookEvent, CrossingBehavior, OrderCancel, PricingInstruction, Side, Trade,
};
use crate::order_book::MAX_STORED_ORDERS;
use crate::text::{concat, u64_text};

use super::super::error::ProductionError;
use super::super::rows::{SzExecutionKind, SzExecutionRow, SzOrderKind, SzOrderRow};
use super::super::types::{MarketDayRequest, SzMarketOrderPolicy};
use super::event::{
    apply, before_business_event, meta, normalize_error, one_sided_reference, order_key,
    outcome_ok, price, quantity, state_of, sz_side,
};
use super::model::StepState;
use super::observe::{ObservationPoint, StateObserver};
use super::report::{bump, ReplayReport};
use super::runtime::{BookRuntime, SnapshotOutput};

verus! {

/// The last instant whose time of day can be told.
pub const LAST_QUOTE_TIME_NS: i64 = 9_223_343_236_854_775_807;

fn sz_pricing(row: &SzOrderRow, same_side_price_available: bool) -> (r: Result<
    PricingInstruction,
    ProductionError,
>)
    ensures
        match super::model::price_error(row.price_units, row.symbol@, row.sequence) {
            Some(error) => if row.kind == SzOrderKind::Limit {
                r is Err && r->Err_0@ == error
            } else {
                r == Ok::<PricingInstruction, ProductionError>(
                    StepState::sz_pricing(*row, same_side_price_available),
                )
            },
            None => r == Ok::<PricingInstruction, ProductionError>(
                StepState::sz_pricing(*row, same_side_price_available),
            ),
        },
{
    match row.kind {
        SzOrderKind::Market => Ok(PricingInstruction::Unpriced),
        SzOrderKind::Limit => match price(row.price_units, row.symbol.as_str(), row.sequence) {
            Ok(price) => Ok(PricingInstruction::Provided(price)),
            Err(error) => Err(error),
        },
        SzOrderKind::SameSideBest => if same_side_price_available {
            Ok(PricingInstruction::SameSideBest)
        } else {
            Ok(PricingInstruction::Unpriced)
        },
    }
}

fn sz_crossing(
    policy: SzMarketOrderPolicy,
    row: &SzOrderRow,
    same_side_price_available: bool,
) -> (r: CrossingBehavior)
    ensures
        r == StepState::sz_crossing(policy, *row, same_side_price_available),
{
    match row.kind {
        SzOrderKind::Market => if policy == SzMarketOrderPolicy::RestAtLastTradePrice {
            CrossingBehavior::RestAtLastTradePrice
        } else {
            CrossingBehavior::AlwaysHide
        },
        SzOrderKind::SameSideBest => if same_side_price_available {
            CrossingBehavior::Rest
        } else {
            CrossingBehavior::AlwaysHide
        },
        SzOrderKind::Limit => CrossingBehavior::Rest,
    }
}

/// The event of a Shenzhen order.
fn sz_order_event(
    request: &MarketDayRequest,
    channel: u32,
    row: &SzOrderRow,
    runtime: &BookRuntime,
    same_side_price_available: bool,
    Ghost(start): Ghost<StepState>,
) -> (r: Result<AddOrder, ProductionError>)
    requires
        runtime.wf(),
        start.runtime == runtime@,
    ensures
        match start.sz_order_error(channel, *row) {
            Some(error) => r is Err && r->Err_0@ == error,
            None => {
                &&& r is Ok
                &&& crate::order_book::meta_model(r->Ok_0.meta) == runtime@.meta(
                    row.sequence,
                    row.local_time_ns,
                    row.quote_time_ns,
                )
                &&& runtime.book@.meta_error(
                    runtime.book.spec_config().book_key,
                    r->Ok_0.meta,
                ) is None
                &&& r->Ok_0.order_key == super::model::key_of(
                    channel,
                    super::model::book_side(row.side),
                    row.sequence,
                )
                &&& r->Ok_0.pricing == StepState::sz_pricing(*row, same_side_price_available)
                &&& r->Ok_0.crossing == StepState::sz_crossing(
                    request.sz_market_order_policy,
                    *row,
                    same_side_price_available,
                )
                &&& r->Ok_0.quantity == crate::market_data::Quantity::spec_new(row.quantity)
            },
        },
{
    let symbol = row.symbol.as_str();
    let order_key = match order_key(channel, sz_side(row.side), row.sequence, symbol, row.sequence) {
        Ok(key) => key,
        Err(error) => return Err(error),
    };
    let pricing = match sz_pricing(row, same_side_price_available) {
        Ok(pricing) => pricing,
        Err(error) => return Err(error),
    };
    let crossing = sz_crossing(request.sz_market_order_policy, row, same_side_price_available);
    let meta = match meta(runtime, row.sequence, row.local_time_ns, row.quote_time_ns) {
        Ok(meta) => meta,
        Err(error) => return Err(error),
    };
    let quantity = match quantity(row.quantity, symbol, row.sequence) {
        Ok(quantity) => quantity,
        Err(error) => return Err(error),
    };
    Ok(AddOrder { meta, order_key, pricing, crossing, quantity })
}

/// Counts an applied event and shows the observer the book.
pub(crate) fn count_applied<O: StateObserver>(
    channel: u32,
    symbol: &str,
    quote_time_ns: i64,
    runtime: &BookRuntime,
    output: &SnapshotOutput,
    observer: &mut O,
    report: &mut ReplayReport,
) -> (r: Result<(), ProductionError>)
    requires
        runtime.wf(),
        old(report).wf(),
        old(observer).ready(),
        old(observer).refusal() is None,
    ensures
        final(report).wf(),
        final(observer).ready(),
        final(observer).origin() == old(observer).origin(),
        outcome_ok(
            state_of(*runtime, *output, *old(observer), *old(report)).counted(
                channel,
                symbol@,
                quote_time_ns,
            ),
            state_of(*runtime, *output, *final(observer), *final(report)),
            final(observer).refusal(),
            r,
            old(observer).log().len(),
            state_of(*runtime, *output, *old(observer), *old(report)).counted(
                channel,
                symbol@,
                quote_time_ns,
            ).state.report,
        ),
{
    report.applied_events = match bump(report.applied_events, "applied event count") {
        Ok(count) => count,
        Err(error) => return Err(error),
    };
    observer.observe(channel, symbol, &runtime.book, ObservationPoint::AfterEvent(quote_time_ns))
}

/// Replays one Shenzhen order.
pub fn process_sz_order<O: StateObserver>(
    request: &MarketDayRequest,
    channel: u32,
    row: &SzOrderRow,
    runtime: &mut BookRuntime,
    same_side_price_available: bool,
    output: &mut SnapshotOutput,
    observer: &mut O,
    report: &mut ReplayReport,
) -> (r: Result<(), ProductionError>)
    requires
        old(runtime).wf(),
        old(report).wf(),
        old(observer).ready(),
        old(observer).refusal() is None,
        row.quote_time_ns <= LAST_QUOTE_TIME_NS,
        old(runtime)@.book.orders.len() < MAX_STORED_ORDERS,
    ensures
        final(runtime).wf(),
        final(report).wf(),
        final(observer).ready(),
        final(observer).origin() == old(observer).origin(),
        outcome_ok(
            state_of(*old(runtime), *old(output), *old(observer), *old(report)).sz_order(
                *request,
                channel,
                *row,
                same_side_price_available,
            ),
            state_of(*final(runtime), *final(output), *final(observer), *final(report)),
            final(observer).refusal(),
            r,
            old(observer).log().len(),
            state_of(*old(runtime), *old(output), *old(observer), *old(report)).sz_order_counts(
                *request,
                channel,
                *row,
                same_side_price_available,
                final(observer).log().len(),
            ),
        ),
        final(runtime)@.book.orders.len() <= old(runtime)@.book.orders.len() + 1,
{
    proof {
        reveal(StepState::sz_order);
        let start = state_of(*runtime, *output, *observer, *report);
        start.lemma_before_event(*request, channel, row.symbol@, row.quote_time_ns);
        start.lemma_sz_order(
            *request,
            channel,
            *row,
            same_side_price_available,
        );
    }
    let symbol = row.symbol.as_str();
    match before_business_event(
        request,
        channel,
        symbol,
        row.quote_time_ns,
        runtime,
        output,
        observer,
        report,
    ) {
        Ok(()) => {},
        Err(error) => return Err(error),
    }
    let ghost start = state_of(*runtime, *output, *observer, *report);
    let event = match sz_order_event(
        request,
        channel,
        row,
        runtime,
        same_side_price_available,
        Ghost(start),
    ) {
        Ok(event) => event,
        Err(error) => return Err(error),
    };
    let side = sz_side(row.side);
    let key = event.order_key;
    match apply(runtime, BookEvent::AddOrder(event), symbol, row.sequence) {
        Ok(()) => {},
        Err(error) => return Err(error),
    }
    match report.observe_sz_applied_event(symbol, row.quote_time_ns) {
        Ok(()) => {},
        Err(error) => return Err(error),
    }
    if row.kind == SzOrderKind::Limit {
        report.sz_direct_rest_limit_orders = match bump(
            report.sz_direct_rest_limit_orders,
            "SZ direct rest limit order count",
        ) {
            Ok(count) => count,
            Err(error) => return Err(error),
        };
    }
    runtime.remember(side, row.sequence, key);
    count_applied(channel, symbol, row.quote_time_ns, runtime, output, observer, report)
}

/// The event of a Shenzhen execution.
fn sz_execution_event(row: &SzExecutionRow, runtime: &BookRuntime, Ghost(start): Ghost<StepState>) -> (r:
    Result<BookEvent, ProductionError>)
    requires
        runtime.wf(),
        start.runtime == runtime@,
    ensures
        match start.sz_execution_result(*row) {
            Err(error) => {
                ||| r is Err && r->Err_0@ == error
                ||| {
                    &&& r is Ok
                    &&& !(r->Ok_0 is AddOrder)
                    &&& error is Apply
                    &&& error->Apply_symbol == row.symbol@
                    &&& error->Apply_sequence == row.sequence
                    &&& runtime@.book.apply_error(runtime.book.spec_config(), r->Ok_0) == Some(
                        error->Apply_source,
                    )
                }
            },
            Ok(book) => {
                &&& r is Ok
                &&& !(r->Ok_0 is AddOrder)
                &&& runtime@.book.apply_error(runtime.book.spec_config(), r->Ok_0) is None
                &&& runtime@.book.apply_next(r->Ok_0) == book
            },
        },
{
    let symbol = row.symbol.as_str();
    match row.kind {
        SzExecutionKind::Trade => {
            let meta = match meta(runtime, row.sequence, row.local_time_ns, row.quote_time_ns) {
                Ok(meta) => meta,
                Err(error) => return Err(error),
            };
            let bid_order = runtime.sz_reference(Side::Buy, row.bid_order_no);
            let ask_order = runtime.sz_reference(Side::Sell, row.ask_order_no);
            let price = match price(row.price_units, symbol, row.sequence) {
                Ok(price) => price,
                Err(error) => return Err(error),
            };
            let quantity = match quantity(row.quantity, symbol, row.sequence) {
                Ok(quantity) => quantity,
                Err(error) => return Err(error),
            };
            Ok(BookEvent::Trade(Trade { meta, bid_order, ask_order, price, quantity }))
        },
        SzExecutionKind::Cancel => {
            let (side, order_no) = match one_sided_reference(
                row.bid_order_no,
                row.ask_order_no,
                symbol,
                row.sequence,
            ) {
                Ok(reference) => reference,
                Err(error) => return Err(error),
            };
            let (order_key, remaining) = match runtime.active_reference_with_remaining(
                side,
                order_no,
            ) {
                Some(target) => target,
                None => return Err(
                    normalize_error(symbol, row.sequence, "unknown cancellation target"),
                ),
            };
            if remaining != row.quantity {
                let detail = concat(
                    concat(
                        concat("cancellation quantity ", u64_text(row.quantity).as_str()).as_str(),
                        " does not equal remaining ",
                    ).as_str(),
                    u64_text(remaining).as_str(),
                );
                return Err(normalize_error(symbol, row.sequence, detail.as_str()));
            }
            let meta = match meta(runtime, row.sequence, row.local_time_ns, row.quote_time_ns) {
                Ok(meta) => meta,
                Err(error) => return Err(error),
            };
            Ok(BookEvent::OrderCancel(OrderCancel { meta, order_key }))
        },
    }
}

/// Replays one Shenzhen execution.
pub fn process_sz_execution<O: StateObserver>(
    request: &MarketDayRequest,
    channel: u32,
    row: &SzExecutionRow,
    runtime: &mut BookRuntime,
    output: &mut SnapshotOutput,
    observer: &mut O,
    report: &mut ReplayReport,
) -> (r: Result<(), ProductionError>)
    requires
        old(runtime).wf(),
        old(report).wf(),
        old(observer).ready(),
        old(observer).refusal() is None,
        row.quote_time_ns <= LAST_QUOTE_TIME_NS,
    ensures
        final(runtime).wf(),
        final(report).wf(),
        final(observer).ready(),
        final(observer).origin() == old(observer).origin(),
        outcome_ok(
            state_of(*old(runtime), *old(output), *old(observer), *old(report)).sz_execution(
                *request,
                channel,
                *row,
            ),
            state_of(*final(runtime), *final(output), *final(observer), *final(report)),
            final(observer).refusal(),
            r,
            old(observer).log().len(),
            state_of(*old(runtime), *old(output), *old(observer), *old(report)).sz_execution_counts(
                *request,
                channel,
                *row,
                final(observer).log().len(),
            ),
        ),
        final(runtime)@.book.orders.len() <= old(runtime)@.book.orders.len(),
{
    proof {
        reveal(StepState::sz_execution);
        let start = state_of(*runtime, *output, *observer, *report);
        start.lemma_before_event(*request, channel, row.symbol@, row.quote_time_ns);
        start.lemma_sz_execution(
            *request,
            channel,
            *row,
        );
    }
    let symbol = row.symbol.as_str();
    match before_business_event(
        request,
        channel,
        symbol,
        row.quote_time_ns,
        runtime,
        output,
        observer,
        report,
    ) {
        Ok(()) => {},
        Err(error) => return Err(error),
    }
    let ghost start = state_of(*runtime, *output, *observer, *report);
    let event = match sz_execution_event(row, runtime, Ghost(start)) {
        Ok(event) => event,
        Err(error) => return Err(error),
    };
    match apply(runtime, event, symbol, row.sequence) {
        Ok(()) => {},
        Err(error) => return Err(error),
    }
    match report.observe_sz_applied_event(symbol, row.quote_time_ns) {
        Ok(()) => {},
        Err(error) => return Err(error),
    }
    if row.kind == SzExecutionKind::Trade {
        match observer.observe_trade_with_sequence(
            channel,
            symbol,
            row.sequence,
            row.quote_time_ns,
            row.price_units,
            row.quantity,
        ) {
            Ok(()) => {},
            Err(error) => return Err(error),
        }
    }
    count_applied(channel, symbol, row.quote_time_ns, runtime, output, observer, report)
}

} // verus!
