//! Shanghai rows, and the close of a symbol.

use vstd::prelude::*;

use crate::market_data::{
    AddOrder, BookEvent, CrossingBehavior, Market, OrderCancel, OrderId, OrderReference,
    PricingInstruction, Side, Trade,
};
use crate::order_book::{side_name, MAX_STORED_ORDERS};
use crate::text::{concat, u64_text};

use super::super::error::ProductionError;
use super::super::rows::{Aggressor, SseKind, SseRow};
use super::super::snapshot::BookSnapshot;
use super::super::types::{MarketDayRequest, SnapshotKind};
use super::event::{
    apply, before_business_event, depth, meta, normalize_error, one_sided_reference, order_key,
    outcome_ok, price, quantity, record_due, state_of,
};
use super::model::{aggressive, StepState};
use super::observe::{ObservationPoint, StateObserver};
use super::report::{bump, ReplayReport};
use super::runtime::{BookRuntime, RuntimeModel, SnapshotOutput};
use super::sz::count_applied;

verus! {

fn is_aggressive(side: Side, flag: Aggressor) -> (r: bool)
    ensures
        r == aggressive(side, flag),
{
    match (side, flag) {
        (Side::Buy, Aggressor::Buy) => true,
        (Side::Sell, Aggressor::Sell) => true,
        _ => false,
    }
}

/// The order that one side of a Shanghai trade names.
pub(crate) fn sse_trade_reference(
    runtime: &BookRuntime,
    side: Side,
    row: &SseRow,
    order_no: u64,
    Ghost(start): Ghost<StepState>,
) -> (r: Result<OrderReference, ProductionError>)
    requires
        runtime.wf(),
        start.runtime == runtime@,
    ensures
        match start.sse_reference(side, *row, order_no) {
            Ok(reference) => r == Ok::<OrderReference, ProductionError>(reference),
            Err(error) => r is Err && r->Err_0@ == error,
        },
{
    let symbol = row.symbol.as_str();
    if order_no == 0 {
        return if is_aggressive(side, row.flag) {
            Ok(OrderReference::Absent)
        } else {
            Err(
                normalize_error(
                    symbol,
                    row.sequence,
                    "passive or neutral trade reference is absent",
                ),
            )
        };
    }
    if let Some(key) = runtime.active_reference(side, order_no) {
        return Ok(OrderReference::Resolved(key));
    }
    if is_aggressive(side, row.flag) {
        match OrderId::new(order_no) {
            Some(order_id) => Ok(OrderReference::Unresolved { side, order_id }),
            None => Err(normalize_error(symbol, row.sequence, "trade order id must be positive")),
        }
    } else {
        let detail = concat(
            concat(
                concat("unknown passive ", side_name(side)).as_str(),
                " order ",
            ).as_str(),
            u64_text(order_no).as_str(),
        );
        Err(normalize_error(symbol, row.sequence, detail.as_str()))
    }
}

fn apply_sse_add(runtime: &mut BookRuntime, row: &SseRow, Ghost(start): Ghost<StepState>) -> (r:
    Result<(), ProductionError>)
    requires
        old(runtime).wf(),
        start.runtime == old(runtime)@,
        old(runtime)@.book.orders.len() < MAX_STORED_ORDERS,
    ensures
        final(runtime).wf(),
        final(runtime)@.book.orders.len() <= old(runtime)@.book.orders.len() + 1,
        match start.sse_add(*row) {
            Ok(next) => r is Ok && final(runtime)@ == next,
            Err(error) => r is Err && r->Err_0@ == error && final(runtime)@ == old(runtime)@,
        },
{
    let symbol = row.symbol.as_str();
    let (side, order_no) = match one_sided_reference(
        row.buy_order_no,
        row.sell_order_no,
        symbol,
        row.sequence,
    ) {
        Ok(reference) => reference,
        Err(error) => return Err(error),
    };
    if !is_aggressive(side, row.flag) {
        return Err(normalize_error(symbol, row.sequence, "add side does not match TickBSFlag"));
    }
    let key = match order_key(row.channel, side, order_no, symbol, row.sequence) {
        Ok(key) => key,
        Err(error) => return Err(error),
    };
    let meta = match meta(runtime, row.sequence, row.local_time_ns, row.quote_time_ns) {
        Ok(meta) => meta,
        Err(error) => return Err(error),
    };
    let price = match price(row.price_units, symbol, row.sequence) {
        Ok(price) => price,
        Err(error) => return Err(error),
    };
    let quantity = match quantity(row.quantity, symbol, row.sequence) {
        Ok(quantity) => quantity,
        Err(error) => return Err(error),
    };
    let event = BookEvent::AddOrder(
        AddOrder {
            meta,
            order_key: key,
            pricing: PricingInstruction::Provided(price),
            crossing: CrossingBehavior::Rest,
            quantity,
        },
    );
    match apply(runtime, event, symbol, row.sequence) {
        Ok(()) => {},
        Err(error) => return Err(error),
    }
    runtime.remember(side, order_no, key);
    Ok(())
}

fn apply_sse_delete(runtime: &mut BookRuntime, row: &SseRow, Ghost(start): Ghost<StepState>) -> (r:
    Result<(), ProductionError>)
    requires
        old(runtime).wf(),
        start.runtime == old(runtime)@,
    ensures
        final(runtime).wf(),
        final(runtime)@.book.orders.len() <= old(runtime)@.book.orders.len(),
        match start.sse_delete(*row) {
            Ok(book) => r is Ok && final(runtime)@ == (RuntimeModel { book, ..old(runtime)@ }),
            Err(error) => r is Err && r->Err_0@ == error && final(runtime)@ == old(runtime)@,
        },
{
    let symbol = row.symbol.as_str();
    let (side, order_no) = match one_sided_reference(
        row.buy_order_no,
        row.sell_order_no,
        symbol,
        row.sequence,
    ) {
        Ok(reference) => reference,
        Err(error) => return Err(error),
    };
    let order_key = match runtime.active_reference(side, order_no) {
        Some(key) => key,
        None => return Err(normalize_error(symbol, row.sequence, "unknown deletion target")),
    };
    let meta = match meta(runtime, row.sequence, row.local_time_ns, row.quote_time_ns) {
        Ok(meta) => meta,
        Err(error) => return Err(error),
    };
    apply(runtime, BookEvent::OrderCancel(OrderCancel { meta, order_key }), symbol, row.sequence)
}

fn apply_sse_trade(runtime: &mut BookRuntime, row: &SseRow, Ghost(start): Ghost<StepState>) -> (r:
    Result<(), ProductionError>)
    requires
        old(runtime).wf(),
        start.runtime == old(runtime)@,
    ensures
        final(runtime).wf(),
        final(runtime)@.book.orders.len() <= old(runtime)@.book.orders.len(),
        match start.sse_trade(*row) {
            Ok(book) => r is Ok && final(runtime)@ == (RuntimeModel { book, ..old(runtime)@ }),
            Err(error) => r is Err && r->Err_0@ == error && final(runtime)@ == old(runtime)@,
        },
{
    let symbol = row.symbol.as_str();
    let meta = match meta(runtime, row.sequence, row.local_time_ns, row.quote_time_ns) {
        Ok(meta) => meta,
        Err(error) => return Err(error),
    };
    let bid_order = match sse_trade_reference(
        runtime,
        Side::Buy,
        row,
        row.buy_order_no,
        Ghost(start),
    ) {
        Ok(reference) => reference,
        Err(error) => return Err(error),
    };
    let ask_order = match sse_trade_reference(
        runtime,
        Side::Sell,
        row,
        row.sell_order_no,
        Ghost(start),
    ) {
        Ok(reference) => reference,
        Err(error) => return Err(error),
    };
    let price = match price(row.price_units, symbol, row.sequence) {
        Ok(price) => price,
        Err(error) => return Err(error),
    };
    let quantity = match quantity(row.quantity, symbol, row.sequence) {
        Ok(quantity) => quantity,
        Err(error) => return Err(error),
    };
    let event = BookEvent::Trade(Trade { meta, bid_order, ask_order, price, quantity });
    apply(runtime, event, symbol, row.sequence)
}

/// Applies one Shanghai order, deletion or trade to the symbol's state.
pub(crate) fn apply_sse_row(
    runtime: &mut BookRuntime,
    row: &SseRow,
    Ghost(start): Ghost<StepState>,
) -> (r: Result<(), ProductionError>)
    requires
        old(runtime).wf(),
        start.runtime == old(runtime)@,
        old(runtime)@.book.orders.len() < MAX_STORED_ORDERS,
    ensures
        final(runtime).wf(),
        final(runtime)@.book.orders.len() <= old(runtime)@.book.orders.len() + 1,
        match start.sse_result(*row) {
            Ok(next) => r is Ok && final(runtime)@ == next,
            Err(error) => r is Err && r->Err_0@ == error && final(runtime)@ == old(runtime)@,
        },
{
    match row.kind {
        SseKind::Add => apply_sse_add(runtime, row, Ghost(start)),
        SseKind::Delete => apply_sse_delete(runtime, row, Ghost(start)),
        SseKind::Trade => apply_sse_trade(runtime, row, Ghost(start)),
        SseKind::Status => Err(
            normalize_error(row.symbol.as_str(), row.sequence, "status row cannot be applied"),
        ),
    }
}

/// Takes the closing snapshot of a symbol, once.
pub(crate) fn emit_market_close<O: StateObserver>(
    request: &MarketDayRequest,
    channel: u32,
    symbol: &str,
    boundary_time_ns: i64,
    runtime: &mut BookRuntime,
    output: &mut SnapshotOutput,
    observer: &mut O,
    report: &mut ReplayReport,
) -> (r: Result<(), ProductionError>)
    requires
        old(runtime).wf(),
        old(report).wf(),
        old(observer).ready(),
        old(observer).refusal() is None,
    ensures
        final(runtime).wf(),
        final(report).wf(),
        final(observer).ready(),
        final(observer).origin() == old(observer).origin(),
        outcome_ok(
            state_of(*old(runtime), *old(output), *old(observer), *old(report)).market_close(
                *request,
                channel,
                symbol@,
                boundary_time_ns,
            ),
            state_of(*final(runtime), *final(output), *final(observer), *final(report)),
            final(observer).refusal(),
            r,
            old(observer).log().len(),
            old(report)@,
        ),
        final(runtime)@.book == old(runtime)@.book,
{
    if runtime.market_close_emitted {
        return Ok(());
    }
    if output.enabled {
        let snapshot = BookSnapshot::capture(
            &runtime.book,
            channel,
            SnapshotKind::MarketClose,
            boundary_time_ns,
            depth(request),
        );
        if request.market == Market::Sse {
            runtime.pending_close_snapshot = Some(snapshot);
        } else {
            output.push(snapshot);
        }
    }
    match observer.observe(
        channel,
        symbol,
        &runtime.book,
        ObservationPoint::MarketClose(boundary_time_ns),
    ) {
        Ok(()) => {},
        Err(error) => return Err(error),
    }
    runtime.market_close_emitted = true;
    report.market_close_snapshots = match bump(
        report.market_close_snapshots,
        "market close snapshot count",
    ) {
        Ok(count) => count,
        Err(error) => return Err(error),
    };
    Ok(())
}

/// Replays one Shanghai row.
pub fn process_sse_row<O: StateObserver>(
    request: &MarketDayRequest,
    channel: u32,
    row: &SseRow,
    runtime: &mut BookRuntime,
    output: &mut SnapshotOutput,
    observer: &mut O,
    report: &mut ReplayReport,
) -> (r: Result<(), ProductionError>)
    requires
        old(runtime).wf(),
        old(report).wf(),
        old(observer).ready(),
        old(observer).refusal() is None,
        old(runtime)@.book.orders.len() < MAX_STORED_ORDERS,
    ensures
        final(runtime).wf(),
        final(report).wf(),
        final(observer).ready(),
        final(observer).origin() == old(observer).origin(),
        outcome_ok(
            state_of(*old(runtime), *old(output), *old(observer), *old(report)).sse_row(
                *request,
                channel,
                *row,
            ),
            state_of(*final(runtime), *final(output), *final(observer), *final(report)),
            final(observer).refusal(),
            r,
            old(observer).log().len(),
            state_of(*old(runtime), *old(output), *old(observer), *old(report)).sse_row_counts(
                *request,
                channel,
                *row,
                final(observer).log().len(),
            ),
        ),
        final(runtime)@.book.orders.len() <= old(runtime)@.book.orders.len() + 1,
{
    proof {
        reveal(StepState::sse_row);
        let start = state_of(*runtime, *output, *observer, *report);
        start.lemma_sse_row(*request, channel, *row);
        start.lemma_before_event(*request, channel, row.symbol@, row.quote_time_ns);
    }
    let symbol = row.symbol.as_str();
    if row.kind == SseKind::Status {
        // Auction orders can be published after CCALL with an earlier TickTime. Keep native
        // BizIndex order, but never let a status advance scheduled snapshots or expire
        // ordinary validation windows.
        report.status_events = match bump(report.status_events, "status event count") {
            Ok(count) => count,
            Err(error) => return Err(error),
        };
        if row.status == 2 {
            return emit_market_close(
                request,
                channel,
                symbol,
                row.quote_time_ns,
                runtime,
                output,
                observer,
                report,
            );
        }
        return Ok(());
    }
    if runtime.market_close_emitted {
        return Err(
            normalize_error(
                symbol,
                row.sequence,
                "business event after Shanghai CLOSE checkpoint",
            ),
        );
    }
    match before_business_event(
        request,
        channel,
        symbol,
        row.quote_time_ns,
        runtime,
        output,
        observer,
        report,
    ) {
        Ok(()) => {},
        Err(error) => return Err(error),
    }
    let ghost start = state_of(*runtime, *output, *observer, *report);
    match apply_sse_row(runtime, row, Ghost(start)) {
        Ok(()) => {},
        Err(error) => return Err(error),
    }
    count_applied(channel, symbol, row.quote_time_ns, runtime, output, observer, report)
}

/// Ends a channel for one symbol.
pub(crate) fn finish_symbol<O: StateObserver>(
    request: &MarketDayRequest,
    channel: u32,
    symbol: &str,
    close: Option<i64>,
    runtime: &mut BookRuntime,
    output: &mut SnapshotOutput,
    observer: &mut O,
    report: &mut ReplayReport,
) -> (r: Result<(), ProductionError>)
    requires
        old(runtime).wf(),
        old(report).wf(),
        old(observer).ready(),
        old(observer).refusal() is None,
    ensures
        final(runtime).wf(),
        final(report).wf(),
        final(observer).ready(),
        final(observer).origin() == old(observer).origin(),
        outcome_ok(
            state_of(*old(runtime), *old(output), *old(observer), *old(report)).channel_end(
                *request,
                channel,
                symbol@,
                close,
            ),
            state_of(*final(runtime), *final(output), *final(observer), *final(report)),
            final(observer).refusal(),
            r,
            old(observer).log().len(),
            state_of(*old(runtime), *old(output), *old(observer), *old(report)).channel_end_counts(
                *request,
                channel,
                symbol@,
                close,
                final(observer).log().len(),
            ),
        ),
{
    proof {
        reveal(StepState::channel_end);
    }
    match record_due(request, channel, None, runtime, output, report, Ghost(observer.log())) {
        Ok(()) => {},
        Err(error) => return Err(error),
    }
    if let Some(close) = close {
        // The channel's end is the close only where both native streams are exhausted. It is
        // never before a later event: a final state after the close requires phase review.
        let boundary: i64 = match runtime.last_business_quote_time_ns {
            Some(last) => if last > close {
                last
            } else {
                close
            },
            None => close,
        };
        match emit_market_close(
            request,
            channel,
            symbol,
            boundary,
            runtime,
            output,
            observer,
            report,
        ) {
            Ok(()) => {},
            Err(error) => return Err(error),
        }
    }
    if let Some(snapshot) = runtime.pending_close_snapshot.take() {
        if output.enabled {
            output.push(snapshot);
        }
    }
    observer.observe(channel, symbol, &runtime.book, ObservationPoint::ChannelFinished)
}

} // verus!
