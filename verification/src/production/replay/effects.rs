//! What each row of a feed does to the book that it is replayed into.

use vstd::prelude::*;

use crate::market_data::{
    BookEvent, EventMeta, Market, OrderKey, OrderReference, Price, Quantity, Side, Trade,
};
use crate::order_book::effects::{is_top, joined, opposite, reaches, traded_side};
use crate::order_book::{BookModel, OrderLocation, UnknownTradePolicy};

use super::super::effects::answers;
use super::super::error::ErrorModel;
use super::super::input::IngestStats;
use super::super::rows::{
    Aggressor, SseKind, SseRow, SzExecutionKind, SzExecutionRow, SzOrderKind, SzOrderRow, SzSide,
};
use super::super::snapshot::{SnapshotBookModel, SnapshotModel};
use super::super::sz_pending::PendingOrder;
use super::super::types::{MarketDayRequest, SnapshotKind, SzMarketOrderPolicy};
use super::channel::{waits, ChannelState, ChannelStep};
use super::day::opening_model;
use super::group::{collected, next_sequence};
use super::model::{final_boundary, key_of, StepState};
use super::observe::{ObservationPoint, Observed};
use super::report::{ReportModel, SequenceRegression, SequenceRepair};
use super::runtime::{market_policy, RuntimeModel};

verus! {

/// The key of an order holds the channel, the side and the number that it was made of.
pub proof fn keys_hold_what_they_are_made_of(channel: u32, side: Side, order_no: u64)
    ensures
        key_of(channel, side, order_no).channel_id.spec_get() == channel,
        key_of(channel, side, order_no).side == side,
        key_of(channel, side, order_no).order_id.spec_get() == order_no,
{
}

/// The side of the book that a Shenzhen row is on.
pub open spec fn side_of_row(side: SzSide) -> Side {
    match side {
        SzSide::Buy => Side::Buy,
        SzSide::Sell => Side::Sell,
    }
}

/// Announcing an event leaves the book and its orders alone.
pub(crate) proof fn lemma_announced(
    state: StepState,
    request: MarketDayRequest,
    channel: u32,
    symbol: Seq<char>,
    quote_time_ns: i64,
)
    ensures
        ({
            let next = state.before_event(request, channel, symbol, quote_time_ns).state;
            &&& next.runtime.book == state.runtime.book
            &&& next.runtime.references == state.runtime.references
            &&& next.runtime.policy == state.runtime.policy
            &&& next.runtime.symbol == state.runtime.symbol
            &&& next.runtime.close_emitted == state.runtime.close_emitted
            &&& next.report.applied_events == state.report.applied_events
            &&& next.report.status_events == state.report.status_events
            &&& next.report.sz_direct_rest_limit_orders == state.report.sz_direct_rest_limit_orders
        }),
{
    reveal(StepState::before_event);
}

/// Whether a book keeps the sequence and the times of a row as those of its last event.
pub open spec fn stamped_by(book: BookModel, sequence: u64, local_ns: i64, quote_ns: i64) -> bool {
    &&& book.last_meta is Some
    &&& book.last_meta->0.raw_sequence.spec_get() == sequence
    &&& book.last_meta->0.local_time.spec_nanos() == local_ns
    &&& book.last_meta->0.quote_time.spec_nanos() == quote_ns
}

/// Whether the observer was last shown a book after an event.
pub open spec fn shown_last(
    state: StepState,
    channel: u32,
    symbol: Seq<char>,
    quote_time_ns: i64,
) -> bool {
    &&& state.log.len() > 0
    &&& state.log.last() == Observed::State {
        channel,
        symbol,
        book: state.runtime.book,
        point: ObservationPoint::AfterEvent(quote_time_ns),
    }
}

/// A Shenzhen order enters the book on its side with its quantity. A limit order is visible at
/// its price, behind all orders there. A market order is hidden; only where the policy rests
/// remainders at their last trade may trades price it and show it. A same-side-best order is
/// visible at the best price of its own side, or hidden for good where its side is empty.
pub proof fn shenzhen_orders_enter_the_book(
    state: StepState,
    request: MarketDayRequest,
    channel: u32,
    row: SzOrderRow,
    same_side: bool,
)
    requires
        state.runtime.book.wf(),
        state.sz_order(request, channel, row, same_side).error is None,
    ensures
        ({
            let book = state.runtime.book;
            let after = state.sz_order(request, channel, row, same_side).state;
            let next = after.runtime.book;
            let side = side_of_row(row.side);
            let key = key_of(channel, side, row.sequence);
            let order = next.orders[key];
            let rests = request.sz_market_order_policy == SzMarketOrderPolicy::RestAtLastTradePrice;
            &&& !book.orders.contains_key(key)
            &&& next.orders == book.orders.insert(key, order)
            &&& order.original_quantity.spec_get() == row.quantity
            &&& order.remaining_quantity == row.quantity
            &&& match row.kind {
                SzOrderKind::Limit => {
                    &&& order.location == OrderLocation::Resting
                    &&& order.effective_price is Some
                    &&& order.effective_price->0.spec_units() == row.price_units
                },
                SzOrderKind::Market => {
                    &&& order.location == OrderLocation::Aggressive
                    &&& order.allow_reentry == rests
                    &&& order.reprice_from_trade == rests
                },
                SzOrderKind::SameSideBest => if same_side {
                    &&& order.location == OrderLocation::Resting
                    &&& order.effective_price is Some
                    &&& is_top(side, book.side(side), order.effective_price->0)
                } else {
                    &&& order.location == OrderLocation::Aggressive
                    &&& !order.allow_reentry
                },
            }
            &&& order.location == OrderLocation::Resting ==> joined(
                book.side(side),
                next.side(side),
                order.effective_price->0,
                key,
                row.quantity as int,
            ) && opposite(next, side) == opposite(book, side)
            &&& order.location == OrderLocation::Aggressive ==> next.bids == book.bids
                && next.asks == book.asks
            &&& next.statistics == book.statistics
            &&& stamped_by(next, row.sequence, row.local_time_ns, row.quote_time_ns)
            &&& after.runtime.references == state.runtime.references.insert(
                (side, row.sequence),
                key,
            )
            &&& after.report.applied_events == state.report.applied_events + 1
            &&& after.report.sz_direct_rest_limit_orders
                == state.report.sz_direct_rest_limit_orders + if row.kind == SzOrderKind::Limit {
                1int
            } else {
                0
            }
            &&& shown_last(after, channel, row.symbol@, row.quote_time_ns)
        }),
{
    reveal(StepState::sz_order);
    lemma_announced(state, request, channel, row.symbol@, row.quote_time_ns);
    let book = state.runtime.book;
    let next = state.sz_order(request, channel, row, same_side).state.runtime.book;
    let side = side_of_row(row.side);
    let key = key_of(channel, side, row.sequence);
    assert(!book.orders.contains_key(key)) by {
        reveal(BookModel::wf);
    }
    assert(next.orders =~= book.orders.insert(key, next.orders[key]));
    if row.kind == SzOrderKind::SameSideBest && same_side {
        assert(crate::order_book::model::is_best(
            side,
            book.side(side).queues,
            book.best_price(side)->0,
        ));
    }
}

/// Where an execution names an order, by its number on a side.
pub open spec fn order_named(runtime: RuntimeModel, side: Side, order_no: u64) -> OrderReference {
    runtime.sz_reference(side, order_no)
}

/// A number names the order of its side that was added under it; zero names none.
pub proof fn numbers_name_their_orders(runtime: RuntimeModel, side: Side, order_no: u64)
    ensures
        order_no == 0 ==> order_named(runtime, side, order_no) is Absent,
        order_no > 0 && runtime.references.contains_key((side, order_no)) ==> order_named(
            runtime,
            side,
            order_no,
        ) == OrderReference::Resolved(runtime.references[(side, order_no)]),
        order_no > 0 && !runtime.references.contains_key((side, order_no)) ==> order_named(
            runtime,
            side,
            order_no,
        ) is Unresolved,
        runtime.active(side, order_no) is Some <==> runtime.references.contains_key(
            (side, order_no),
        ) && runtime.book.orders.contains_key(runtime.references[(side, order_no)]),
        runtime.active(side, order_no) matches Some(key) ==> key == runtime.references[(
            side,
            order_no,
        )],
{
}

/// A Shenzhen trade takes its quantity from the orders that its two numbers name, counts once
/// in the statistics with its price, and is told to the observer before the book is.
pub proof fn shenzhen_trades_reach_the_book(
    state: StepState,
    request: MarketDayRequest,
    channel: u32,
    row: SzExecutionRow,
)
    requires
        row.kind == SzExecutionKind::Trade,
        state.sz_execution(request, channel, row).error is None,
    ensures
        ({
            let book = state.runtime.book;
            let after = state.sz_execution(request, channel, row).state;
            let next = after.runtime.book;
            let quantity = row.quantity as int;
            let bid = order_named(state.runtime, Side::Buy, row.bid_order_no);
            let ask = order_named(state.runtime, Side::Sell, row.ask_order_no);
            &&& row.quantity > 0
            &&& row.price_units > 0
            &&& traded_side(book, next, Side::Buy, bid, quantity)
            &&& traded_side(book, next, Side::Sell, ask, quantity)
            &&& next.statistics.trade_count == book.statistics.trade_count + 1
            &&& next.statistics.total_quantity == book.statistics.total_quantity + quantity
            &&& next.statistics.last_price is Some
            &&& next.statistics.last_price->0.spec_units() == row.price_units
            &&& stamped_by(next, row.sequence, row.local_time_ns, row.quote_time_ns)
            &&& after.runtime.references == state.runtime.references
            &&& after.report.applied_events == state.report.applied_events + 1
            &&& shown_last(after, channel, row.symbol@, row.quote_time_ns)
            &&& after.log.len() >= 2
            &&& after.log[after.log.len() - 2] == Observed::Trade {
                channel,
                symbol: row.symbol@,
                raw_sequence: row.sequence,
                quote_time_ns: row.quote_time_ns,
                price_units: row.price_units,
                quantity: row.quantity,
            }
        }),
{
    reveal(StepState::sz_execution);
    lemma_announced(state, request, channel, row.symbol@, row.quote_time_ns);
    let book = state.runtime.book;
    let bid = order_named(state.runtime, Side::Buy, row.bid_order_no);
    let ask = order_named(state.runtime, Side::Sell, row.ask_order_no);
    let price = Price::spec_new(row.price_units);
    let quantity = Quantity::spec_new(row.quantity);
    crate::order_book::effects::lemma_traded_sides(
        book,
        state.runtime.policy,
        bid,
        ask,
        price,
        quantity,
    );
    let next = state.sz_execution(request, channel, row).state.runtime.book;
    let traded = book.trade_next(bid, ask, price, quantity);
    assert(next.bids == traded.bids && next.asks == traded.asks && next.orders == traded.orders);
}

/// A Shenzhen cancellation names one order by one of its two numbers, and takes all that is
/// left of it, which has to be what the row says.
pub proof fn shenzhen_cancellations_take_what_is_left(
    state: StepState,
    request: MarketDayRequest,
    channel: u32,
    row: SzExecutionRow,
)
    requires
        row.kind == SzExecutionKind::Cancel,
        state.sz_execution(request, channel, row).error is None,
    ensures
        ({
            let book = state.runtime.book;
            let after = state.sz_execution(request, channel, row).state;
            let next = after.runtime.book;
            let side = if row.ask_order_no == 0 {
                Side::Buy
            } else {
                Side::Sell
            };
            let order_no = if row.ask_order_no == 0 {
                row.bid_order_no
            } else {
                row.ask_order_no
            };
            let key = state.runtime.references[(side, order_no)];
            let order = book.orders[key];
            &&& row.bid_order_no == 0 <==> row.ask_order_no > 0
            &&& state.runtime.references.contains_key((side, order_no))
            &&& book.orders.contains_key(key)
            &&& order.remaining_quantity == row.quantity
            &&& next.orders == book.orders.remove(key)
            &&& order.location == OrderLocation::Aggressive ==> next.bids == book.bids
                && next.asks == book.asks
            &&& order.location == OrderLocation::Resting ==> {
                &&& next.side(key.side).total_quantity == book.side(key.side).total_quantity
                    - row.quantity
                &&& opposite(next, key.side) == opposite(book, key.side)
            }
            &&& next.statistics == book.statistics
            &&& stamped_by(next, row.sequence, row.local_time_ns, row.quote_time_ns)
            &&& after.report.applied_events == state.report.applied_events + 1
            &&& shown_last(after, channel, row.symbol@, row.quote_time_ns)
        }),
{
    reveal(StepState::sz_execution);
    lemma_announced(state, request, channel, row.symbol@, row.quote_time_ns);
}

/// Under the policy that rests market orders at their last trade: after a market order and an
/// execution that leaves a part of it, the book shows that part at the price of the execution,
/// behind all orders there, wherever no level of the other side is left for it to meet.
pub proof fn market_remainders_rest_at_their_last_trade(
    state: StepState,
    request: MarketDayRequest,
    channel: u32,
    order: SzOrderRow,
    same_side: bool,
    trade: SzExecutionRow,
)
    requires
        request.sz_market_order_policy == SzMarketOrderPolicy::RestAtLastTradePrice,
        state.runtime.book.wf(),
        order.kind == SzOrderKind::Market,
        state.sz_order(request, channel, order, same_side).error is None,
        trade.kind == SzExecutionKind::Trade,
        match order.side {
            SzSide::Buy => trade.bid_order_no == order.sequence,
            SzSide::Sell => trade.ask_order_no == order.sequence,
        },
        trade.quantity < order.quantity,
        state.sz_order(request, channel, order, same_side).state.sz_execution(
            request,
            channel,
            trade,
        ).error is None,
        forall|level: Price| #[trigger]
            opposite(
                state.sz_order(request, channel, order, same_side).state.sz_execution(
                    request,
                    channel,
                    trade,
                ).state.runtime.book,
                side_of_row(order.side),
            ).queues.contains_key(level) ==> match order.side {
                SzSide::Buy => level.spec_units() > trade.price_units,
                SzSide::Sell => level.spec_units() < trade.price_units,
            },
    ensures
        ({
            let entered = state.sz_order(request, channel, order, same_side).state;
            let before = entered.runtime.book;
            let after = entered.sz_execution(request, channel, trade).state.runtime.book;
            let side = side_of_row(order.side);
            let key = key_of(channel, side, order.sequence);
            let price = after.orders[key].effective_price->0;
            let left = order.quantity - trade.quantity;
            &&& after.orders.contains_key(key)
            &&& after.orders[key].remaining_quantity == left
            &&& after.orders[key].location == OrderLocation::Resting
            &&& after.orders[key].effective_price is Some
            &&& price.spec_units() == trade.price_units
            &&& after.side(side).queue(price) == before.side(side).queue(price).push(key)
            &&& after.side(side).queue(price).last() == key
            &&& after.side(side).total_quantity == before.side(side).total_quantity + left
            &&& before.side(side).total_quantity == state.runtime.book.side(side).total_quantity
        }),
{
    shenzhen_orders_enter_the_book(state, request, channel, order, same_side);
    let entered = state.sz_order(request, channel, order, same_side).state;
    let before = entered.runtime.book;
    let after = entered.sz_execution(request, channel, trade).state.runtime.book;
    let side = side_of_row(order.side);
    let key = key_of(channel, side, order.sequence);
    reveal(StepState::sz_execution);
    lemma_announced(entered, request, channel, trade.symbol@, trade.quote_time_ns);
    let bid = order_named(entered.runtime, Side::Buy, trade.bid_order_no);
    let ask = order_named(entered.runtime, Side::Sell, trade.ask_order_no);
    let price = Price::spec_new(trade.price_units);
    let quantity = Quantity::spec_new(trade.quantity);
    let meta: EventMeta = vstd::pervasive::arbitrary();
    let event = Trade { meta, bid_order: bid, ask_order: ask, price, quantity };
    assert(entered.runtime.references.contains_key((side, order.sequence)));
    assert(order.sequence > 0) by {
        reveal(StepState::sz_order);
    }
    let applied = before.apply_next(BookEvent::Trade(event));
    assert(applied.bids == after.bids && applied.asks == after.asks && applied.orders
        == after.orders);
    assert forall|level: Price| #[trigger]
        opposite(applied, side).queues.contains_key(level) implies !reaches(side, price, level) by {
        assert(opposite(after, side).queues.contains_key(level));
    }
    crate::order_book::effects::hidden_remainders_become_visible(
        before,
        entered.runtime.policy,
        event,
        key,
    );
}

/// A Shanghai addition names one side, the side of its flag, and is visible at its price,
/// behind all orders there.
pub proof fn shanghai_additions_are_visible(
    state: StepState,
    request: MarketDayRequest,
    channel: u32,
    row: SseRow,
)
    requires
        row.kind == SseKind::Add,
        state.runtime.book.wf(),
        state.sse_row(request, channel, row).error is None,
    ensures
        ({
            let book = state.runtime.book;
            let after = state.sse_row(request, channel, row).state;
            let next = after.runtime.book;
            let side = if row.sell_order_no == 0 {
                Side::Buy
            } else {
                Side::Sell
            };
            let order_no = if row.sell_order_no == 0 {
                row.buy_order_no
            } else {
                row.sell_order_no
            };
            let key = key_of(row.channel, side, order_no);
            let order = next.orders[key];
            &&& row.buy_order_no == 0 <==> row.sell_order_no > 0
            &&& side == Side::Buy <==> row.flag == Aggressor::Buy
            &&& side == Side::Sell <==> row.flag == Aggressor::Sell
            &&& !book.orders.contains_key(key)
            &&& next.orders == book.orders.insert(key, order)
            &&& order.original_quantity.spec_get() == row.quantity
            &&& order.remaining_quantity == row.quantity
            &&& order.location == OrderLocation::Resting
            &&& order.effective_price is Some
            &&& order.effective_price->0.spec_units() == row.price_units
            &&& joined(
                book.side(side),
                next.side(side),
                order.effective_price->0,
                key,
                row.quantity as int,
            )
            &&& opposite(next, side) == opposite(book, side)
            &&& next.statistics == book.statistics
            &&& stamped_by(next, row.sequence, row.local_time_ns, row.quote_time_ns)
            &&& after.runtime.references == state.runtime.references.insert((side, order_no), key)
            &&& after.report.applied_events == state.report.applied_events + 1
            &&& shown_last(after, channel, row.symbol@, row.quote_time_ns)
        }),
{
    reveal(StepState::sse_row);
    lemma_announced(state, request, channel, row.symbol@, row.quote_time_ns);
    let book = state.runtime.book;
    let next = state.sse_row(request, channel, row).state.runtime.book;
    let side = if row.sell_order_no == 0 {
        Side::Buy
    } else {
        Side::Sell
    };
    let order_no = if row.sell_order_no == 0 {
        row.buy_order_no
    } else {
        row.sell_order_no
    };
    let key = key_of(row.channel, side, order_no);
    assert(!book.orders.contains_key(key)) by {
        reveal(BookModel::wf);
    }
    assert(next.orders =~= book.orders.insert(key, next.orders[key]));
}

/// A Shanghai deletion names one order by one of its two numbers, and takes all that is left
/// of it.
pub proof fn shanghai_deletions_take_what_is_left(
    state: StepState,
    request: MarketDayRequest,
    channel: u32,
    row: SseRow,
)
    requires
        row.kind == SseKind::Delete,
        state.sse_row(request, channel, row).error is None,
    ensures
        ({
            let book = state.runtime.book;
            let after = state.sse_row(request, channel, row).state;
            let next = after.runtime.book;
            let side = if row.sell_order_no == 0 {
                Side::Buy
            } else {
                Side::Sell
            };
            let order_no = if row.sell_order_no == 0 {
                row.buy_order_no
            } else {
                row.sell_order_no
            };
            let key = state.runtime.references[(side, order_no)];
            let order = book.orders[key];
            &&& row.buy_order_no == 0 <==> row.sell_order_no > 0
            &&& state.runtime.references.contains_key((side, order_no))
            &&& book.orders.contains_key(key)
            &&& next.orders == book.orders.remove(key)
            &&& order.location == OrderLocation::Aggressive ==> next.bids == book.bids
                && next.asks == book.asks
            &&& order.location == OrderLocation::Resting ==> {
                &&& next.side(key.side).total_quantity == book.side(key.side).total_quantity
                    - order.remaining_quantity
                &&& opposite(next, key.side) == opposite(book, key.side)
            }
            &&& next.statistics == book.statistics
            &&& stamped_by(next, row.sequence, row.local_time_ns, row.quote_time_ns)
            &&& after.runtime.references == state.runtime.references
            &&& after.report.applied_events == state.report.applied_events + 1
            &&& shown_last(after, channel, row.symbol@, row.quote_time_ns)
        }),
{
    reveal(StepState::sse_row);
    lemma_announced(state, request, channel, row.symbol@, row.quote_time_ns);
}

/// How a Shanghai trade names the order of a side: by the number that the order was added
/// under. The side of the flag may name none, or one that is not in the book.
pub open spec fn shanghai_order_named(
    runtime: RuntimeModel,
    side: Side,
    flag: Aggressor,
    order_no: u64,
    reference: OrderReference,
) -> bool {
    let known = order_no > 0 && runtime.references.contains_key((side, order_no))
        && runtime.book.orders.contains_key(runtime.references[(side, order_no)]);
    let of_flag = match side {
        Side::Buy => flag == Aggressor::Buy,
        Side::Sell => flag == Aggressor::Sell,
    };
    match reference {
        OrderReference::Resolved(key) => known && key == runtime.references[(side, order_no)],
        OrderReference::Absent => order_no == 0 && of_flag,
        OrderReference::Unresolved { side: named, order_id } => {
            &&& order_no > 0
            &&& !known
            &&& of_flag
            &&& named == side
            &&& order_id.spec_get() == order_no
        },
    }
}

/// A Shanghai trade takes its quantity from the orders that its two numbers name and counts
/// once in the statistics with its price.
pub proof fn shanghai_trades_reach_the_book(
    state: StepState,
    request: MarketDayRequest,
    channel: u32,
    row: SseRow,
)
    requires
        row.kind == SseKind::Trade,
        !state.runtime.references.contains_key((Side::Buy, 0)),
        !state.runtime.references.contains_key((Side::Sell, 0)),
        state.sse_row(request, channel, row).error is None,
    ensures
        exists|bid: OrderReference, ask: OrderReference|
            {
                &&& #[trigger] shanghai_order_named(
                    state.runtime,
                    Side::Buy,
                    row.flag,
                    row.buy_order_no,
                    bid,
                )
                &&& #[trigger] shanghai_order_named(
                    state.runtime,
                    Side::Sell,
                    row.flag,
                    row.sell_order_no,
                    ask,
                )
                &&& traded_side(
                    state.runtime.book,
                    state.sse_row(request, channel, row).state.runtime.book,
                    Side::Buy,
                    bid,
                    row.quantity as int,
                )
                &&& traded_side(
                    state.runtime.book,
                    state.sse_row(request, channel, row).state.runtime.book,
                    Side::Sell,
                    ask,
                    row.quantity as int,
                )
            },
        ({
            let book = state.runtime.book;
            let after = state.sse_row(request, channel, row).state;
            let next = after.runtime.book;
            &&& row.quantity > 0
            &&& row.price_units > 0
            &&& next.statistics.trade_count == book.statistics.trade_count + 1
            &&& next.statistics.total_quantity == book.statistics.total_quantity + row.quantity
            &&& next.statistics.last_price is Some
            &&& next.statistics.last_price->0.spec_units() == row.price_units
            &&& stamped_by(next, row.sequence, row.local_time_ns, row.quote_time_ns)
            &&& after.runtime.references == state.runtime.references
            &&& after.report.applied_events == state.report.applied_events + 1
            &&& shown_last(after, channel, row.symbol@, row.quote_time_ns)
        }),
{
    reveal(StepState::sse_row);
    lemma_announced(state, request, channel, row.symbol@, row.quote_time_ns);
    let announced = state.before_event(request, channel, row.symbol@, row.quote_time_ns).state;
    let book = state.runtime.book;
    let bid = announced.sse_reference(Side::Buy, row, row.buy_order_no)->Ok_0;
    let ask = announced.sse_reference(Side::Sell, row, row.sell_order_no)->Ok_0;
    let price = Price::spec_new(row.price_units);
    let quantity = Quantity::spec_new(row.quantity);
    crate::order_book::effects::lemma_traded_sides(
        book,
        state.runtime.policy,
        bid,
        ask,
        price,
        quantity,
    );
    let next = state.sse_row(request, channel, row).state.runtime.book;
    let traded = book.trade_next(bid, ask, price, quantity);
    assert(next.bids == traded.bids && next.asks == traded.asks && next.orders == traded.orders);
    assert(shanghai_order_named(state.runtime, Side::Buy, row.flag, row.buy_order_no, bid));
    assert(shanghai_order_named(state.runtime, Side::Sell, row.flag, row.sell_order_no, ask));
}

/// A Shanghai status leaves the book and the clock alone and is counted. Only the status of
/// the close closes the symbol, and only once.
pub proof fn shanghai_statuses_leave_the_book_alone(
    state: StepState,
    request: MarketDayRequest,
    channel: u32,
    row: SseRow,
)
    requires
        row.kind == SseKind::Status,
        state.sse_row(request, channel, row).error is None,
    ensures
        ({
            let after = state.sse_row(request, channel, row).state;
            &&& after.runtime.book == state.runtime.book
            &&& after.runtime.last_time == state.runtime.last_time
            &&& after.runtime.references == state.runtime.references
            &&& after.runtime.cursor == state.runtime.cursor
            &&& after.report.status_events == state.report.status_events + 1
            &&& after.report.applied_events == state.report.applied_events
            &&& row.status != 2 ==> after.runtime == state.runtime && after.output == state.output
                && after.log == state.log
            &&& row.status == 2 ==> after.runtime.close_emitted
            &&& row.status == 2 && state.runtime.close_emitted ==> after.runtime == state.runtime
                && after.output == state.output && after.log == state.log
            &&& row.status == 2 && !state.runtime.close_emitted ==> {
                &&& after.report.market_close_snapshots == state.report.market_close_snapshots + 1
                &&& after.log == state.log.push(
                    Observed::State {
                        channel,
                        symbol: row.symbol@,
                        book: state.runtime.book,
                        point: ObservationPoint::MarketClose(row.quote_time_ns),
                    },
                )
            }
        }),
{
    reveal(StepState::sse_row);
}

/// No Shanghai business row is applied once the symbol is closed.
pub proof fn closed_symbols_take_no_more_rows(
    state: StepState,
    request: MarketDayRequest,
    channel: u32,
    row: SseRow,
)
    requires
        row.kind != SseKind::Status,
        state.runtime.close_emitted,
    ensures
        state.sse_row(request, channel, row).error is Some,
        state.sse_row(request, channel, row).state == state,
{
    reveal(StepState::sse_row);
}

/// Whether a snapshot shows a book at its close, with its symbol, channel and time.
pub open spec fn is_close_of(
    snapshot: SnapshotModel,
    state: StepState,
    request: MarketDayRequest,
    channel: u32,
    boundary_time_ns: i64,
) -> bool {
    &&& snapshot.kind == SnapshotKind::MarketClose
    &&& snapshot.symbol == state.runtime.symbol
    &&& snapshot.channel == channel
    &&& snapshot.boundary_time_ns == boundary_time_ns
    &&& snapshot.book == SnapshotBookModel::of(
        state.runtime.book,
        match request.snapshots {
            Some(schedule) => schedule.depth,
            None => 10,
        },
    )
}

/// A symbol is closed once: where snapshots are written, one of the close is taken of the book
/// as it is, in Shenzhen at once, in Shanghai to be written when the channel ends.
pub proof fn symbols_close_once(
    state: StepState,
    request: MarketDayRequest,
    channel: u32,
    symbol: Seq<char>,
    boundary_time_ns: i64,
)
    ensures
        ({
            let closed = state.market_close(request, channel, symbol, boundary_time_ns);
            let after = closed.state;
            &&& state.runtime.close_emitted ==> closed.error is None && after == state
            &&& !state.runtime.close_emitted ==> {
                &&& after.runtime.close_emitted
                &&& after.runtime.book == state.runtime.book
                &&& after.log == state.log.push(
                    Observed::State {
                        channel,
                        symbol,
                        book: state.runtime.book,
                        point: ObservationPoint::MarketClose(boundary_time_ns),
                    },
                )
                &&& state.output is None ==> after.output is None && after.runtime.pending_close
                    == state.runtime.pending_close
                &&& state.output is Some && request.market == Market::Sse ==> {
                    &&& after.output == state.output
                    &&& after.runtime.pending_close is Some
                    &&& is_close_of(
                        after.runtime.pending_close->0,
                        state,
                        request,
                        channel,
                        boundary_time_ns,
                    )
                }
                &&& state.output is Some && request.market == Market::Szse ==> {
                    &&& after.output is Some
                    &&& after.output->0.len() == state.output->0.len() + 1
                    &&& after.output->0.drop_last() == state.output->0
                    &&& is_close_of(
                        after.output->0.last(),
                        state,
                        request,
                        channel,
                        boundary_time_ns,
                    )
                    &&& after.runtime.pending_close == state.runtime.pending_close
                }
                &&& closed.error is None ==> after.report.market_close_snapshots
                    == state.report.market_close_snapshots + 1
            }
        }),
{
    let after = state.market_close(request, channel, symbol, boundary_time_ns).state;
    if state.output is Some && request.market == Market::Szse && !state.runtime.close_emitted {
        assert(after.output->0.drop_last() =~= state.output->0);
    }
}

/// At the end of a channel every scheduled snapshot that is left shows the final book, a close
/// that was kept back is written after them, and the observer is told last.
pub proof fn channels_end_with_all_snapshots(
    state: StepState,
    request: MarketDayRequest,
    channel: u32,
    symbol: Seq<char>,
)
    requires
        state.channel_end(request, channel, symbol, None).error is None,
        state.runtime.cursor is Some,
        state.output is Some,
    ensures
        ({
            let after = state.channel_end(request, channel, symbol, None).state;
            let times = state.runtime.cursor->0;
            let before = state.output->0;
            let rows = after.output->0;
            let kept: int = if state.runtime.pending_close is Some {
                1
            } else {
                0
            };
            &&& after.runtime.book == state.runtime.book
            &&& after.output is Some
            &&& rows.len() == before.len() + times.len() + kept
            &&& forall|i: int| 0 <= i < before.len() ==> #[trigger] rows[i] == before[i]
            &&& forall|i: int|
                0 <= i < times.len() ==> {
                    let row = #[trigger] rows[before.len() + i];
                    &&& row.kind == SnapshotKind::Scheduled
                    &&& row.boundary_time_ns == times[i]
                    &&& row.symbol == state.runtime.symbol
                    &&& row.channel == channel
                }
            &&& state.runtime.pending_close is Some ==> rows.last()
                == state.runtime.pending_close->0
            &&& after.runtime.pending_close is None
            &&& after.report.scheduled_snapshots == state.report.scheduled_snapshots + times.len()
            &&& after.log == state.log.push(
                Observed::State {
                    channel,
                    symbol,
                    book: state.runtime.book,
                    point: ObservationPoint::ChannelFinished,
                },
            )
        }),
{
    reveal(StepState::channel_end);
    let times = state.runtime.cursor->0;
    assert(times.take(times.len() as int) =~= times);
}

/// A close at the end of a channel is never before the last event.
pub proof fn final_closes_come_after_all_events(last_time: Option<i64>, close: i64)
    ensures
        final_boundary(last_time, close) >= close,
        last_time matches Some(last) ==> final_boundary(last_time, close) >= last,
        final_boundary(last_time, close) == close || last_time == Some(
            final_boundary(last_time, close),
        ),
{
}

/// The clock of a symbol never goes back. A row may be late only where no snapshots are
/// scheduled, and only within the same second; it is then counted.
pub proof fn clocks_do_not_go_back(state: StepState, symbol: Seq<char>, quote_time_ns: i64)
    ensures
        ({
            let clocked = state.clocked(symbol, quote_time_ns);
            let after = clocked.state;
            &&& after.runtime.book == state.runtime.book
            &&& match state.runtime.last_time {
                None => clocked.error is None && after.runtime.last_time == Some(quote_time_ns),
                Some(last) => {
                    &&& quote_time_ns >= last ==> {
                        &&& clocked.error is None
                        &&& after.runtime.last_time == Some(quote_time_ns)
                        &&& after.report == state.report
                    }
                    &&& quote_time_ns < last ==> after.runtime.last_time == Some(last)
                    &&& quote_time_ns < last && state.runtime.cursor is Some ==> clocked.error
                        == Some(
                        ErrorModel::QuoteTimeRegression {
                            symbol,
                            previous: last,
                            current: quote_time_ns,
                        },
                    )
                    &&& quote_time_ns < last && state.runtime.cursor is None ==> {
                        let same_second = last as int / 1_000_000_000 == quote_time_ns as int
                            / 1_000_000_000;
                        &&& !same_second ==> clocked.error is Some
                        &&& clocked.error is None
                            ==> after.report.same_second_quote_time_regressions
                            == state.report.same_second_quote_time_regressions + 1
                        &&& same_second && state.report.same_second_quote_time_regressions
                            < u64::MAX ==> clocked.error is None
                    }
                },
            }
        }),
{
}

/// Shanghai books update what they know of a trade; Shenzhen books refuse a trade with an
/// order that they do not know. A fresh book holds nothing.
pub proof fn fresh_books_follow_their_market(market: Market)
    ensures
        market == Market::Sse ==> market_policy(market)
            == UnknownTradePolicy::UpdateKnownAndStatistics,
        market == Market::Szse ==> market_policy(market) == UnknownTradePolicy::Reject,
{
}

/// What is left of a pending order becomes visible at its price, behind all orders there, and
/// is counted once.
pub proof fn pending_remainders_are_shown(
    state: StepState,
    channel: u32,
    row: SzOrderRow,
    units: i64,
)
    requires
        state.rested(channel, row, units).error is None,
    ensures
        ({
            let book = state.runtime.book;
            let after = state.rested(channel, row, units).state;
            let next = after.runtime.book;
            let side = side_of_row(row.side);
            let key = key_of(channel, side, row.sequence);
            let price = next.orders[key].effective_price->0;
            &&& book.orders.contains_key(key)
            &&& book.orders[key].location == OrderLocation::Aggressive
            &&& next.orders[key].location == OrderLocation::Resting
            &&& next.orders[key].effective_price is Some
            &&& price.spec_units() == units
            &&& next.orders[key].remaining_quantity == book.orders[key].remaining_quantity
            &&& joined(
                book.side(side),
                next.side(side),
                price,
                key,
                book.orders[key].remaining_quantity as int,
            )
            &&& opposite(next, side) == opposite(book, side)
            &&& next.statistics == book.statistics
            &&& next.last_meta == book.last_meta
            &&& after.report.sz_inferred_market_remainders
                == state.report.sz_inferred_market_remainders + 1
            &&& after.log == state.log
            &&& after.output == state.output
        }),
{
}

/// A group is counted once, once more where it cancels a same-side-best order that found its
/// side empty, and the observer is shown the book as of the time of the order.
pub proof fn groups_are_counted_once(state: StepState, channel: u32, row: SzOrderRow)
    requires
        state.group_counted(channel, row).error is None,
    ensures
        ({
            let after = state.group_counted(channel, row).state;
            &&& after.runtime == state.runtime
            &&& after.output == state.output
            &&& after.report.sz_pending_groups == state.report.sz_pending_groups + 1
            &&& after.report.sz_empty_same_side_cancellations
                == state.report.sz_empty_same_side_cancellations + if row.kind
                == SzOrderKind::SameSideBest {
                1int
            } else {
                0
            }
            &&& after.report.applied_events == state.report.applied_events
            &&& shown_last(after, channel, row.symbol@, row.quote_time_ns)
            &&& after.log.drop_last() == state.log
        }),
{
    let after = state.group_counted(channel, row).state;
    assert(after.log.drop_last() =~= state.log);
}

/// An applied Shenzhen row counts as one after the close exactly where its time of day is
/// after fifteen o'clock.
pub proof fn rows_after_the_close_are_counted(
    report: ReportModel,
    symbol: Seq<char>,
    quote_time_ns: i64,
)
    requires
        report.applied_error(symbol, quote_time_ns) is None,
    ensures
        ({
            let after = report.applied(symbol, quote_time_ns);
            let counts = report.sz_after_close_events_by_symbol;
            let late = crate::production::time::spec_time_of_day(quote_time_ns as int) > 15 * 3600
                * 1_000_000_000;
            &&& !late ==> after == report
            &&& late ==> {
                &&& after.sz_after_close_events == report.sz_after_close_events + 1
                &&& after.sz_after_close_events_by_symbol.contains_key(symbol)
                &&& after.sz_after_close_events_by_symbol[symbol] == 1 + if counts.contains_key(
                    symbol,
                ) {
                    counts[symbol] as int
                } else {
                    0
                }
                &&& forall|other: Seq<char>|
                    other != symbol ==> (
                    #[trigger] after.sz_after_close_events_by_symbol.contains_key(other)
                        == counts.contains_key(other))
                &&& after.applied_events == report.applied_events
            }
        }),
{
}

/// Which Shenzhen orders wait for their responses: market orders, unless the policy rests them
/// at their last trade, and same-side-best orders that find their side empty. Limit orders never
/// wait.
pub proof fn orders_wait_without_a_price(
    policy: SzMarketOrderPolicy,
    row: SzOrderRow,
    state: StepState,
)
    ensures
        row.kind == SzOrderKind::Limit ==> !waits(policy, row, state),
        row.kind == SzOrderKind::Market ==> (waits(policy, row, state) <==> policy
            != SzMarketOrderPolicy::RestAtLastTradePrice),
        row.kind == SzOrderKind::SameSideBest ==> (waits(policy, row, state)
            <==> state.runtime.book.best_price(side_of_row(row.side)) is None),
{
}

/// Rows of the two Shenzhen streams are taken by their sequence: the lower one first, and
/// equal ones are ambiguous.
pub proof fn shenzhen_rows_are_merged_by_sequence(
    state: ChannelState,
    request: MarketDayRequest,
    channel: u32,
    orders: Seq<SzOrderRow>,
    executions: Seq<SzExecutionRow>,
)
    ensures
        orders.len() == 0 && executions.len() == 0 ==> state.sz_rows(
            request,
            channel,
            orders,
            executions,
        ) == (ChannelStep { state, error: None }),
        orders.len() > 0 && executions.len() > 0 && orders[0].sequence == executions[0].sequence
            ==> {
            let step = state.sz_rows(request, channel, orders, executions);
            &&& step.state == state
            &&& step.error == Some(
                ErrorModel::AmbiguousSequence { channel, sequence: orders[0].sequence },
            )
        },
        executions.len() > 0 && (orders.len() == 0 || executions[0].sequence < orders[0].sequence)
            ==> {
            let step = state.sz_rows(request, channel, orders, executions);
            let first = state.sz_execution(request, channel, executions[0]);
            &&& first.error is Some ==> step == first
            &&& first.error is None ==> step == first.state.sz_rows(
                request,
                channel,
                orders,
                executions.drop_first(),
            )
        },
        orders.len() > 0 && (executions.len() == 0 || orders[0].sequence < executions[0].sequence)
            ==> {
            let step = state.sz_rows(request, channel, orders, executions);
            let rest = orders.drop_first();
            let next: Option<u64> = if rest.len() > 0 {
                Some(rest[0].sequence)
            } else {
                None
            };
            let first = state.sz_order(request, channel, orders[0], next, executions);
            let taken = state.sz_taken(request, channel, orders[0], next, executions) as int;
            &&& first.error is Some ==> step == first
            &&& first.error is None ==> step == first.state.sz_rows(
                request,
                channel,
                rest,
                executions.skip(taken),
            )
        },
{
}

/// A row changes the state of its own instrument and of no other; an instrument that is seen
/// for the first time begins with an empty book.
pub proof fn rows_touch_their_own_instrument(
    state: ChannelState,
    request: MarketDayRequest,
    channel: u32,
    row: SzExecutionRow,
    tick: SseRow,
)
    ensures
        ({
            let after = state.sz_execution(request, channel, row).state;
            forall|other: Seq<char>|
                other != row.symbol@ ==> (#[trigger] after.runtimes.contains_key(other)
                    == state.runtimes.contains_key(other)) && (state.runtimes.contains_key(other)
                    ==> after.runtimes[other] == state.runtimes[other])
        }),
        ({
            let after = state.sse_row(request, channel, tick).state;
            forall|other: Seq<char>|
                other != tick.symbol@ ==> (#[trigger] after.runtimes.contains_key(other)
                    == state.runtimes.contains_key(other)) && (state.runtimes.contains_key(other)
                    ==> after.runtimes[other] == state.runtimes[other])
        }),
        !state.runtimes.contains_key(row.symbol@) ==> (state.enter(request, row.symbol@) is Ok ==> {
            let entered = state.enter(request, row.symbol@)->Ok_0.runtime;
            &&& entered.symbol == row.symbol@
            &&& entered.book == BookModel::empty()
            &&& entered.references == Map::<(Side, u64), OrderKey>::empty()
            &&& entered.last_time is None
            &&& !entered.close_emitted
            &&& entered.pending_close is None
            &&& request.market == Market::Sse ==> entered.policy
                == UnknownTradePolicy::UpdateKnownAndStatistics
            &&& request.market == Market::Szse ==> entered.policy == UnknownTradePolicy::Reject
            &&& entered.cursor is Some <==> request.snapshots is Some
        }),
        state.runtimes.contains_key(row.symbol@) ==> state.enter(request, row.symbol@) is Ok
            && state.enter(request, row.symbol@)->Ok_0.runtime == state.runtimes[row.symbol@],
{
}

/// At the end of a channel its instruments and its snapshots are added to the totals.
pub proof fn channels_add_to_the_totals(state: ChannelState)
    requires
        state.totalled().error is None,
    ensures
        ({
            let after = state.totalled().state;
            &&& after.report.symbols == state.report.symbols + state.runtimes.len()
            &&& state.output is None ==> after.report.output_rows == state.report.output_rows
            &&& state.output is Some ==> after.report.output_rows == state.report.output_rows
                + state.output->0.len()
            &&& after.runtimes == state.runtimes
            &&& after.output == state.output
            &&& after.log == state.log
        }),
{
}

/// A channel begins with nothing read, and records snapshots exactly where they are asked for.
pub proof fn channels_begin_empty(
    request: MarketDayRequest,
    log: Seq<Observed>,
    report: ReportModel,
)
    ensures
        ({
            let opened = ChannelState::opened(request, log, report);
            &&& opened.runtimes.dom() == Set::<Seq<char>>::empty()
            &&& opened.output is Some <==> request.snapshots is Some
            &&& opened.output is Some ==> opened.output->0.len() == 0
            &&& opened.log == log
            &&& opened.report == report
        }),
{
}

/// What a report begins with: the counts of the rows that were read, and the policy.
pub proof fn reports_begin_with_the_input(
    request: MarketDayRequest,
    ingest: IngestStats,
    regressions: Seq<SequenceRegression>,
    repairs: Seq<SequenceRepair>,
)
    ensures
        ({
            let report = opening_model(request, ingest, regressions, repairs);
            &&& report.sz_sequence_regressions == regressions
            &&& report.sz_sequence_repairs == repairs
            &&& report.sz_pending_resolution_version == 1
            &&& report.sz_market_order_policy == request.sz_market_order_policy
            &&& report.input_rows == ingest.input_rows
            &&& report.selected_rows == ingest.selected_rows
            &&& report.excluded_rows == ingest.excluded_rows
            &&& report.excluded_after_cutoff_rows == ingest.excluded_after_cutoff_rows
            &&& report.excluded_non_stock_rows == ingest.excluded_non_stock_rows
            &&& report.excluded_unselected_stock_rows == ingest.excluded_unselected_stock_rows
            &&& report.channels == ingest.channels
            &&& report.applied_events == 0 && report.status_events == 0 && report.symbols == 0
            &&& report.scheduled_snapshots == 0 && report.market_close_snapshots == 0
            &&& report.output_rows == 0 && report.sz_pending_groups == 0
            &&& report.sz_inferred_market_remainders == 0 && report.sz_direct_rest_limit_orders == 0
            &&& report.sz_empty_same_side_cancellations == 0 && report.sz_after_close_events == 0
            &&& report.same_second_quote_time_regressions == 0
        }),
{
}

/// Which row comes next after the responses of an order: the one with the lower sequence.
pub proof fn next_rows_are_the_lowest(next_order: Option<u64>, executions: Seq<SzExecutionRow>)
    ensures
        ({
            let next = next_sequence(next_order, executions);
            &&& executions.len() == 0 ==> next == next_order
            &&& executions.len() > 0 && next_order is None ==> next == Some(executions[0].sequence)
            &&& executions.len() > 0 ==> (next_order matches Some(order) ==> next == Some(
                if order <= executions[0].sequence {
                    order
                } else {
                    executions[0].sequence
                },
            ))
        }),
{
}

/// Responses are taken from the front: none once nothing of the order is left, none from the
/// next order on, none that names another order; a sequence that is that of the next order is
/// ambiguous, and a response that does not fit fails the order.
pub proof fn responses_are_taken_from_the_front(
    pending: PendingOrder,
    next_order: Option<u64>,
    channel: u32,
    executions: Seq<SzExecutionRow>,
)
    requires
        executions.len() > 0,
    ensures
        ({
            let result = collected(pending, next_order, channel, executions);
            let first = executions[0];
            let same = next_order == Some(first.sequence);
            let stops = pending.remaining == 0 || (next_order is Some && next_order->0
                < first.sequence) || !answers(pending, first);
            &&& same ==> result.taken == 0 && result.error == Some(
                ErrorModel::AmbiguousSequence { channel, sequence: first.sequence },
            )
            &&& !same && stops ==> result.taken == 0 && result.error is None && result.pending
                == pending
            &&& !same && !stops && pending.observe_complaint(first) is Some ==> result.taken == 0
                && result.error is Some
            &&& !same && !stops && pending.observe_complaint(first) is None ==> {
                let rest = collected(
                    pending.observe_next(first),
                    next_order,
                    channel,
                    executions.drop_first(),
                );
                &&& result.taken == rest.taken + 1
                &&& result.pending == rest.pending
                &&& result.error == rest.error
            }
        }),
        collected(pending, next_order, channel, Seq::empty()).taken == 0,
        collected(pending, next_order, channel, Seq::empty()).error is None,
{
}

} // verus!
