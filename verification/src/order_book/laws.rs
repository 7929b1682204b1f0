//! Laws of the order book: what every event keeps, and what one event undoes of another.

use vstd::prelude::*;

use crate::market_data::{
    AddOrder, BookEvent, CrossingBehavior, OrderCancel, OrderKey, Price, PricingInstruction,
    Quantity, Side, Trade,
};

use super::book::{BookConfig, UnknownTradePolicy};
use super::model::{reference_side_error, BookModel};
use super::relation::{
    lemma_add_hidden_wf, lemma_hidden_not_queued, lemma_queue_distinct, lemma_queue_index, lemma_reduce_wf,
    lemma_rest_wf, lemma_unqueue_wf, lemma_wf_depends, lemma_without_wf, unqueue, without,
};
use super::state::OrderLocation;
use super::view::{ApplyOutcome, LevelView};

verus! {

proof fn lemma_remove_wf(m: BookModel, key: OrderKey)
    requires
        m.wf(),
        m.orders.contains_key(key),
    ensures
        m.remove(key).wf(),
{
    if m.orders[key].location == OrderLocation::Resting {
        lemma_unqueue_wf(m, key);
        lemma_without_wf(unqueue(m, key), key);
        assert(without(unqueue(m, key), key).orders =~= m.remove(key).orders);
        lemma_queue_index(m, key);
        lemma_wf_depends(without(unqueue(m, key), key), m.remove(key));
    } else {
        lemma_without_wf(m, key);
        lemma_wf_depends(without(m, key), m.remove(key));
    }
}

proof fn lemma_fill_known_wf(m: BookModel, key: Option<OrderKey>, quantity: int, price: Price)
    requires
        m.wf(),
        key is Some ==> m.orders.contains_key(key->0) && 0 < quantity
            <= m.orders[key->0].remaining_quantity,
    ensures
        m.fill_known(key, quantity, price).wf(),
{
    if let Some(key) = key {
        if m.orders[key].remaining_quantity == quantity {
            lemma_remove_wf(m, key);
        } else {
            lemma_reduce_wf(m, key, quantity, price);
        }
    }
}

proof fn lemma_reenter_known_wf(m: BookModel, key: Option<OrderKey>)
    requires
        m.wf(),
    ensures
        m.reenter_known(key).wf(),
{
    if let Some(key) = key {
        if m.reenters(key) {
            lemma_rest_wf(m, key, m.orders[key].effective_price->0);
        }
    }
}

/// Every event that a book accepts keeps its orders and queues in order: no empty level,
/// each visible order once in the queue of its side and price, quantities between one and
/// their first quantity.
pub proof fn events_keep_the_book_in_order(m: BookModel, config: BookConfig, event: BookEvent)
    requires
        m.wf(),
        m.apply_error(config, event) is None,
        event matches BookEvent::AddOrder(add) ==> add.quantity.spec_get() > 0,
        event matches BookEvent::Trade(trade) ==> trade.quantity.spec_get() > 0,
    ensures
        m.apply_next(event).wf(),
{
    match event {
        BookEvent::AddOrder(add) => {
            let price = m.resolved_price(add.order_key.side, add.pricing)->0;
            let order = BookModel::new_order(price, add.crossing, add.quantity);
            assert(!m.orders.contains_key(add.order_key)) by {
                reveal(BookModel::wf);
            }
            lemma_add_hidden_wf(m, add.order_key, order);
            let added = m.add_hidden(add.order_key, order);
            if !m.starts_hidden(add.order_key.side, price, add.crossing) {
                lemma_rest_wf(added, add.order_key, price->0);
            }
            lemma_wf_depends(
                m.add_next(add.order_key, add.pricing, add.crossing, add.quantity),
                m.apply_next(event),
            );
        },
        BookEvent::OrderCancel(cancel) => {
            lemma_remove_wf(m, cancel.order_key);
            lemma_wf_depends(m.remove(cancel.order_key), m.apply_next(event));
        },
        BookEvent::Trade(trade) => {
            let quantity = trade.quantity.spec_get() as int;
            let bid = m.known(trade.bid_order);
            let ask = m.known(trade.ask_order);
            let counted = BookModel {
                statistics: super::model::statistics_next(m.statistics, trade.price, quantity),
                ..m
            };
            lemma_wf_depends(m, counted);
            lemma_fill_known_wf(counted, bid, quantity, trade.price);
            lemma_fill_known_wf(
                counted.fill_known(bid, quantity, trade.price),
                ask,
                quantity,
                trade.price,
            );
            let traded = m.traded(trade.bid_order, trade.ask_order, trade.price, trade.quantity);
            lemma_reenter_known_wf(traded, bid);
            lemma_reenter_known_wf(traded.reenter_known(bid), ask);
            lemma_wf_depends(
                m.trade_next(trade.bid_order, trade.ask_order, trade.price, trade.quantity),
                m.apply_next(event),
            );
        },
    }
}

/// An event brings at most one active order more, and only an added order brings one.
pub proof fn orders_come_one_at_a_time(m: BookModel, config: BookConfig, event: BookEvent)
    requires
        m.orders.dom().finite(),
        m.apply_error(config, event) is None,
    ensures
        m.apply_next(event).orders.dom().finite(),
        m.apply_next(event).orders.len() <= m.orders.len() + if event is AddOrder {
            1int
        } else {
            0
        },
{
    match event {
        BookEvent::AddOrder(add) => {
            let key = add.order_key;
            assert(m.apply_next(event).orders.dom() =~= m.orders.dom().insert(key));
        },
        BookEvent::OrderCancel(cancel) => {
            assert(m.apply_next(event).orders.dom() =~= m.orders.dom().remove(cancel.order_key));
        },
        BookEvent::Trade(trade) => {
            assert(m.apply_next(event).orders.dom().subset_of(m.orders.dom()));
            vstd::set_lib::lemma_len_subset(m.apply_next(event).orders.dom(), m.orders.dom());
        },
    }
}

/// Accepted events are numbered without gaps.
pub proof fn sequence_advances_by_one(m: BookModel, config: BookConfig, event: BookEvent)
    requires
        m.apply_error(config, event) is None,
    ensures
        m.apply_next(event).next_sequence() == m.next_sequence() + 1,
{
}

/// An order key that a book has used is never accepted again, whatever happened since.
pub proof fn keys_are_used_once(m: BookModel, event: BookEvent, add: AddOrder)
    requires
        m.seen.contains(add.order_key),
    ensures
        m.add_error(add.order_key, add.pricing, add.crossing, add.quantity) is Some,
        m.apply_next(event).seen.contains(add.order_key),
{
}

/// A new order's key is used from then on.
pub proof fn added_keys_are_seen(m: BookModel, add: AddOrder)
    ensures
        m.apply_next(BookEvent::AddOrder(add)).seen.contains(add.order_key),
{
}

/// An order that becomes visible waits behind all orders of its price, and all other
/// queues stay as they were.
pub proof fn visible_orders_queue_up(m: BookModel, key: OrderKey, price: Price)
    ensures
        m.rest(key, price).side(key.side).queue(price) == m.side(key.side).queue(price).push(key),
        forall|side: Side, other: Price|
            side != key.side || other != price ==> #[trigger] m.rest(key, price).side(side).queue(
                other,
            ) == m.side(side).queue(other),
{
}

/// A cancellation right after an order restores orders, queues and totals.
pub proof fn cancel_undoes_add(
    m: BookModel,
    key: OrderKey,
    pricing: PricingInstruction,
    crossing: CrossingBehavior,
    quantity: Quantity,
)
    requires
        m.wf(),
        m.add_error(key, pricing, crossing, quantity) is None,
    ensures
        ({
            let back = m.add_next(key, pricing, crossing, quantity).remove(key);
            &&& back.orders == m.orders
            &&& back.bids == m.bids
            &&& back.asks == m.asks
        }),
{
    let price = m.resolved_price(key.side, pricing)->0;
    assert(!m.orders.contains_key(key)) by {
        reveal(BookModel::wf);
    }
    let back = m.add_next(key, pricing, crossing, quantity).remove(key);
    assert(back.orders =~= m.orders);
    if !m.starts_hidden(key.side, price, crossing) {
        let side = m.side(key.side);
        let queue = side.queue(price->0);
        let longer = queue.push(key);
        lemma_hidden_not_queued(m, key);
        assert forall|i: int| 0 <= i < queue.len() implies queue[i] != key by {
            assert(m.side(key.side).queues[price->0][i] == queue[i]);
        }
        assert(longer[queue.len() as int] == key);
        assert(longer.index_of(key) == queue.len());
        assert(longer.remove(queue.len() as int) =~= queue);
        let attached = side.attach(price->0, key, quantity.spec_get() as int);
        let detached = attached.detach(price->0, key, quantity.spec_get() as int);
        assert(attached.queue(price->0) == longer);
        if queue.len() == 0 {
            assert(!side.queues.contains_key(price->0)) by {
                if side.queues.contains_key(price->0) {
                    lemma_queue_distinct(m, key.side, price->0);
                }
            }
        }
        assert(detached.queues =~= side.queues);
        assert(detached == side);
    }
}

/// An order that is cancelled by the next event leaves nothing but its key, the metadata and
/// the revision: the whole of its quantity is given back, and orders, levels, queues in their
/// order, totals and statistics are what they were before it.
pub proof fn cancelled_additions_leave_nothing(
    m: BookModel,
    config: BookConfig,
    add: AddOrder,
    cancel: OrderCancel,
)
    requires
        m.wf(),
        cancel.order_key == add.order_key,
        m.apply_error(config, BookEvent::AddOrder(add)) is None,
        m.apply_next(BookEvent::AddOrder(add)).apply_error(
            config,
            BookEvent::OrderCancel(cancel),
        ) is None,
    ensures
        ({
            let added = m.apply_next(BookEvent::AddOrder(add));
            let back = added.apply_next(BookEvent::OrderCancel(cancel));
            &&& added.apply_outcome(BookEvent::OrderCancel(cancel)) == ApplyOutcome::Cancelled {
                key: add.order_key,
                cancelled_quantity: add.quantity.spec_get(),
            }
            &&& !back.orders.contains_key(add.order_key)
            &&& back.orders == m.orders
            &&& back.bids == m.bids
            &&& back.asks == m.asks
            &&& back.statistics == m.statistics
            &&& forall|side: Side, price: Price| #[trigger]
                back.orders_at(side, price) == m.orders_at(side, price)
            &&& forall|side: Side, levels: Seq<LevelView>| #[trigger]
                back.is_depth(side, levels) == m.is_depth(side, levels)
        }),
{
    cancel_undoes_add(m, add.order_key, add.pricing, add.crossing, add.quantity);
    let added = m.apply_next(BookEvent::AddOrder(add));
    let back = added.apply_next(BookEvent::OrderCancel(cancel));
    assert(!m.orders.contains_key(add.order_key)) by {
        reveal(BookModel::wf);
    }
    assert forall|side: Side, price: Price| #[trigger]
        back.orders_at(side, price) == m.orders_at(side, price) by {
        assert(back.orders_at(side, price) =~= m.orders_at(side, price));
    }
    assert forall|side: Side, levels: Seq<LevelView>| #[trigger]
        back.is_depth(side, levels) == m.is_depth(side, levels) by {
        reveal(BookModel::is_depth);
        assert forall|price: Price| #[trigger]
            back.level_view(side, price) == m.level_view(side, price) by {}
    }
}

/// Completing a buffered group changes neither metadata nor statistics, nor the quantity
/// of any order.
pub proof fn pending_rest_keeps_metadata(m: BookModel, key: OrderKey, price: Price)
    requires
        m.rest_error(key, price) is None,
    ensures
        m.rest_next(key, price).last_meta == m.last_meta,
        m.rest_next(key, price).statistics == m.statistics,
        m.rest_next(key, price).orders.dom() == m.orders.dom(),
        forall|k: OrderKey| #[trigger]
            m.orders.contains_key(k) ==> m.rest_next(key, price).orders[k].remaining_quantity
                == m.orders[k].remaining_quantity,
{
    assert(m.rest_next(key, price).orders.dom() =~= m.orders.dom());
}

/// A book that makes a pending order visible stays in order.
pub proof fn resting_keeps_the_book_in_order(m: BookModel, key: OrderKey, price: Price)
    requires
        m.wf(),
        m.rest_error(key, price) is None,
    ensures
        m.rest_next(key, price).wf(),
{
    lemma_rest_wf(m, key, price);
    lemma_wf_depends(m.rest(key, price), m.rest_next(key, price));
}

/// A trade takes its quantity from the orders it names, once from each, and from no other;
/// an order left without quantity leaves the book.
pub proof fn trades_take_what_they_name(
    m: BookModel,
    policy: UnknownTradePolicy,
    trade: Trade,
    key: OrderKey,
)
    requires
        m.trade_error(trade.bid_order, trade.ask_order, trade.price, trade.quantity, policy)
            is None,
        m.orders.contains_key(key),
    ensures
        ({
            let named = m.known(trade.bid_order) == Some(key) || m.known(trade.ask_order) == Some(
                key,
            );
            let left = m.orders[key].remaining_quantity - if named {
                trade.quantity.spec_get() as int
            } else {
                0
            };
            let next = m.trade_next(
                trade.bid_order,
                trade.ask_order,
                trade.price,
                trade.quantity,
            );
            &&& left >= 0
            &&& next.orders.contains_key(key) <==> left > 0 || !named
            &&& next.orders.contains_key(key) ==> next.orders[key].remaining_quantity == left
        }),
{
}

/// A trade counts once in the statistics.
pub proof fn trades_are_counted(m: BookModel, policy: UnknownTradePolicy, trade: Trade)
    requires
        m.trade_error(trade.bid_order, trade.ask_order, trade.price, trade.quantity, policy)
            is None,
    ensures
        ({
            let next = m.trade_next(
                trade.bid_order,
                trade.ask_order,
                trade.price,
                trade.quantity,
            ).statistics;
            &&& next.trade_count == m.statistics.trade_count + 1
            &&& next.total_quantity == m.statistics.total_quantity + trade.quantity.spec_get()
            &&& next.last_price == Some(trade.price)
            &&& next.low_price->0.spec_units() <= trade.price.spec_units()
                <= next.high_price->0.spec_units()
        }),
{
}

/// A trade moves no order that is visible or may not reenter.
proof fn lemma_trade_keeps_place(m: BookModel, trade: Trade, key: OrderKey)
    requires
        reference_side_error(trade.bid_order, Side::Buy) is None,
        reference_side_error(trade.ask_order, Side::Sell) is None,
        m.orders.contains_key(key),
        m.orders[key].location == OrderLocation::Resting || !m.orders[key].allow_reentry,
    ensures
        ({
            let next = m.trade_next(
                trade.bid_order,
                trade.ask_order,
                trade.price,
                trade.quantity,
            );
            next.orders.contains_key(key) ==> {
                &&& next.orders[key].location == m.orders[key].location
                &&& next.orders[key].allow_reentry == m.orders[key].allow_reentry
                &&& m.orders[key].location == OrderLocation::Resting
                    ==> next.orders[key].effective_price == m.orders[key].effective_price
            }
        }),
{
}

/// An order that is visible stays visible at its price for as long as it is in the book:
/// nothing reprices or hides it.
pub proof fn visible_orders_keep_their_price(
    m: BookModel,
    config: BookConfig,
    event: BookEvent,
    key: OrderKey,
)
    requires
        m.wf(),
        m.apply_error(config, event) is None,
        m.orders.contains_key(key),
        m.orders[key].location == OrderLocation::Resting,
    ensures
        m.apply_next(event).orders.contains_key(key) ==> {
            &&& m.apply_next(event).orders[key].location == OrderLocation::Resting
            &&& m.apply_next(event).orders[key].effective_price == m.orders[key].effective_price
        },
{
    assert(m.seen.contains(key)) by {
        reveal(BookModel::wf);
    }
    match event {
        BookEvent::AddOrder(add) => {
            assert(add.order_key != key);
        },
        BookEvent::OrderCancel(_) => {},
        BookEvent::Trade(trade) => {
            lemma_trade_keeps_place(m, trade, key);
        },
    }
}

/// An order that may not reenter the depth is hidden from every event, for as long as it is
/// in the book.
pub proof fn hidden_orders_stay_hidden(
    m: BookModel,
    config: BookConfig,
    event: BookEvent,
    key: OrderKey,
)
    requires
        m.wf(),
        m.apply_error(config, event) is None,
        m.orders.contains_key(key),
        m.orders[key].location == OrderLocation::Aggressive,
        !m.orders[key].allow_reentry,
    ensures
        m.apply_next(event).orders.contains_key(key) ==> {
            &&& m.apply_next(event).orders[key].location == OrderLocation::Aggressive
            &&& !m.apply_next(event).orders[key].allow_reentry
        },
{
    assert(m.seen.contains(key)) by {
        reveal(BookModel::wf);
    }
    match event {
        BookEvent::AddOrder(add) => {
            assert(add.order_key != key);
        },
        BookEvent::OrderCancel(_) => {},
        BookEvent::Trade(trade) => {
            lemma_trade_keeps_place(m, trade, key);
        },
    }
}

/// What a trade leaves of a hidden order that takes its price from trades has the price of
/// that trade, and becomes visible there exactly where it no longer crosses the other side.
pub proof fn remainders_rest_at_their_last_trade(
    m: BookModel,
    policy: UnknownTradePolicy,
    trade: Trade,
    key: OrderKey,
)
    requires
        m.trade_error(trade.bid_order, trade.ask_order, trade.price, trade.quantity, policy)
            is None,
        m.known(trade.bid_order) == Some(key) || m.known(trade.ask_order) == Some(key),
        m.orders[key].location == OrderLocation::Aggressive,
        m.orders[key].allow_reentry,
        m.orders[key].reprice_from_trade,
        m.orders[key].remaining_quantity > trade.quantity.spec_get(),
    ensures
        ({
            let traded = m.traded(trade.bid_order, trade.ask_order, trade.price, trade.quantity);
            let shown = if key.side == Side::Buy {
                traded
            } else {
                traded.reenter_known(m.known(trade.bid_order))
            };
            let next = m.trade_next(
                trade.bid_order,
                trade.ask_order,
                trade.price,
                trade.quantity,
            );
            &&& next.orders.contains_key(key)
            &&& next.orders[key].effective_price == Some(trade.price)
            &&& next.orders[key].location == OrderLocation::Resting <==> !shown.crosses(
                key.side,
                trade.price,
            )
        }),
{
}

} // verus!
