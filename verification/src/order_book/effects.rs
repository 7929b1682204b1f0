//! What each event does to a book, in terms of what the book then holds and shows.

use vstd::prelude::*;

use crate::market_data::{
    AddOrder, BookEvent, BookKey, CrossingBehavior, EventMeta, Market, OrderCancel, OrderKey,
    OrderReference, Price, PricingInstruction, Quantity, Side, Trade,
};
use crate::sums::seq_sum;
use crate::text::{begins, ends, int_text, lemma_ends_of_texts, nat_text, quoted_text};

use super::book::{BookConfig, UnknownTradePolicy};
use super::error::{book_key_text, market_text, order_key_text, side_text, BookError};
use super::model::{at_least_as_good, is_best, BookModel, SideModel};
use super::state::OrderLocation;
use super::view::{ApplyOutcome, LevelView};

verus! {

/// The book after a list of events.
pub open spec fn after_all(m: BookModel, events: Seq<BookEvent>) -> BookModel
    decreases events.len(),
{
    if events.len() == 0 {
        m
    } else {
        after_all(m, events.drop_last()).apply_next(events.last())
    }
}

/// Whether a book accepts every event of a list in turn.
pub open spec fn accepts_all(m: BookModel, config: BookConfig, events: Seq<BookEvent>) -> bool
    decreases events.len(),
{
    events.len() == 0 || {
        &&& accepts_all(m, config, events.drop_last())
        &&& after_all(m, events.drop_last()).apply_error(config, events.last()) is None
    }
}

/// The trades among events, in their order.
pub open spec fn trades_of(events: Seq<BookEvent>) -> Seq<Trade>
    decreases events.len(),
{
    if events.len() == 0 {
        Seq::empty()
    } else {
        match events.last() {
            BookEvent::Trade(trade) => trades_of(events.drop_last()).push(trade),
            _ => trades_of(events.drop_last()),
        }
    }
}

/// How much a trade moves.
pub open spec fn moved() -> spec_fn(Trade) -> int {
    |trade: Trade| trade.quantity.spec_get() as int
}

/// What a trade is worth.
pub open spec fn worth() -> spec_fn(Trade) -> int {
    |trade: Trade| trade.price.spec_units() * trade.quantity.spec_get()
}

/// Whether a price is that of one of the trades, and no trade has a higher one.
pub open spec fn is_highest(trades: Seq<Trade>, price: Price) -> bool {
    &&& exists|i: int| 0 <= i < trades.len() && (#[trigger] trades[i]).price == price
    &&& forall|i: int|
        0 <= i < trades.len() ==> (#[trigger] trades[i]).price.spec_units() <= price.spec_units()
}

/// Whether a price is that of one of the trades, and no trade has a lower one.
pub open spec fn is_lowest(trades: Seq<Trade>, price: Price) -> bool {
    &&& exists|i: int| 0 <= i < trades.len() && (#[trigger] trades[i]).price == price
    &&& forall|i: int|
        0 <= i < trades.len() ==> (#[trigger] trades[i]).price.spec_units() >= price.spec_units()
}

/// The statistics of a book sum up the trades that it accepted, and nothing else: how many
/// they were, what they moved, what they were worth, the price of the last one, the highest
/// and the lowest price.
pub proof fn statistics_sum_up_the_trades(config: BookConfig, events: Seq<BookEvent>)
    requires
        accepts_all(BookModel::empty(), config, events),
        forall|i: int|
            0 <= i < trades_of(events).len() ==> (#[trigger] trades_of(
                events,
            )[i]).price.spec_units() > 0,
    ensures
        ({
            let trades = trades_of(events);
            let shown = after_all(BookModel::empty(), events).statistics;
            &&& shown.trade_count == trades.len()
            &&& shown.total_quantity == seq_sum(trades, moved())
            &&& shown.total_turnover_units == seq_sum(trades, worth())
            &&& trades.len() == 0 ==> shown.last_price is None && shown.high_price is None
                && shown.low_price is None
            &&& trades.len() > 0 ==> {
                &&& shown.last_price == Some(trades.last().price)
                &&& shown.high_price is Some
                &&& is_highest(trades, shown.high_price->0)
                &&& shown.low_price is Some
                &&& is_lowest(trades, shown.low_price->0)
            }
        }),
    decreases events.len(),
{
    if events.len() > 0 {
        let earlier = events.drop_last();
        assert forall|i: int| 0 <= i < trades_of(earlier).len() implies (#[trigger] trades_of(
            earlier,
        )[i]).price.spec_units() > 0 by {
            assert(trades_of(events)[i] == trades_of(earlier)[i]);
        }
        statistics_sum_up_the_trades(config, earlier);
        let before = after_all(BookModel::empty(), earlier);
        let olds = trades_of(earlier);
        if let BookEvent::Trade(trade) = events.last() {
            let trades = olds.push(trade);
            assert(trades_of(events) == trades);
            assert(trades_of(events)[olds.len() as int] == trade);
            trades_move_the_statistics(before, config.unknown_trade_policy, trade);
            crate::sums::lemma_sum_push(olds, trade, moved());
            crate::sums::lemma_sum_push(olds, trade, worth());
            let shown = after_all(BookModel::empty(), events).statistics;
            let high = shown.high_price->0;
            let low = shown.low_price->0;
            assert(trades.last().price == trade.price);
            assert(trades[olds.len() as int].price == trade.price);
            if olds.len() > 0 {
                let old_high = before.statistics.high_price->0;
                let at = choose|i: int| 0 <= i < olds.len() && (#[trigger] olds[i]).price == old_high;
                assert(trades[at].price == old_high);
                let old_low = before.statistics.low_price->0;
                let at = choose|i: int| 0 <= i < olds.len() && (#[trigger] olds[i]).price == old_low;
                assert(trades[at].price == old_low);
                assert forall|i: int| 0 <= i < trades.len() implies low.spec_units()
                    <= (#[trigger] trades[i]).price.spec_units() <= high.spec_units() by {
                    if i < olds.len() {
                        assert(trades[i] == olds[i]);
                    }
                }
            }
        } else {
            additions_and_cancellations_do_not_trade(before, events.last());
        }
    }
}

/// An accepted trade counts once with its price and its quantity. It never lowers the
/// highest price and never raises the lowest one, and each is then the one before or its own.
pub proof fn trades_move_the_statistics(m: BookModel, policy: UnknownTradePolicy, trade: Trade)
    requires
        m.trade_error(trade.bid_order, trade.ask_order, trade.price, trade.quantity, policy)
            is None,
        trade.price.spec_units() > 0,
    ensures
        ({
            let before = m.statistics;
            let after = m.apply_next(BookEvent::Trade(trade)).statistics;
            let units = trade.price.spec_units();
            &&& after.trade_count == before.trade_count + 1
            &&& after.total_quantity == before.total_quantity + trade.quantity.spec_get()
            &&& after.total_turnover_units == before.total_turnover_units + units
                * trade.quantity.spec_get()
            &&& after.last_price == Some(trade.price)
            &&& after.high_price is Some
            &&& after.low_price is Some
            &&& units <= after.high_price->0.spec_units()
            &&& after.low_price->0.spec_units() <= units
            &&& before.high_price matches Some(high) ==> high.spec_units()
                <= after.high_price->0.spec_units()
            &&& before.low_price matches Some(low) ==> after.low_price->0.spec_units()
                <= low.spec_units()
            &&& after.high_price == Some(trade.price) || before.high_price is Some
                && after.high_price == before.high_price
            &&& after.low_price == Some(trade.price) || before.low_price is Some && after.low_price
                == before.low_price
        }),
{
    let units = trade.price.spec_units() as int;
    let quantity = trade.quantity.spec_get() as int;
    assert(0 <= units * quantity) by (nonlinear_arith)
        requires
            0 <= units,
            0 <= quantity,
    ;
}

/// Additions and cancellations leave the statistics alone.
pub proof fn additions_and_cancellations_do_not_trade(m: BookModel, event: BookEvent)
    requires
        !(event is Trade),
    ensures
        m.apply_next(event).statistics == m.statistics,
{
}

/// Whether an order of a side at a price reaches a level of the other side.
pub open spec fn reaches(side: Side, price: Price, level: Price) -> bool {
    match side {
        Side::Buy => level.spec_units() <= price.spec_units(),
        Side::Sell => price.spec_units() <= level.spec_units(),
    }
}

/// Whether an order of a side at a price reaches any level of the other side.
pub open spec fn reaches_some(m: BookModel, side: Side, price: Price) -> bool {
    exists|level: Price| #[trigger]
        opposite(m, side).queues.contains_key(level) && reaches(side, price, level)
}

/// The side that orders of a side trade with.
pub open spec fn opposite(m: BookModel, side: Side) -> SideModel {
    match side {
        Side::Buy => m.asks,
        Side::Sell => m.bids,
    }
}

proof fn lemma_best_exists(side: Side, queues: Map<Price, Seq<OrderKey>>, levels: Set<Price>)
    requires
        levels.finite(),
        levels.len() > 0,
        forall|price: Price| #[trigger] levels.contains(price) ==> queues.contains_key(price),
    ensures
        exists|best: Price| #[trigger]
            levels.contains(best) && forall|other: Price| #[trigger]
                levels.contains(other) ==> at_least_as_good(side, best, other),
    decreases levels.len(),
{
    let one = levels.choose();
    let rest = levels.remove(one);
    if rest.len() == 0 {
        assert forall|other: Price| #[trigger] levels.contains(other) implies at_least_as_good(
            side,
            one,
            other,
        ) by {
            if other != one {
                assert(rest.contains(other));
                assert(rest.len() != 0) by {
                    vstd::set_lib::lemma_set_empty_equivalency_len(rest);
                }
            }
        }
        assert(levels.contains(one));
    } else {
        lemma_best_exists(side, queues, rest);
        let best = choose|best: Price| #[trigger]
            rest.contains(best) && forall|other: Price| #[trigger]
                rest.contains(other) ==> at_least_as_good(side, best, other);
        let better = if at_least_as_good(side, one, best) {
            one
        } else {
            best
        };
        assert(levels.contains(better));
        assert forall|other: Price| #[trigger] levels.contains(other) implies at_least_as_good(
            side,
            better,
            other,
        ) by {
            if other != one {
                assert(rest.contains(other));
            }
        }
    }
}

/// An order crosses exactly where there is a level on the other side that it reaches.
pub proof fn orders_cross_where_they_reach_a_level(m: BookModel, side: Side, price: Price)
    requires
        opposite(m, side).queues.dom().finite(),
    ensures
        m.crosses(side, price) <==> reaches_some(m, side, price),
{
    let queues = opposite(m, side).queues;
    assert(m.side(side.spec_opposite()).queues == queues);
    lemma_crossing_needs_a_level(m, side, price);
    if reaches_some(m, side, price) {
        let level = choose|level: Price| #[trigger]
            queues.contains_key(level) && reaches(side, price, level);
        assert(queues.dom().contains(level));
        assert(queues.dom().len() > 0) by {
            vstd::set_lib::lemma_set_empty_equivalency_len(queues.dom());
        }
        let away = side.spec_opposite();
        lemma_best_exists(away, queues, queues.dom());
        let best = choose|best: Price| #[trigger]
            queues.dom().contains(best) && forall|other: Price| #[trigger]
                queues.dom().contains(other) ==> at_least_as_good(away, best, other);
        assert(is_best(away, queues, best));
        assert(m.best_price(away) is Some);
        let chosen = m.best_price(away)->0;
        assert(is_best(away, queues, chosen));
        assert(at_least_as_good(away, chosen, level));
    }
}

proof fn lemma_crossing_needs_a_level(m: BookModel, side: Side, price: Price)
    ensures
        m.crosses(side, price) ==> reaches_some(m, side, price),
{
    if m.crosses(side, price) {
        let away = side.spec_opposite();
        let queues = opposite(m, side).queues;
        let best = m.best_price(away)->0;
        assert(is_best(away, queues, best));
        assert(queues.contains_key(best) && reaches(side, price, best));
    }
}

/// Whether a price is the best level of a side: the highest bid or the lowest ask.
pub open spec fn is_top(side: Side, levels: SideModel, price: Price) -> bool {
    &&& levels.queues.contains_key(price)
    &&& forall|other: Price| #[trigger]
        levels.queues.contains_key(other) ==> match side {
            Side::Buy => other.spec_units() <= price.spec_units(),
            Side::Sell => price.spec_units() <= other.spec_units(),
        }
}

/// Where a new order goes: its price is the one given, or the best of its own or of the
/// other side; it is visible, behind all orders of its price, unless its behaviour or a level
/// that it crosses hides it. Nothing else changes.
pub proof fn new_orders_take_their_place(m: BookModel, config: BookConfig, add: AddOrder)
    requires
        m.apply_error(config, BookEvent::AddOrder(add)) is None,
        !m.orders.contains_key(add.order_key),
    ensures
        ({
            let key = add.order_key;
            let next = m.apply_next(BookEvent::AddOrder(add));
            let order = next.orders[key];
            let price = order.effective_price;
            let quantity = add.quantity.spec_get();
            &&& next.orders == m.orders.insert(key, order)
            &&& order.original_quantity == add.quantity
            &&& order.remaining_quantity == quantity
            &&& order.allow_reentry <==> add.crossing == CrossingBehavior::HideIfCrossing
                || add.crossing == CrossingBehavior::RestAtLastTradePrice
            &&& order.reprice_from_trade <==> add.crossing == CrossingBehavior::RestAtLastTradePrice
            &&& match add.pricing {
                PricingInstruction::Provided(given) => price == Some(given),
                PricingInstruction::SameSideBest => price is Some && is_top(
                    key.side,
                    m.side(key.side),
                    price->0,
                ),
                PricingInstruction::OppositeBest => price is Some && match key.side {
                    Side::Buy => is_top(Side::Sell, m.asks, price->0),
                    Side::Sell => is_top(Side::Buy, m.bids, price->0),
                },
                PricingInstruction::Unpriced => price is None,
            }
            &&& match add.crossing {
                CrossingBehavior::Rest => order.location == OrderLocation::Resting,
                CrossingBehavior::HideIfCrossing => {
                    &&& price is None ==> order.location == OrderLocation::Resting
                    &&& price is Some && m.crosses(key.side, price->0) ==> order.location
                        == OrderLocation::Aggressive
                    &&& price is Some && !m.crosses(key.side, price->0) ==> order.location
                        == OrderLocation::Resting
                },
                _ => order.location == OrderLocation::Aggressive,
            }
            &&& order.location == OrderLocation::Aggressive ==> next.bids == m.bids && next.asks
                == m.asks
            &&& order.location == OrderLocation::Resting ==> {
                &&& price is Some
                &&& joined(m.side(key.side), next.side(key.side), price->0, key, quantity as int)
                &&& match key.side {
                    Side::Buy => next.asks == m.asks,
                    Side::Sell => next.bids == m.bids,
                }
            }
            &&& next.statistics == m.statistics
            &&& m.apply_outcome(BookEvent::AddOrder(add)) == ApplyOutcome::Added {
                key,
                effective_price: price,
                quantity: add.quantity,
                location: order.location,
            }
        }),
{
    let key = add.order_key;
    let next = m.apply_next(BookEvent::AddOrder(add));
    assert(next.orders =~= m.orders.insert(key, next.orders[key]));
    let away = key.side.spec_opposite();
    if add.pricing == PricingInstruction::SameSideBest {
        assert(is_best(key.side, m.side(key.side).queues, m.best_price(key.side)->0));
    }
    if add.pricing == PricingInstruction::OppositeBest {
        assert(is_best(away, m.side(away).queues, m.best_price(away)->0));
    }
}

/// Whether a side is another with one order more at the end of the queue at a price.
pub open spec fn joined(
    before: SideModel,
    after: SideModel,
    price: Price,
    key: OrderKey,
    quantity: int,
) -> bool {
    &&& after.total_quantity == before.total_quantity + quantity
    &&& after.weighted_price_quantity == before.weighted_price_quantity + price.spec_units()
        * quantity
    &&& after.queue(price) == before.queue(price).push(key)
    &&& forall|other: Price|
        other != price ==> #[trigger] after.queue(other) == before.queue(other)
}

/// A cancelled order leaves the book with all that is left of it, and what it showed leaves
/// its side. Nothing else changes. An order that is not in the book cannot be cancelled.
pub proof fn cancelled_orders_leave(m: BookModel, cancel: OrderCancel)
    ensures
        !m.orders.contains_key(cancel.order_key) ==> m.cancel_error(cancel.order_key) == Some(
            BookError::UnknownCancellation(cancel.order_key),
        ),
        m.orders.contains_key(cancel.order_key) ==> {
            let key = cancel.order_key;
            let order = m.orders[key];
            let next = m.apply_next(BookEvent::OrderCancel(cancel));
            &&& m.cancel_error(key) is None
            &&& next.orders == m.orders.remove(key)
            &&& m.apply_outcome(BookEvent::OrderCancel(cancel)) == ApplyOutcome::Cancelled {
                key,
                cancelled_quantity: order.remaining_quantity,
            }
            &&& order.location == OrderLocation::Aggressive ==> next.bids == m.bids && next.asks
                == m.asks
            &&& order.location == OrderLocation::Resting ==> {
                &&& next.side(key.side).total_quantity == m.side(key.side).total_quantity
                    - order.remaining_quantity
                &&& next.side(key.side).weighted_price_quantity == m.side(
                    key.side,
                ).weighted_price_quantity - order.effective_price->0.spec_units()
                    * order.remaining_quantity
                &&& match key.side {
                    Side::Buy => next.asks == m.asks,
                    Side::Sell => next.bids == m.bids,
                }
                &&& forall|other: Price|
                    other != order.effective_price->0 ==> #[trigger] next.side(key.side).queue(
                        other,
                    ) == m.side(key.side).queue(other)
            }
            &&& next.statistics == m.statistics
            &&& next.seen == m.seen
        },
{
}

/// How a trade changes a side: what a visible order gives leaves it, and what is left of a
/// hidden order that now is visible joins it.
pub open spec fn traded_side(
    m: BookModel,
    next: BookModel,
    side: Side,
    reference: OrderReference,
    quantity: int,
) -> bool {
    let before = m.side(side);
    let after = next.side(side);
    match reference {
        OrderReference::Resolved(key) => {
            let order = m.orders[key];
            if !m.orders.contains_key(key) {
                after == before
            } else if order.location == OrderLocation::Resting {
                let price = order.effective_price->0;
                &&& after.total_quantity == before.total_quantity - quantity
                &&& after.weighted_price_quantity == before.weighted_price_quantity
                    - price.spec_units() * quantity
                &&& order.remaining_quantity > quantity ==> after.queues == before.queues
                &&& forall|other: Price|
                    other != price ==> #[trigger] after.queue(other) == before.queue(other)
            } else if next.orders.contains_key(key) && next.orders[key].location
                == OrderLocation::Resting {
                joined(
                    before,
                    after,
                    next.orders[key].effective_price->0,
                    key,
                    order.remaining_quantity - quantity,
                )
            } else {
                after == before
            }
        },
        _ => after == before,
    }
}

/// An accepted trade takes its quantity once from each order that it names and that is in
/// the book; the two sides change by that alone.
pub proof fn trades_change_the_sides_they_name(
    m: BookModel,
    policy: UnknownTradePolicy,
    trade: Trade,
)
    requires
        m.trade_error(trade.bid_order, trade.ask_order, trade.price, trade.quantity, policy)
            is None,
    ensures
        ({
            let next = m.apply_next(BookEvent::Trade(trade));
            let quantity = trade.quantity.spec_get() as int;
            &&& traded_side(m, next, Side::Buy, trade.bid_order, quantity)
            &&& traded_side(m, next, Side::Sell, trade.ask_order, quantity)
            &&& next.seen == m.seen
            &&& m.apply_outcome(BookEvent::Trade(trade)) == ApplyOutcome::Traded {
                bid_reduction: named(m, trade.bid_order, trade.quantity.spec_get()),
                ask_reduction: named(m, trade.ask_order, trade.quantity.spec_get()),
            }
        }),
{
    lemma_traded_sides(
        m,
        policy,
        trade.bid_order,
        trade.ask_order,
        trade.price,
        trade.quantity,
    );
}

/// A quantity where a reference names an order of a book, else nothing.
pub open spec fn named(m: BookModel, reference: OrderReference, quantity: u64) -> u64 {
    match reference {
        OrderReference::Resolved(key) => if m.orders.contains_key(key) {
            quantity
        } else {
            0
        },
        _ => 0,
    }
}

/// The two sides after the quantities of a trade were taken and hidden orders reentered.
pub(crate) proof fn lemma_traded_sides(
    m: BookModel,
    policy: UnknownTradePolicy,
    bid: OrderReference,
    ask: OrderReference,
    price: Price,
    quantity: Quantity,
)
    requires
        m.trade_error(bid, ask, price, quantity, policy) is None,
    ensures
        ({
            let next = m.trade_next(bid, ask, price, quantity);
            &&& traded_side(m, next, Side::Buy, bid, quantity.spec_get() as int)
            &&& traded_side(m, next, Side::Sell, ask, quantity.spec_get() as int)
        }),
{
}

/// What is left of a hidden order after its trade is visible where no level of the other side
/// is then left for it to meet: at the price of the trade if the order takes its price from trades, else at its
/// own price. It then waits behind all orders of that price.
pub proof fn hidden_remainders_become_visible(
    m: BookModel,
    policy: UnknownTradePolicy,
    trade: Trade,
    key: OrderKey,
)
    requires
        m.trade_error(trade.bid_order, trade.ask_order, trade.price, trade.quantity, policy)
            is None,
        trade.bid_order == OrderReference::Resolved(key) || trade.ask_order
            == OrderReference::Resolved(key),
        m.orders.contains_key(key),
        m.orders[key].location == OrderLocation::Aggressive,
        m.orders[key].allow_reentry,
        m.orders[key].reprice_from_trade || m.orders[key].effective_price is Some,
        m.orders[key].remaining_quantity > trade.quantity.spec_get(),
    ensures
        ({
            let next = m.apply_next(BookEvent::Trade(trade));
            let price = if m.orders[key].reprice_from_trade {
                trade.price
            } else {
                m.orders[key].effective_price->0
            };
            let left = m.orders[key].remaining_quantity - trade.quantity.spec_get();
            &&& next.orders.contains_key(key)
            &&& next.orders[key].remaining_quantity == left
            &&& next.orders[key].effective_price == Some(price)
            &&& (forall|level: Price| #[trigger]
                opposite(next, key.side).queues.contains_key(level) ==> !reaches(
                    key.side,
                    price,
                    level,
                )) ==> {
                &&& next.orders[key].location == OrderLocation::Resting
                &&& joined(m.side(key.side), next.side(key.side), price, key, left)
                &&& next.side(key.side).queue(price).last() == key
                &&& next.side(key.side).total_quantity == m.side(key.side).total_quantity + left
            }
        }),
{
    let next = m.apply_next(BookEvent::Trade(trade));
    let price = if m.orders[key].reprice_from_trade {
        trade.price
    } else {
        m.orders[key].effective_price->0
    };
    lemma_traded_sides(
        m,
        policy,
        trade.bid_order,
        trade.ask_order,
        trade.price,
        trade.quantity,
    );
    let traded = m.traded(trade.bid_order, trade.ask_order, trade.price, trade.quantity);
    let shown = if key.side == Side::Buy {
        traded
    } else {
        traded.reenter_known(m.known(trade.bid_order))
    };
    assert(key.side == Side::Buy <==> trade.bid_order == OrderReference::Resolved(key));
    if forall|level: Price| #[trigger]
        opposite(next, key.side).queues.contains_key(level) ==> !reaches(key.side, price, level) {
        assert forall|level: Price| #[trigger]
            opposite(shown, key.side).queues.contains_key(level) implies opposite(
            next,
            key.side,
        ).queues.contains_key(level) by {}
        lemma_crossing_needs_a_level(shown, key.side, price);
        assert(!shown.crosses(key.side, price));
        assert(shown.reenters(key));
        assert(next.orders[key].location == OrderLocation::Resting);
    }
}

/// Why trades are refused: an order of the wrong side, an order that is unknown where
/// unknown ones are rejected, or a quantity that an order no longer has.
pub proof fn refused_trades_are_explained(m: BookModel, policy: UnknownTradePolicy, trade: Trade)
    ensures
        ({
            let error = m.trade_error(
                trade.bid_order,
                trade.ask_order,
                trade.price,
                trade.quantity,
                policy,
            );
            let quantity = trade.quantity.spec_get();
            let bid = trade.bid_order;
            let ask = trade.ask_order;
            &&& bid matches OrderReference::Resolved(key) ==> {
                &&& key.side == Side::Sell ==> error == Some(
                    BookError::InvalidTradeReferenceSide {
                        expected: Side::Buy,
                        actual: Side::Sell,
                    },
                )
                &&& key.side == Side::Buy && ask is Absent && !m.orders.contains_key(key) && policy
                    == UnknownTradePolicy::Reject ==> error == Some(
                    BookError::UnknownTradeReference { side: Side::Buy, order_id: key.order_id },
                )
                &&& key.side == Side::Buy && ask is Absent && m.orders.contains_key(key)
                    && m.orders[key].remaining_quantity < quantity ==> error == Some(
                    BookError::TradeOverfill {
                        key,
                        remaining: m.orders[key].remaining_quantity,
                        trade: quantity,
                    },
                )
            }
            &&& ask matches OrderReference::Resolved(key) ==> bid is Absent ==> {
                &&& key.side == Side::Buy ==> error == Some(
                    BookError::InvalidTradeReferenceSide {
                        expected: Side::Sell,
                        actual: Side::Buy,
                    },
                )
                &&& key.side == Side::Sell && !m.orders.contains_key(key) && policy
                    == UnknownTradePolicy::Reject ==> error == Some(
                    BookError::UnknownTradeReference { side: Side::Sell, order_id: key.order_id },
                )
                &&& key.side == Side::Sell && m.orders.contains_key(key)
                    && m.orders[key].remaining_quantity < quantity ==> error == Some(
                    BookError::TradeOverfill {
                        key,
                        remaining: m.orders[key].remaining_quantity,
                        trade: quantity,
                    },
                )
            }
            &&& bid is Absent && ask is Absent && policy == UnknownTradePolicy::Reject
                && m.statistics.total_quantity + quantity <= u64::MAX
                && m.statistics.total_turnover_units + trade.price.spec_units() * quantity
                <= u128::MAX && m.statistics.trade_count < u64::MAX ==> error is None
            &&& bid matches OrderReference::Unresolved { side, order_id } ==> {
                &&& side == Side::Sell ==> error == Some(
                    BookError::InvalidTradeReferenceSide {
                        expected: Side::Buy,
                        actual: Side::Sell,
                    },
                )
                &&& side == Side::Buy && ask is Absent && policy == UnknownTradePolicy::Reject
                    ==> error == Some(BookError::UnknownTradeReference { side, order_id })
            }
        }),
{
}

/// Events come numbered from one without a gap; one for another book is refused before its
/// number is looked at.
pub proof fn events_come_in_sequence(m: BookModel, key: BookKey, meta: EventMeta)
    ensures
        ({
            let due: int = match m.last_meta {
                None => 1,
                Some(last) => last.apply_sequence.spec_get() + 1,
            };
            let error = m.meta_error(key, meta);
            &&& meta.book_key.spec_same(key) && meta.apply_sequence.spec_get() == due ==> error
                is None
            &&& meta.book_key.spec_same(key) && due <= u64::MAX && meta.apply_sequence.spec_get()
                != due ==> error is Some && error->0 is InvalidApplySequence
                && error->0->InvalidApplySequence_expected.spec_get() == due
                && error->0->InvalidApplySequence_actual == meta.apply_sequence
            &&& meta.book_key.spec_same(key) && due > u64::MAX ==> error == Some(
                BookError::ApplySequenceOverflow,
            )
            &&& !meta.book_key.spec_same(key) ==> error == Some(
                BookError::BookKeyMismatch { expected: key, actual: meta.book_key },
            )
        }),
{
}

/// An accepted event leaves its sequences and times with the book.
pub proof fn books_keep_the_last_times(m: BookModel, config: BookConfig, event: BookEvent)
    requires
        m.apply_error(config, event) is None,
    ensures
        ({
            let meta = match event {
                BookEvent::AddOrder(add) => add.meta,
                BookEvent::OrderCancel(cancel) => cancel.meta,
                BookEvent::Trade(trade) => trade.meta,
            };
            let last = m.apply_next(event).last_meta;
            &&& last is Some
            &&& last->0.raw_sequence == meta.raw_sequence
            &&& last->0.apply_sequence == meta.apply_sequence
            &&& last->0.local_time == meta.local_time
            &&& last->0.quote_time == meta.quote_time
            &&& m.revision < u64::MAX ==> m.apply_next(event).revision == m.revision + 1
        }),
{
}

/// An order that waits out of sight for its price can be made visible there, behind all
/// orders of that price, unless it would cross; an order that is not waiting cannot.
pub proof fn waiting_orders_can_be_shown(m: BookModel, key: OrderKey, price: Price)
    ensures
        m.rest_error(key, price) is None ==> {
            let next = m.rest_next(key, price);
            let order = m.orders[key];
            &&& m.orders.contains_key(key)
            &&& order.location == OrderLocation::Aggressive
            &&& !order.allow_reentry
            &&& !m.crosses(key.side, price)
            &&& next.orders[key].location == OrderLocation::Resting
            &&& next.orders[key].effective_price == Some(price)
            &&& next.orders[key].remaining_quantity == order.remaining_quantity
            &&& joined(
                m.side(key.side),
                next.side(key.side),
                price,
                key,
                order.remaining_quantity as int,
            )
            &&& match key.side {
                Side::Buy => next.asks == m.asks,
                Side::Sell => next.bids == m.bids,
            }
            &&& forall|other: OrderKey| #[trigger]
                m.orders.contains_key(other) && other != key ==> next.orders[other]
                    == m.orders[other]
        },
        !m.orders.contains_key(key) ==> m.rest_error(key, price) == Some(
            BookError::UnknownCancellation(key),
        ),
{
}

/// A depth lists every level of its side once, the highest bid or the lowest ask first, with
/// the sum of what is left of the orders that wait there and with their number.
pub proof fn depths_list_the_best_first(m: BookModel, side: Side, levels: Seq<LevelView>)
    requires
        m.is_depth(side, levels),
    ensures
        forall|i: int, j: int|
            0 <= i < j < levels.len() ==> match side {
                Side::Buy => #[trigger] levels[i].price.spec_units()
                    > #[trigger] levels[j].price.spec_units(),
                Side::Sell => levels[i].price.spec_units() < levels[j].price.spec_units(),
            },
        forall|i: int|
            0 <= i < levels.len() ==> {
                let level = #[trigger] levels[i];
                let queue = m.side(side).queues[level.price];
                &&& m.side(side).queues.contains_key(level.price)
                &&& level.side == side
                &&& level.total_quantity == seq_sum(
                    queue,
                    |key: OrderKey| m.orders[key].remaining_quantity as int,
                ) as u64
                &&& level.order_count == queue.len() as usize
            },
        forall|price: Price| #[trigger]
            m.side(side).queues.contains_key(price) ==> exists|i: int|
                0 <= i < levels.len() && (#[trigger] levels[i]).price == price,
{
    assert forall|i: int, j: int| 0 <= i < j < levels.len() implies match side {
        Side::Buy => #[trigger] levels[i].price.spec_units()
            > #[trigger] levels[j].price.spec_units(),
        Side::Sell => levels[i].price.spec_units() < levels[j].price.spec_units(),
    } by {
        super::model::lemma_depth_order(m, side, levels, i, j);
        if levels[i].price.spec_units() == levels[j].price.spec_units() {
            crate::market_data::price_is_its_units(levels[i].price, levels[j].price);
        }
    }
    assert forall|i: int| 0 <= i < levels.len() implies {
        let level = #[trigger] levels[i];
        let queue = m.side(side).queues[level.price];
        &&& m.side(side).queues.contains_key(level.price)
        &&& level.side == side
        &&& level.total_quantity == seq_sum(
            queue,
            |key: OrderKey| m.orders[key].remaining_quantity as int,
        ) as u64
        &&& level.order_count == queue.len() as usize
    } by {
        super::model::lemma_depth_entry(m, side, levels, i);
        let queue = m.side(side).queues[levels[i].price];
        crate::sums::lemma_sum_congruence(
            queue,
            super::model::remaining_of(m.orders),
            |key: OrderKey| m.orders[key].remaining_quantity as int,
        );
    }
    assert forall|price: Price| #[trigger]
        m.side(side).queues.contains_key(price) implies exists|i: int|
        0 <= i < levels.len() && (#[trigger] levels[i]).price == price by {
        let i = super::model::lemma_depth_place(m, side, levels, price);
        assert(levels[i].price == price);
    }
}

/// The best price of a side is its highest bid or its lowest ask, and is there exactly where
/// the side has a level.
pub proof fn best_prices_are_at_the_top(m: BookModel, side: Side)
    requires
        m.side(side).queues.dom().finite(),
    ensures
        match m.best_price(side) {
            Some(price) => is_top(side, m.side(side), price),
            None => forall|price: Price| !#[trigger] m.side(side).queues.contains_key(price),
        },
{
    let queues = m.side(side).queues;
    if m.best_price(side) is Some {
        assert(is_best(side, queues, m.best_price(side)->0));
    } else {
        assert forall|price: Price| !#[trigger] queues.contains_key(price) by {
            if queues.contains_key(price) {
                assert(queues.dom().contains(price));
                assert(queues.dom().len() > 0) by {
                    vstd::set_lib::lemma_set_empty_equivalency_len(queues.dom());
                }
                lemma_best_exists(side, queues, queues.dom());
                let best = choose|best: Price| #[trigger]
                    queues.dom().contains(best) && forall|other: Price| #[trigger]
                        queues.dom().contains(other) ==> at_least_as_good(side, best, other);
                assert(is_best(side, queues, best));
            }
        }
    }
}

/// What is shown of an order is what the book holds of it; what is shown at a price are the
/// orders that wait there, first come first.
pub proof fn orders_are_shown_as_they_are(m: BookModel, key: OrderKey, side: Side, price: Price)
    ensures
        ({
            let shown = m.order_view(key);
            let order = m.orders[key];
            &&& shown.key == key
            &&& shown.effective_price == order.effective_price
            &&& shown.original_quantity == order.original_quantity
            &&& shown.remaining_quantity == order.remaining_quantity
            &&& shown.location == order.location
        }),
        ({
            let shown = m.orders_at(side, price);
            let queue = m.side(side).queue(price);
            &&& shown.len() == queue.len()
            &&& forall|i: int|
                0 <= i < shown.len() ==> {
                    let order = #[trigger] shown[i];
                    &&& order.key == queue[i]
                    &&& order.remaining_quantity == m.orders[queue[i]].remaining_quantity
                    &&& order.original_quantity == m.orders[queue[i]].original_quantity
                }
        }),
        m.side(Side::Buy) == m.bids,
        m.side(Side::Sell) == m.asks,
        !m.side(side).queues.contains_key(price) ==> m.side(side).queue(price).len() == 0,
        m.side(side).queues.contains_key(price) ==> m.side(side).queue(price)
            == m.side(side).queues[price],
{
}

/// A book before its first event holds nothing and has traded nothing.
pub proof fn fresh_books_are_empty()
    ensures
        ({
            let book = BookModel::empty();
            &&& book.orders.dom() == Set::<OrderKey>::empty()
            &&& book.seen == Set::<OrderKey>::empty()
            &&& book.bids.queues.dom() == Set::<Price>::empty()
            &&& book.asks.queues.dom() == Set::<Price>::empty()
            &&& book.bids.total_quantity == 0 && book.bids.weighted_price_quantity == 0
            &&& book.asks.total_quantity == 0 && book.asks.weighted_price_quantity == 0
            &&& book.statistics.trade_count == 0 && book.statistics.total_quantity == 0
            &&& book.statistics.total_turnover_units == 0
            &&& book.statistics.last_price is None && book.statistics.high_price is None
            &&& book.statistics.low_price is None
            &&& book.last_meta is None
            &&& book.revision == 0
        }),
{
}

/// Why a new order is refused: its key was used before, or the best price that it asks for is
/// not there, or it is to be visible without a price, or its side would hold too much.
pub proof fn refused_orders_are_explained(m: BookModel, add: AddOrder)
    ensures
        ({
            let key = add.order_key;
            let error = m.add_error(key, add.pricing, add.crossing, add.quantity);
            let away = match key.side {
                Side::Buy => Side::Sell,
                Side::Sell => Side::Buy,
            };
            &&& m.seen.contains(key) ==> error == Some(BookError::DuplicateOrder(key))
            &&& !m.seen.contains(key) ==> {
                &&& add.pricing == PricingInstruction::SameSideBest && m.best_price(key.side)
                    is None ==> error == Some(
                    BookError::ReferencePriceUnavailable {
                        side: key.side,
                        instruction: "same-side best",
                    },
                )
                &&& add.pricing == PricingInstruction::OppositeBest && m.best_price(away) is None
                    ==> error == Some(
                    BookError::ReferencePriceUnavailable {
                        side: key.side,
                        instruction: "opposite best",
                    },
                )
                &&& add.pricing == PricingInstruction::Unpriced && add.crossing
                    == CrossingBehavior::Rest ==> error == Some(BookError::UnpricedVisibleOrder)
                &&& add.pricing == PricingInstruction::Unpriced && (add.crossing
                    == CrossingBehavior::AlwaysHide || add.crossing
                    == CrossingBehavior::RestAtLastTradePrice) ==> error is None
                &&& add.pricing matches PricingInstruction::Provided(price) ==> {
                    let side = m.side(key.side);
                    let quantity = add.quantity.spec_get() as int;
                    &&& add.crossing == CrossingBehavior::Rest ==> {
                        &&& side.total_quantity + quantity > u64::MAX ==> error == Some(
                            BookError::ArithmeticOverflow("side quantity"),
                        )
                        &&& side.total_quantity + quantity <= u64::MAX
                            && side.weighted_price_quantity + price.spec_units() * quantity
                            <= u128::MAX && side.queue(price).len() < usize::MAX ==> error is None
                    }
                    &&& add.crossing == CrossingBehavior::AlwaysHide ==> error is None
                }
            }
        }),
{
}

/// Whether an order left its queue, in which all others keep their order; a price without
/// orders is no level.
pub open spec fn left_queue(
    before: SideModel,
    after: SideModel,
    price: Price,
    key: OrderKey,
    place: int,
) -> bool {
    let old_queue = before.queue(price);
    let new_queue = after.queue(price);
    &&& 0 <= place < old_queue.len()
    &&& old_queue[place] == key
    &&& new_queue.len() == old_queue.len() - 1
    &&& forall|i: int| 0 <= i < place ==> #[trigger] new_queue[i] == old_queue[i]
    &&& forall|i: int| place <= i < new_queue.len() ==> #[trigger] new_queue[i] == old_queue[i + 1]
    &&& after.queues.contains_key(price) <==> new_queue.len() > 0
}

/// A visible order that is cancelled leaves its queue, and all others there keep their order.
pub proof fn cancelled_orders_leave_their_queue(m: BookModel, cancel: OrderCancel)
    requires
        ({
            let order = m.orders[cancel.order_key];
            &&& m.orders.contains_key(cancel.order_key)
            &&& order.location == OrderLocation::Resting
            &&& m.side(cancel.order_key.side).queue(order.effective_price->0).contains(
                cancel.order_key,
            )
        }),
    ensures
        ({
            let key = cancel.order_key;
            let next = m.apply_next(BookEvent::OrderCancel(cancel));
            exists|place: int| #[trigger]
                left_queue(
                    m.side(key.side),
                    next.side(key.side),
                    m.orders[key].effective_price->0,
                    key,
                    place,
                )
        }),
{
    let key = cancel.order_key;
    let next = m.apply_next(BookEvent::OrderCancel(cancel));
    let price = m.orders[key].effective_price->0;
    let place = m.side(key.side).queue(price).index_of(key);
    assert(left_queue(m.side(key.side), next.side(key.side), price, key, place));
}

/// A visible order that a trade fills leaves the book and its queue, and all others there keep
/// their order.
pub proof fn filled_orders_leave_their_queue(
    m: BookModel,
    policy: UnknownTradePolicy,
    trade: Trade,
    key: OrderKey,
)
    requires
        m.trade_error(trade.bid_order, trade.ask_order, trade.price, trade.quantity, policy)
            is None,
        trade.bid_order == OrderReference::Resolved(key) || trade.ask_order
            == OrderReference::Resolved(key),
        m.orders.contains_key(key),
        m.orders[key].location == OrderLocation::Resting,
        m.orders[key].remaining_quantity == trade.quantity.spec_get(),
        m.side(key.side).queue(m.orders[key].effective_price->0).contains(key),
    ensures
        !m.apply_next(BookEvent::Trade(trade)).orders.contains_key(key),
        exists|place: int| #[trigger]
            left_queue(
                m.side(key.side),
                m.apply_next(BookEvent::Trade(trade)).side(key.side),
                m.orders[key].effective_price->0,
                key,
                place,
            ),
{
    let next = m.apply_next(BookEvent::Trade(trade));
    let price = m.orders[key].effective_price->0;
    let place = m.side(key.side).queue(price).index_of(key);
    let bid = m.known(trade.bid_order);
    let ask = m.known(trade.ask_order);
    assert(bid is Some ==> (bid->0).side == Side::Buy);
    assert(ask is Some ==> (ask->0).side == Side::Sell);
    let traded = m.traded(trade.bid_order, trade.ask_order, trade.price, trade.quantity);
    assert(!traded.orders.contains_key(key));
    assert(!traded.reenter_known(bid).orders.contains_key(key));
    assert(!traded.reenter_known(bid).reenter_known(ask).orders.contains_key(key));
    assert(left_queue(m.side(key.side), next.side(key.side), price, key, place));
}

/// What a refusal of the book says begins with what went wrong and ends with what it holds: of
/// two values that do not agree, the expected one and the actual one stand in their own place.
pub proof fn book_errors_say_what_they_hold(error: BookError)
    ensures
        match error {
            BookError::BookKeyMismatch { expected, actual } => {
                &&& begins(error.text(), "event belongs to "@ + book_key_text(actual))
                &&& ends(error.text(), ", expected "@ + book_key_text(expected))
            },
            BookError::InvalidApplySequence { expected, actual } => {
                &&& begins(
                    error.text(),
                    "expected apply sequence ApplySequence("@ + nat_text(
                        expected.spec_get() as nat,
                    ),
                )
                &&& ends(
                    error.text(),
                    "), got ApplySequence("@ + nat_text(actual.spec_get() as nat) + ")"@,
                )
            },
            BookError::ApplySequenceOverflow => error.text() == "apply sequence overflow"@,
            BookError::DuplicateOrder(key) => {
                &&& begins(error.text(), "order key has already been used: "@)
                &&& ends(error.text(), order_key_text(key))
            },
            BookError::ReferencePriceUnavailable { side, instruction } => {
                &&& begins(error.text(), "reference price is unavailable for "@ + side_text(side))
                &&& ends(error.text(), instruction@)
            },
            BookError::UnpricedVisibleOrder => error.text()
                == "a visible order has no effective price"@,
            BookError::UnknownCancellation(key) => {
                &&& begins(error.text(), "unknown cancellation target: "@)
                &&& ends(error.text(), order_key_text(key))
            },
            BookError::InvalidTradeReferenceSide { expected, actual } => {
                &&& begins(error.text(), "trade reference side "@ + side_text(actual))
                &&& ends(error.text(), " does not match expected side "@ + side_text(expected))
            },
            BookError::UnknownTradeReference { side, order_id } => {
                &&& begins(error.text(), "unknown trade reference for "@ + side_text(side))
                &&& ends(
                    error.text(),
                    " order OrderId("@ + nat_text(order_id.spec_get() as nat) + ")"@,
                )
            },
            BookError::TradeOverfill { key, remaining, trade } => {
                &&& begins(
                    error.text(),
                    "trade quantity exceeds remaining quantity for "@ + order_key_text(key),
                )
                &&& ends(
                    error.text(),
                    ": remaining="@ + nat_text(remaining as nat) + ", trade="@ + nat_text(
                        trade as nat,
                    ),
                )
            },
            BookError::ArithmeticOverflow(what) => {
                &&& begins(error.text(), "arithmetic overflow while updating "@)
                &&& ends(error.text(), what@)
            },
            BookError::ArithmeticUnderflow(what) => {
                &&& begins(error.text(), "arithmetic underflow while updating "@)
                &&& ends(error.text(), what@)
            },
            BookError::InvariantViolation(what) => {
                &&& begins(error.text(), "internal order-book invariant failed: "@)
                &&& ends(error.text(), what@)
            },
            BookError::MissingPriceLevel { side, price } => {
                &&& begins(error.text(), "price level does not exist: "@ + side_text(side))
                &&& ends(error.text(), " Price("@ + int_text(price.spec_units() as int) + ")"@)
            },
        },
        side_text(Side::Buy) == "Buy"@,
        side_text(Side::Sell) == "Sell"@,
{
    let nothing = Seq::<char>::empty();
    match error {
        BookError::BookKeyMismatch { expected, actual } => {
            let start = "event belongs to "@ + book_key_text(actual);
            let end = ", expected "@ + book_key_text(expected);
            assert(error.text() =~= start + end);
            lemma_ends_of_texts(start, nothing, end);
        },
        BookError::InvalidApplySequence { expected, actual } => {
            let start = "expected apply sequence ApplySequence("@ + nat_text(
                expected.spec_get() as nat,
            );
            let end = "), got ApplySequence("@ + nat_text(actual.spec_get() as nat) + ")"@;
            assert(error.text() =~= start + end);
            lemma_ends_of_texts(start, nothing, end);
        },
        BookError::DuplicateOrder(key) => {
            lemma_ends_of_texts(
                "order key has already been used: "@,
                nothing,
                order_key_text(key),
            );
        },
        BookError::ReferencePriceUnavailable { side, instruction } => {
            lemma_ends_of_texts(
                "reference price is unavailable for "@ + side_text(side),
                " "@,
                instruction@,
            );
        },
        BookError::UnknownCancellation(key) => {
            lemma_ends_of_texts("unknown cancellation target: "@, nothing, order_key_text(key));
        },
        BookError::InvalidTradeReferenceSide { expected, actual } => {
            let start = "trade reference side "@ + side_text(actual);
            let end = " does not match expected side "@ + side_text(expected);
            assert(error.text() =~= start + end);
            lemma_ends_of_texts(start, nothing, end);
        },
        BookError::UnknownTradeReference { side, order_id } => {
            let start = "unknown trade reference for "@ + side_text(side);
            let end = " order OrderId("@ + nat_text(order_id.spec_get() as nat) + ")"@;
            assert(error.text() =~= start + end);
            lemma_ends_of_texts(start, nothing, end);
        },
        BookError::TradeOverfill { key, remaining, trade } => {
            let start = "trade quantity exceeds remaining quantity for "@ + order_key_text(key);
            let end = ": remaining="@ + nat_text(remaining as nat) + ", trade="@ + nat_text(
                trade as nat,
            );
            assert(error.text() =~= start + end);
            lemma_ends_of_texts(start, nothing, end);
        },
        BookError::ArithmeticOverflow(what) => {
            lemma_ends_of_texts("arithmetic overflow while updating "@, nothing, what@);
        },
        BookError::ArithmeticUnderflow(what) => {
            lemma_ends_of_texts("arithmetic underflow while updating "@, nothing, what@);
        },
        BookError::InvariantViolation(what) => {
            lemma_ends_of_texts("internal order-book invariant failed: "@, nothing, what@);
        },
        BookError::MissingPriceLevel { side, price } => {
            let start = "price level does not exist: "@ + side_text(side);
            let end = " Price("@ + int_text(price.spec_units() as int) + ")"@;
            assert(error.text() =~= start + end);
            lemma_ends_of_texts(start, nothing, end);
        },
        _ => {},
    }
}

/// Keys are spelled out with their channel, side and number, and with their exchange, day and
/// symbol.
pub proof fn keys_are_spelled_out(order: OrderKey, book: BookKey)
    ensures
        begins(
            order_key_text(order),
            "OrderKey { channel_id: ChannelId("@ + nat_text(order.channel_id.spec_get() as nat),
        ),
        ends(
            order_key_text(order),
            "), side: "@ + side_text(order.side) + ", order_id: OrderId("@ + nat_text(
                order.order_id.spec_get() as nat,
            ) + ") }"@,
        ),
        begins(
            book_key_text(book),
            "BookKey { market: "@ + market_text(book.market) + ", trading_day: TradingDay("@
                + nat_text(book.trading_day.spec_value() as nat),
        ),
        ends(book_key_text(book), "), symbol: Symbol("@ + quoted_text(book.symbol@) + ") }"@),
        market_text(Market::Sse) == "Sse"@,
        market_text(Market::Szse) == "Szse"@,
{
    let nothing = Seq::<char>::empty();
    let start = "OrderKey { channel_id: ChannelId("@ + nat_text(order.channel_id.spec_get() as nat);
    let end = "), side: "@ + side_text(order.side) + ", order_id: OrderId("@ + nat_text(
        order.order_id.spec_get() as nat,
    ) + ") }"@;
    assert(order_key_text(order) =~= start + end);
    lemma_ends_of_texts(start, nothing, end);
    let head = "BookKey { market: "@ + market_text(book.market) + ", trading_day: TradingDay("@
        + nat_text(book.trading_day.spec_value() as nat);
    let tail = "), symbol: Symbol("@ + quoted_text(book.symbol@) + ") }"@;
    assert(book_key_text(book) =~= head + tail);
    lemma_ends_of_texts(head, nothing, tail);
}

/// Two keys name the same book exactly where the market, the day and the symbol are the same.
pub proof fn books_are_told_apart_by_their_key(a: BookKey, b: BookKey)
    ensures
        a.market != b.market ==> !a.spec_same(b),
        a.trading_day.spec_value() != b.trading_day.spec_value() ==> !a.spec_same(b),
        a.symbol@ != b.symbol@ ==> !a.spec_same(b),
        a.market == b.market && a.trading_day.spec_value() == b.trading_day.spec_value()
            && a.symbol@ == b.symbol@ ==> a.spec_same(b),
{
}

} // verus!
