//! How the stored data of a book represents its model.

use vstd::prelude::*;
use vstd::relations::injective_on;
use vstd::set_lib::lemma_map_size;

use crate::market_data::{ChannelId, OrderId, OrderKey, Price, Side};
use crate::sums::{
    lemma_sum_bounds, lemma_sum_congruence, lemma_sum_insert, lemma_sum_push, lemma_sum_remove, lemma_sum_update,
    seq_sum,
};

use super::model::{at_least_as_good, is_best, remaining_of, BookModel, OrderModel, SideModel};
use super::state::{OrderHandle, OrderLocation, OrderState, PriceLevelState, SideAggregate};

verus! {

pub const SIDE_UNIT: u128 = 0x1_0000_0000_0000_0000;

pub const CHANNEL_UNIT: u128 = 0x2_0000_0000_0000_0000;

/// An order key as one integer: channel, side and order number from the top down.
pub(crate) open spec fn key_code(key: OrderKey) -> u128 {
    (key.channel_id.value * CHANNEL_UNIT + (if key.side == Side::Sell {
        SIDE_UNIT as int
    } else {
        0
    }) + key.order_id.value) as u128
}

/// The order key that an integer stands for.
pub(crate) open spec fn key_of_code(code: u128) -> OrderKey {
    OrderKey {
        channel_id: ChannelId { value: (code / CHANNEL_UNIT) as u32 },
        side: if (code / SIDE_UNIT) % 2 == 1 {
            Side::Sell
        } else {
            Side::Buy
        },
        order_id: OrderId { value: (code % SIDE_UNIT) as u64 },
    }
}

pub(crate) proof fn lemma_key_code(key: OrderKey)
    ensures
        key_of_code(key_code(key)) == key,
        key_code(key) == key.channel_id.value * CHANNEL_UNIT + (if key.side == Side::Sell {
            SIDE_UNIT as int
        } else {
            0
        }) + key.order_id.value,
{
    let c = key.channel_id.value as int;
    let s: int = if key.side == Side::Sell {
        1
    } else {
        0
    };
    let id = key.order_id.value as int;
    let code = c * 0x2_0000_0000_0000_0000 + s * 0x1_0000_0000_0000_0000 + id;
    assert(code / 0x1_0000_0000_0000_0000 == 2 * c + s);
    assert(code % 0x1_0000_0000_0000_0000 == id);
    assert(code / 0x2_0000_0000_0000_0000 == c);
}

/// Integer form of an order key.
pub(crate) fn pack_key(key: OrderKey) -> (r: u128)
    ensures
        r == key_code(key),
{
    proof {
        lemma_key_code(key);
    }
    let side: u128 = match key.side {
        Side::Sell => SIDE_UNIT,
        Side::Buy => 0,
    };
    key.channel_id.value as u128 * CHANNEL_UNIT + side + key.order_id.value as u128
}

pub type ActiveIndex = Map<u128, OrderHandle>;

pub type StoredOrders = Map<u64, OrderState>;

/// The handle under which an active order is stored.
pub(crate) open spec fn handle_of(active: ActiveIndex, key: OrderKey) -> OrderHandle {
    active[key_code(key)]
}

/// Whether a stored order is the given one.
pub(crate) open spec fn represents(state: OrderState, key: OrderKey, order: OrderModel) -> bool {
    &&& state.key == key
    &&& state.effective_price == order.effective_price
    &&& state.original_quantity == order.original_quantity
    &&& state.remaining_quantity == order.remaining_quantity
    &&& state.location == order.location
    &&& state.allow_reentry == order.allow_reentry
    &&& state.reprice_from_trade == order.reprice_from_trade
    &&& order.location == OrderLocation::Aggressive ==> state.previous is None && state.next is None
}

/// The storage, the index of active orders and the set of used keys hold the model's.
pub(crate) open spec fn index_wf(
    active: ActiveIndex,
    stored: StoredOrders,
    seen: Set<u128>,
    m: BookModel,
) -> bool {
    &&& stored.dom().finite()
    &&& forall|key: OrderKey| #[trigger]
        m.orders.contains_key(key) ==> {
            &&& active.contains_key(key_code(key))
            &&& stored.contains_key(handle_of(active, key).raw)
            &&& represents(stored[handle_of(active, key).raw], key, m.orders[key])
        }
    &&& forall|code: u128| #[trigger]
        active.contains_key(code) ==> {
            &&& m.orders.contains_key(key_of_code(code))
            &&& code == key_code(key_of_code(code))
        }
    &&& forall|raw: u64| #[trigger]
        stored.contains_key(raw) ==> {
            &&& m.orders.contains_key(stored[raw].key)
            &&& handle_of(active, stored[raw].key).raw == raw
        }
    &&& forall|key: OrderKey| #[trigger] m.seen.contains(key) <==> seen.contains(key_code(key))
}

/// The stored order at a place of a queue points at its neighbours.
pub(crate) open spec fn link_ok(
    active: ActiveIndex,
    stored: StoredOrders,
    queue: Seq<OrderKey>,
    i: int,
) -> bool {
    let state = stored[handle_of(active, queue[i]).raw];
    &&& state.previous == if i == 0 {
        None
    } else {
        Some(handle_of(active, queue[i - 1]))
    }
    &&& state.next == if i + 1 == queue.len() {
        None
    } else {
        Some(handle_of(active, queue[i + 1]))
    }
}

pub(crate) open spec fn links_wf(
    active: ActiveIndex,
    stored: StoredOrders,
    queues: Map<Price, Seq<OrderKey>>,
) -> bool {
    forall|price: Price, i: int|
        queues.contains_key(price) && 0 <= i < queues[price].len() ==> #[trigger] link_ok(
            active,
            stored,
            queues[price],
            i,
        )
}

pub(crate) open spec fn level_sorted(levels: Seq<PriceLevelState>) -> bool {
    forall|i: int, j: int|
        0 <= i < j < levels.len() ==> (#[trigger] levels[i]).price.value < (
        #[trigger] levels[j]).price.value
}

pub(crate) open spec fn has_price(levels: Seq<PriceLevelState>, price: Price) -> bool {
    exists|i: int| 0 <= i < levels.len() && (#[trigger] levels[i]).price == price
}

/// A level holds the totals and the ends of its queue.
pub(crate) open spec fn level_ok(
    active: ActiveIndex,
    orders: Map<OrderKey, OrderModel>,
    level: PriceLevelState,
    queue: Seq<OrderKey>,
) -> bool {
    &&& level.price.value > 0
    &&& queue.len() > 0
    &&& level.order_count == queue.len()
    &&& level.total_quantity == seq_sum(queue, remaining_of(orders))
    &&& level.head == Some(handle_of(active, queue[0]))
    &&& level.tail == Some(handle_of(active, queue[queue.len() - 1]))
}

pub(crate) open spec fn level_quantity() -> spec_fn(PriceLevelState) -> int {
    |level: PriceLevelState| level.total_quantity as int
}

pub(crate) open spec fn level_weighted() -> spec_fn(PriceLevelState) -> int {
    |level: PriceLevelState| level.price.value * level.total_quantity
}

/// The levels of a side, in ascending price, are those of the model, and the totals
/// are the sums over them.
pub(crate) open spec fn levels_wf(
    active: ActiveIndex,
    orders: Map<OrderKey, OrderModel>,
    side: SideModel,
    levels: Seq<PriceLevelState>,
    aggregate: SideAggregate,
) -> bool {
    &&& level_sorted(levels)
    &&& forall|i: int|
        0 <= i < levels.len() ==> side.queues.contains_key((#[trigger] levels[i]).price)
            && level_ok(active, orders, levels[i], side.queues[levels[i].price])
    &&& forall|price: Price| #[trigger] side.queues.contains_key(price) ==> has_price(levels, price)
    &&& side.total_quantity == aggregate.total_quantity
    &&& side.weighted_price_quantity == aggregate.weighted_price_quantity
    &&& side.total_quantity == seq_sum(levels, level_quantity())
    &&& side.weighted_price_quantity == seq_sum(levels, level_weighted())
}

/// Different active orders are stored under different handles.
pub(crate) proof fn lemma_handles_differ(
    active: ActiveIndex,
    stored: StoredOrders,
    seen: Set<u128>,
    m: BookModel,
    a: OrderKey,
    b: OrderKey,
)
    requires
        index_wf(active, stored, seen, m),
        m.orders.contains_key(a),
        m.orders.contains_key(b),
        handle_of(active, a).raw == handle_of(active, b).raw,
    ensures
        a == b,
{
}

/// The total of a queue depends on the quantities of its own orders only.
pub(crate) proof fn lemma_queue_total_same(
    queue: Seq<OrderKey>,
    before: Map<OrderKey, OrderModel>,
    after: Map<OrderKey, OrderModel>,
)
    requires
        forall|i: int|
            0 <= i < queue.len() ==> before[#[trigger] queue[i]].remaining_quantity
                == after[queue[i]].remaining_quantity,
    ensures
        seq_sum(queue, remaining_of(before)) == seq_sum(queue, remaining_of(after)),
{
    lemma_sum_congruence(queue, remaining_of(before), remaining_of(after));
}

/// An order of a queue, by its place.
pub(crate) proof fn lemma_queued(m: BookModel, side: Side, price: Price, i: int)
    requires
        m.wf(),
        m.side(side).queues.contains_key(price),
        0 <= i < m.side(side).queues[price].len(),
    ensures
        m.queued_order_wf(side, price, m.side(side).queues[price][i]),
{
    reveal(BookModel::wf);
    assert(m.side_wf(side));
}

/// A queue is not empty and holds no order twice.
pub(crate) proof fn lemma_queue_distinct(m: BookModel, side: Side, price: Price)
    requires
        m.wf(),
        m.side(side).queues.contains_key(price),
    ensures
        m.side(side).queues[price].len() > 0,
        m.side(side).queues[price].no_duplicates(),
{
    reveal(BookModel::wf);
    assert(m.side_wf(side));
}

/// A hidden order stands in no queue.
pub(crate) proof fn lemma_hidden_not_queued(m: BookModel, key: OrderKey)
    requires
        m.wf(),
        m.orders.contains_key(key) ==> m.orders[key].location == OrderLocation::Aggressive,
    ensures
        forall|side: Side, price: Price, i: int|
            m.side(side).queues.contains_key(price) && 0 <= i < m.side(side).queues[price].len()
                ==> #[trigger] m.side(side).queues[price][i] != key,
{
    assert forall|side: Side, price: Price, i: int|
        m.side(side).queues.contains_key(price) && 0 <= i < m.side(side).queues[price].len()
            implies #[trigger] m.side(side).queues[price][i] != key by {
        lemma_queued(m, side, price, i);
    }
}

pub(crate) proof fn lemma_add_hidden_wf(m: BookModel, key: OrderKey, order: OrderModel)
    requires
        m.wf(),
        !m.orders.contains_key(key),
        order.location == OrderLocation::Aggressive,
        0 < order.remaining_quantity <= order.original_quantity.spec_get(),
    ensures
        m.add_hidden(key, order).wf(),
{
    reveal(BookModel::wf);
    let n = m.add_hidden(key, order);
    lemma_hidden_not_queued(m, key);
    assert forall|side: Side| n.side_wf(side) by {
        assert(m.side_wf(side));
        assert forall|price: Price, i: int|
            n.side(side).queues.contains_key(price) && 0 <= i < n.side(side).queues[price].len()
                implies n.queued_order_wf(side, price, #[trigger] n.side(side).queues[price][i]) by {
            lemma_queued(m, side, price, i);
            assert(m.side(side).queues[price][i] != key);
        }
    }
}

pub(crate) proof fn lemma_rest_wf(m: BookModel, key: OrderKey, price: Price)
    requires
        m.wf(),
        m.orders.contains_key(key),
        m.orders[key].location == OrderLocation::Aggressive,
    ensures
        m.rest(key, price).wf(),
{
    reveal(BookModel::wf);
    let n = m.rest(key, price);
    lemma_hidden_not_queued(m, key);
    assert forall|side: Side| n.side_wf(side) by {
        assert(m.side_wf(side));
        let queues = n.side(side).queues;
        assert forall|p: Price, i: int| queues.contains_key(p) && 0 <= i < queues[p].len()
            implies n.queued_order_wf(side, p, #[trigger] queues[p][i]) by {
            if side == key.side && p == price {
                let old_queue = m.side(side).queue(p);
                assert(queues[p] == old_queue.push(key));
                if i < old_queue.len() {
                    assert(queues[p][i] == m.side(side).queues[p][i]);
                    lemma_queued(m, side, p, i);
                    assert(queues[p][i] != key);
                }
            } else {
                assert(queues[p][i] == m.side(side).queues[p][i]);
                lemma_queued(m, side, p, i);
                assert(queues[p][i] != key);
            }
        }
        assert forall|p: Price| #[trigger] queues.contains_key(p) implies queues[p].len() > 0
            && queues[p].no_duplicates() by {
            if side == key.side && p == price {
                let old_queue = m.side(side).queue(p);
                assert forall|i: int, j: int|
                    0 <= i < queues[p].len() && 0 <= j < queues[p].len() && i != j implies
                    queues[p][i] != queues[p][j] by {
                    if i < old_queue.len() {
                        assert(queues[p][i] == m.side(side).queues[p][i]);
                    }
                    if j < old_queue.len() {
                        assert(queues[p][j] == m.side(side).queues[p][j]);
                    }
                }
            } else {
                assert(m.side(side).queues.contains_key(p));
            }
        }
    }
    assert forall|k: OrderKey| #[trigger] n.orders.contains_key(k) && n.orders[k].location
        == OrderLocation::Resting implies n.orders[k].effective_price is Some && n.side(
        k.side,
    ).queue(n.orders[k].effective_price->0).contains(k) by {
        let p = n.orders[k].effective_price->0;
        if k == key {
            let q = n.side(k.side).queue(p);
            assert(q[q.len() - 1] == key);
        } else {
            assert(m.orders.contains_key(k));
            let q = m.side(k.side).queue(p);
            let i = choose|i: int| 0 <= i < q.len() && q[i] == k;
            assert(n.side(k.side).queue(p)[i] == k);
        }
    }
}

/// The book in which a visible order was taken out of its queue but is still active.
pub(crate) open spec fn unqueue(m: BookModel, key: OrderKey) -> BookModel {
    let order = m.orders[key];
    let side = m.side(key.side).detach(
        order.effective_price->0,
        key,
        order.remaining_quantity as int,
    );
    BookModel {
        orders: m.orders.insert(
            key,
            OrderModel { location: OrderLocation::Aggressive, ..order },
        ),
        ..m.with_side(key.side, side)
    }
}

/// The place of a visible order in its queue.
pub(crate) open spec fn queue_index(m: BookModel, key: OrderKey) -> int {
    m.side(key.side).queues[m.orders[key].effective_price->0].index_of(key)
}

pub(crate) proof fn lemma_queue_index(m: BookModel, key: OrderKey)
    requires
        m.wf(),
        m.orders.contains_key(key),
        m.orders[key].location == OrderLocation::Resting,
    ensures
        m.orders[key].effective_price is Some,
        m.side(key.side).queues.contains_key(m.orders[key].effective_price->0),
        m.side(key.side).queue(m.orders[key].effective_price->0) == m.side(
            key.side,
        ).queues[m.orders[key].effective_price->0],
        0 <= queue_index(m, key) < m.side(
            key.side,
        ).queues[m.orders[key].effective_price->0].len(),
        m.side(key.side).queues[m.orders[key].effective_price->0][queue_index(m, key)] == key,
        m.side(key.side).queues[m.orders[key].effective_price->0].no_duplicates(),
{
    reveal(BookModel::wf);
    let p = m.orders[key].effective_price->0;
    assert(m.side(key.side).queue(p).contains(key));
    assert(m.side_wf(key.side));
}

pub(crate) proof fn lemma_unqueue_wf(m: BookModel, key: OrderKey)
    requires
        m.wf(),
        m.orders.contains_key(key),
        m.orders[key].location == OrderLocation::Resting,
    ensures
        unqueue(m, key).wf(),
{
    reveal(BookModel::wf);
    let n = unqueue(m, key);
    let price = m.orders[key].effective_price->0;
    lemma_queue_index(m, key);
    let at = queue_index(m, key);
    let old_queue = m.side(key.side).queues[price];
    let rest = old_queue.remove(at);
    assert(n.side(key.side).queues == if rest.len() == 0 {
        m.side(key.side).queues.remove(price)
    } else {
        m.side(key.side).queues.insert(price, rest)
    });
    assert forall|side: Side| n.side_wf(side) by {
        assert(m.side_wf(side));
        let queues = n.side(side).queues;
        assert forall|p: Price, i: int| queues.contains_key(p) && 0 <= i < queues[p].len()
            implies n.queued_order_wf(side, p, #[trigger] queues[p][i]) by {
            if side == key.side && p == price {
                let j = if i < at {
                    i
                } else {
                    i + 1
                };
                assert(queues[p][i] == old_queue[j]);
                lemma_queued(m, side, p, j);
                assert(old_queue[j] != old_queue[at]);
            } else {
                assert(queues[p][i] == m.side(side).queues[p][i]);
                lemma_queued(m, side, p, i);
                assert(queues[p][i] != key);
            }
        }
        assert forall|p: Price| #[trigger] queues.contains_key(p) implies queues[p].len() > 0
            && queues[p].no_duplicates() by {
            assert(m.side(side).queues.contains_key(p));
            if side == key.side && p == price {
                assert forall|i: int, j: int|
                    0 <= i < rest.len() && 0 <= j < rest.len() && i != j implies rest[i]
                    != rest[j] by {
                    let i1 = if i < at {
                        i
                    } else {
                        i + 1
                    };
                    let j1 = if j < at {
                        j
                    } else {
                        j + 1
                    };
                    assert(rest[i] == old_queue[i1]);
                    assert(rest[j] == old_queue[j1]);
                }
            }
        }
    }
    assert forall|k: OrderKey| #[trigger] n.orders.contains_key(k) && n.orders[k].location
        == OrderLocation::Resting implies n.orders[k].effective_price is Some && n.side(
        k.side,
    ).queue(n.orders[k].effective_price->0).contains(k) by {
        assert(k != key);
        assert(m.orders.contains_key(k));
        let p = n.orders[k].effective_price->0;
        lemma_queue_index(m, k);
        let i = queue_index(m, k);
        if k.side == key.side && p == price {
            assert(old_queue[i] == k);
            assert(i != at);
            let j = if i < at {
                i
            } else {
                i - 1
            };
            assert(rest[j] == k);
            assert(n.side(k.side).queue(p)[j] == k);
        } else {
            assert(n.side(k.side).queue(p)[i] == k);
        }
    }
}

/// The book without a hidden order.
pub(crate) open spec fn without(m: BookModel, key: OrderKey) -> BookModel {
    BookModel { orders: m.orders.remove(key), ..m }
}

pub(crate) proof fn lemma_without_wf(m: BookModel, key: OrderKey)
    requires
        m.wf(),
        m.orders.contains_key(key),
        m.orders[key].location == OrderLocation::Aggressive,
    ensures
        without(m, key).wf(),
{
    reveal(BookModel::wf);
    let n = without(m, key);
    lemma_hidden_not_queued(m, key);
    assert forall|side: Side| n.side_wf(side) by {
        assert(m.side_wf(side));
        assert forall|p: Price, i: int|
            n.side(side).queues.contains_key(p) && 0 <= i < n.side(side).queues[p].len()
                implies n.queued_order_wf(side, p, #[trigger] n.side(side).queues[p][i]) by {
            lemma_queued(m, side, p, i);
            assert(m.side(side).queues[p][i] != key);
        }
    }
    assert forall|k: OrderKey| #[trigger] n.orders.contains_key(k) implies m.orders.contains_key(
        k,
    ) by {}
}

pub(crate) proof fn lemma_reduce_wf(m: BookModel, key: OrderKey, quantity: int, price: Price)
    requires
        m.wf(),
        m.orders.contains_key(key),
        0 < quantity < m.orders[key].remaining_quantity,
    ensures
        m.reduce(key, quantity, price).wf(),
{
    reveal(BookModel::wf);
    let n = m.reduce(key, quantity, price);
    assert forall|side: Side| n.side_wf(side) by {
        assert(m.side_wf(side));
        assert(n.side(side).queues == m.side(side).queues);
        assert forall|p: Price, i: int|
            n.side(side).queues.contains_key(p) && 0 <= i < n.side(side).queues[p].len()
                implies n.queued_order_wf(side, p, #[trigger] n.side(side).queues[p][i]) by {
            lemma_queued(m, side, p, i);
        }
    }
    assert forall|k: OrderKey| #[trigger] n.orders.contains_key(k) implies m.orders.contains_key(
        k,
    ) by {}
    assert(n.orders.dom() =~= m.orders.dom());
}

/// Links stay in order where no order of the queues changes its links or its handle.
pub(crate) proof fn lemma_links_same(
    active: ActiveIndex,
    stored: StoredOrders,
    active_after: ActiveIndex,
    stored_after: StoredOrders,
    queues: Map<Price, Seq<OrderKey>>,
)
    requires
        links_wf(active, stored, queues),
        forall|p: Price, i: int|
            queues.contains_key(p) && 0 <= i < queues[p].len() ==> {
                let key = #[trigger] queues[p][i];
                let state = stored[handle_of(active, key).raw];
                let state_after = stored_after[handle_of(active_after, key).raw];
                &&& handle_of(active_after, key) == handle_of(active, key)
                &&& state_after.previous == state.previous
                &&& state_after.next == state.next
            },
    ensures
        links_wf(active_after, stored_after, queues),
{
    assert forall|p: Price, i: int| queues.contains_key(p) && 0 <= i < queues[p].len() implies
        #[trigger] link_ok(active_after, stored_after, queues[p], i) by {
        assert(link_ok(active, stored, queues[p], i));
        let key = queues[p][i];
        if i > 0 {
            let before = queues[p][i - 1];
        }
        if i + 1 < queues[p].len() {
            let after = queues[p][i + 1];
        }
    }
}

/// Levels stay in order where no order of the queues changes its quantity or its handle.
pub(crate) proof fn lemma_levels_same(
    active: ActiveIndex,
    orders: Map<OrderKey, OrderModel>,
    active_after: ActiveIndex,
    orders_after: Map<OrderKey, OrderModel>,
    side: SideModel,
    levels: Seq<PriceLevelState>,
    aggregate: SideAggregate,
)
    requires
        levels_wf(active, orders, side, levels, aggregate),
        forall|p: Price, i: int|
            side.queues.contains_key(p) && 0 <= i < side.queues[p].len() ==> {
                let key = #[trigger] side.queues[p][i];
                &&& handle_of(active_after, key) == handle_of(active, key)
                &&& orders_after[key].remaining_quantity == orders[key].remaining_quantity
            },
    ensures
        levels_wf(active_after, orders_after, side, levels, aggregate),
{
    assert forall|i: int| 0 <= i < levels.len() implies level_ok(
        active_after,
        orders_after,
        #[trigger] levels[i],
        side.queues[levels[i].price],
    ) by {
        assert(level_ok(active, orders, levels[i], side.queues[levels[i].price]));
        let queue = side.queues[levels[i].price];
        lemma_queue_total_same(queue, orders, orders_after);
        let first = queue[0];
        let last = queue[queue.len() - 1];
    }
}

/// The storage after a hidden order was put at the end of the queue of a price.
pub(crate) open spec fn stored_attached(
    active: ActiveIndex,
    stored: StoredOrders,
    m: BookModel,
    key: OrderKey,
    price: Price,
) -> StoredOrders {
    let handle = handle_of(active, key);
    let queue = m.side(key.side).queue(price);
    let tail = handle_of(active, queue[queue.len() - 1]);
    let linked = if queue.len() > 0 {
        stored.insert(tail.raw, OrderState { next: Some(handle), ..stored[tail.raw] })
    } else {
        stored
    };
    linked.insert(
        handle.raw,
        OrderState {
            effective_price: Some(price),
            location: OrderLocation::Resting,
            previous: if queue.len() > 0 {
                Some(tail)
            } else {
                None
            },
            next: None,
            ..stored[handle.raw]
        },
    )
}

pub(crate) proof fn lemma_attach(
    active: ActiveIndex,
    stored: StoredOrders,
    seen: Set<u128>,
    m: BookModel,
    key: OrderKey,
    price: Price,
)
    requires
        m.wf(),
        index_wf(active, stored, seen, m),
        links_wf(active, stored, m.bids.queues),
        links_wf(active, stored, m.asks.queues),
        m.orders.contains_key(key),
        m.orders[key].location == OrderLocation::Aggressive,
    ensures
        index_wf(active, stored_attached(active, stored, m, key, price), seen, m.rest(key, price)),
        links_wf(
            active,
            stored_attached(active, stored, m, key, price),
            m.rest(key, price).bids.queues,
        ),
        links_wf(
            active,
            stored_attached(active, stored, m, key, price),
            m.rest(key, price).asks.queues,
        ),
{
    let n = m.rest(key, price);
    let after = stored_attached(active, stored, m, key, price);
    let handle = handle_of(active, key);
    let queue = m.side(key.side).queue(price);
    let last = queue[queue.len() - 1];
    let tail = handle_of(active, last);
    lemma_hidden_not_queued(m, key);
    if queue.len() > 0 {
        lemma_queued(m, key.side, price, queue.len() - 1);
        assert(m.side(key.side).queues[price][queue.len() - 1] == last);
        assert(last != key);
        if tail.raw == handle.raw {
            lemma_handles_differ(active, stored, seen, m, last, key);
        }
    }
    assert(after.dom() =~= stored.dom());
    assert(index_wf(active, after, seen, n)) by {
        assert forall|k: OrderKey| #[trigger] n.orders.contains_key(k) implies {
            &&& active.contains_key(key_code(k))
            &&& after.contains_key(handle_of(active, k).raw)
            &&& represents(after[handle_of(active, k).raw], k, n.orders[k])
        } by {
            assert(m.orders.contains_key(k));
            if k != key && handle_of(active, k).raw == handle.raw {
                lemma_handles_differ(active, stored, seen, m, k, key);
            }
            if queue.len() > 0 && k != last && handle_of(active, k).raw == tail.raw {
                lemma_handles_differ(active, stored, seen, m, k, last);
            }
        }
        assert forall|code: u128| #[trigger] active.contains_key(code) implies {
            &&& n.orders.contains_key(key_of_code(code))
            &&& code == key_code(key_of_code(code))
        } by {
            assert(m.orders.contains_key(key_of_code(code)));
        }
        assert forall|raw: u64| #[trigger] after.contains_key(raw) implies {
            &&& n.orders.contains_key(after[raw].key)
            &&& handle_of(active, after[raw].key).raw == raw
        } by {
            assert(stored.contains_key(raw));
        }
    }
    assert forall|side: Side| links_wf(active, after, #[trigger] n.side(side).queues) by {
        let queues = n.side(side).queues;
        assert(links_wf(active, stored, m.side(side).queues));
        assert forall|p: Price, i: int| queues.contains_key(p) && 0 <= i < queues[p].len() implies
            #[trigger] link_ok(active, after, queues[p], i) by {
            let k = queues[p][i];
            if side == key.side && p == price {
                assert(queues[p] == queue.push(key));
                if i < queue.len() {
                    assert(link_ok(active, stored, m.side(side).queues[p], i));
                    lemma_queued(m, side, p, i);
                    assert(k == m.side(side).queues[p][i]);
                    assert(handle_of(active, k).raw != handle.raw) by {
                        if handle_of(active, k).raw == handle.raw {
                            lemma_handles_differ(active, stored, seen, m, k, key);
                        }
                    }
                    if i + 1 < queue.len() {
                        lemma_queue_distinct(m, side, p);
                        assert(k != last);
                        assert(handle_of(active, k).raw != tail.raw) by {
                            if handle_of(active, k).raw == tail.raw {
                                lemma_handles_differ(active, stored, seen, m, k, last);
                            }
                        }
                    }
                }
            } else {
                assert(queues[p] == m.side(side).queues[p]);
                assert(link_ok(active, stored, m.side(side).queues[p], i));
                lemma_queued(m, side, p, i);
                assert(handle_of(active, k).raw != handle.raw) by {
                    if handle_of(active, k).raw == handle.raw {
                        lemma_handles_differ(active, stored, seen, m, k, key);
                    }
                }
                if queue.len() > 0 {
                    assert(k != last);
                    assert(handle_of(active, k).raw != tail.raw) by {
                        if handle_of(active, k).raw == tail.raw {
                            lemma_handles_differ(active, stored, seen, m, k, last);
                        }
                    }
                }
            }
        }
    }
    assert(n.side(Side::Buy) == n.bids);
    assert(n.side(Side::Sell) == n.asks);
}

/// The storage after a visible order was taken out of its queue.
pub(crate) open spec fn stored_unqueued(
    active: ActiveIndex,
    stored: StoredOrders,
    m: BookModel,
    key: OrderKey,
) -> StoredOrders {
    let handle = handle_of(active, key);
    let queue = m.side(key.side).queues[m.orders[key].effective_price->0];
    let i = queue_index(m, key);
    let state = stored[handle.raw];
    let before = handle_of(active, queue[i - 1]);
    let after = handle_of(active, queue[i + 1]);
    let linked = if i > 0 {
        stored.insert(before.raw, OrderState { next: state.next, ..stored[before.raw] })
    } else {
        stored
    };
    let linked = if i + 1 < queue.len() {
        linked.insert(after.raw, OrderState { previous: state.previous, ..linked[after.raw] })
    } else {
        linked
    };
    linked.insert(
        handle.raw,
        OrderState {
            location: OrderLocation::Aggressive,
            previous: None,
            next: None,
            ..state
        },
    )
}

/// What the storage holds of one order after a visible order was taken out of its queue.
proof fn lemma_unqueued_state(
    active: ActiveIndex,
    stored: StoredOrders,
    seen: Set<u128>,
    m: BookModel,
    key: OrderKey,
    other: OrderKey,
)
    requires
        m.wf(),
        index_wf(active, stored, seen, m),
        m.orders.contains_key(key),
        m.orders[key].location == OrderLocation::Resting,
        m.orders.contains_key(other),
    ensures
        ({
            let queue = m.side(key.side).queues[m.orders[key].effective_price->0];
            let at = queue_index(m, key);
            let state = stored[handle_of(active, key).raw];
            let old_state = stored[handle_of(active, other).raw];
            stored_unqueued(active, stored, m, key)[handle_of(active, other).raw] == if other
                == key {
                OrderState {
                    location: OrderLocation::Aggressive,
                    previous: None,
                    next: None,
                    ..state
                }
            } else if at > 0 && other == queue[at - 1] {
                OrderState { next: state.next, ..old_state }
            } else if at + 1 < queue.len() && other == queue[at + 1] {
                OrderState { previous: state.previous, ..old_state }
            } else {
                old_state
            }
        }),
{
    lemma_queue_index(m, key);
    let price = m.orders[key].effective_price->0;
    let at = queue_index(m, key);
    let queue = m.side(key.side).queues[price];
    if at > 0 {
        lemma_queued(m, key.side, price, at - 1);
        assert(queue[at - 1] != key);
        if handle_of(active, queue[at - 1]).raw == handle_of(active, key).raw {
            lemma_handles_differ(active, stored, seen, m, queue[at - 1], key);
        }
        if handle_of(active, queue[at - 1]).raw == handle_of(active, other).raw {
            lemma_handles_differ(active, stored, seen, m, queue[at - 1], other);
        }
    }
    if at + 1 < queue.len() {
        lemma_queued(m, key.side, price, at + 1);
        assert(queue[at + 1] != key);
        if handle_of(active, queue[at + 1]).raw == handle_of(active, key).raw {
            lemma_handles_differ(active, stored, seen, m, queue[at + 1], key);
        }
        if handle_of(active, queue[at + 1]).raw == handle_of(active, other).raw {
            lemma_handles_differ(active, stored, seen, m, queue[at + 1], other);
        }
        if at > 0 {
            assert(queue[at - 1] != queue[at + 1]);
            if handle_of(active, queue[at - 1]).raw == handle_of(active, queue[at + 1]).raw {
                lemma_handles_differ(active, stored, seen, m, queue[at - 1], queue[at + 1]);
            }
        }
    }
    if handle_of(active, other).raw == handle_of(active, key).raw {
        lemma_handles_differ(active, stored, seen, m, other, key);
    }
}

proof fn lemma_unqueue_index(
    active: ActiveIndex,
    stored: StoredOrders,
    seen: Set<u128>,
    m: BookModel,
    key: OrderKey,
)
    requires
        m.wf(),
        index_wf(active, stored, seen, m),
        m.orders.contains_key(key),
        m.orders[key].location == OrderLocation::Resting,
    ensures
        index_wf(active, stored_unqueued(active, stored, m, key), seen, unqueue(m, key)),
{
    let n = unqueue(m, key);
    let after = stored_unqueued(active, stored, m, key);
    lemma_queue_index(m, key);
    let price = m.orders[key].effective_price->0;
    let at = queue_index(m, key);
    let queue = m.side(key.side).queues[price];
    if at > 0 {
        lemma_queued(m, key.side, price, at - 1);
    }
    if at + 1 < queue.len() {
        lemma_queued(m, key.side, price, at + 1);
    }
    assert(after.dom() =~= stored.dom());
    assert forall|k: OrderKey| #[trigger] n.orders.contains_key(k) implies {
        &&& active.contains_key(key_code(k))
        &&& after.contains_key(handle_of(active, k).raw)
        &&& represents(after[handle_of(active, k).raw], k, n.orders[k])
    } by {
        assert(m.orders.contains_key(k));
        lemma_unqueued_state(active, stored, seen, m, key, k);
        if k != key && at > 0 && k == queue[at - 1] {
            assert(m.orders[k].location == OrderLocation::Resting);
        }
    }
    assert forall|code: u128| #[trigger] active.contains_key(code) implies {
        &&& n.orders.contains_key(key_of_code(code))
        &&& code == key_code(key_of_code(code))
    } by {
        assert(m.orders.contains_key(key_of_code(code)));
    }
    assert forall|raw: u64| #[trigger] after.contains_key(raw) implies {
        &&& n.orders.contains_key(after[raw].key)
        &&& handle_of(active, after[raw].key).raw == raw
    } by {
        assert(stored.contains_key(raw));
        lemma_unqueued_state(active, stored, seen, m, key, stored[raw].key);
    }
}

proof fn lemma_unqueue_link_same(
    active: ActiveIndex,
    stored: StoredOrders,
    seen: Set<u128>,
    m: BookModel,
    key: OrderKey,
    i: int,
)
    requires
        m.wf(),
        index_wf(active, stored, seen, m),
        links_wf(active, stored, m.side(key.side).queues),
        m.orders.contains_key(key),
        m.orders[key].location == OrderLocation::Resting,
        0 <= i < m.side(key.side).queues[m.orders[key].effective_price->0].len() - 1,
    ensures
        link_ok(
            active,
            stored_unqueued(active, stored, m, key),
            m.side(key.side).queues[m.orders[key].effective_price->0].remove(queue_index(m, key)),
            i,
        ),
{
    lemma_queue_index(m, key);
    let price = m.orders[key].effective_price->0;
    let at = queue_index(m, key);
    let queue = m.side(key.side).queues[price];
    let j = if i < at {
        i
    } else {
        i + 1
    };
    assert(link_ok(active, stored, queue, at));
    assert(link_ok(active, stored, queue, j));
    lemma_queued(m, key.side, price, j);
    assert(queue[j] != queue[at]);
    lemma_unqueued_state(active, stored, seen, m, key, queue[j]);
    lemma_link_without(
        active,
        stored,
        stored_unqueued(active, stored, m, key),
        queue,
        at,
        i,
    );
}

/// Links of a queue that one order was taken out of.
proof fn lemma_link_without(
    active: ActiveIndex,
    stored: StoredOrders,
    after: StoredOrders,
    queue: Seq<OrderKey>,
    at: int,
    i: int,
)
    requires
        0 <= at < queue.len(),
        0 <= i < queue.len() - 1,
        queue.no_duplicates(),
        link_ok(active, stored, queue, at),
        ({
            let j = if i < at {
                i
            } else {
                i + 1
            };
            let state = stored[handle_of(active, queue[at]).raw];
            let old_state = stored[handle_of(active, queue[j]).raw];
            &&& link_ok(active, stored, queue, j)
            &&& after[handle_of(active, queue[j]).raw] == if at > 0 && queue[j] == queue[at - 1] {
                OrderState { next: state.next, ..old_state }
            } else if at + 1 < queue.len() && queue[j] == queue[at + 1] {
                OrderState { previous: state.previous, ..old_state }
            } else {
                old_state
            }
        }),
    ensures
        link_ok(active, after, queue.remove(at), i),
{
    let rest = queue.remove(at);
    let j = if i < at {
        i
    } else {
        i + 1
    };
    assert(rest[i] == queue[j]);
    if i > 0 {
        assert(rest[i - 1] == queue[if i - 1 < at {
            i - 1
        } else {
            i
        }]);
    }
    if i + 1 < rest.len() {
        assert(rest[i + 1] == queue[if i + 1 < at {
            i + 1
        } else {
            i + 2
        }]);
    }
}

proof fn lemma_unqueue_link_other(
    active: ActiveIndex,
    stored: StoredOrders,
    seen: Set<u128>,
    m: BookModel,
    key: OrderKey,
    side: Side,
    p: Price,
    i: int,
)
    requires
        m.wf(),
        index_wf(active, stored, seen, m),
        m.orders.contains_key(key),
        m.orders[key].location == OrderLocation::Resting,
        m.side(side).queues.contains_key(p),
        0 <= i < m.side(side).queues[p].len(),
        side != key.side || p != m.orders[key].effective_price->0,
        link_ok(active, stored, m.side(side).queues[p], i),
    ensures
        link_ok(active, stored_unqueued(active, stored, m, key), m.side(side).queues[p], i),
{
    lemma_queue_index(m, key);
    let price = m.orders[key].effective_price->0;
    let at = queue_index(m, key);
    let queue = m.side(key.side).queues[price];
    let k = m.side(side).queues[p][i];
    lemma_queued(m, side, p, i);
    lemma_queued(m, key.side, price, at);
    assert(k != key);
    lemma_unqueued_state(active, stored, seen, m, key, k);
    if at > 0 {
        lemma_queued(m, key.side, price, at - 1);
    }
    if at + 1 < queue.len() {
        lemma_queued(m, key.side, price, at + 1);
    }
}

proof fn lemma_unqueue_links(
    active: ActiveIndex,
    stored: StoredOrders,
    seen: Set<u128>,
    m: BookModel,
    key: OrderKey,
    side: Side,
)
    requires
        m.wf(),
        index_wf(active, stored, seen, m),
        links_wf(active, stored, m.side(side).queues),
        links_wf(active, stored, m.side(key.side).queues),
        m.orders.contains_key(key),
        m.orders[key].location == OrderLocation::Resting,
    ensures
        links_wf(
            active,
            stored_unqueued(active, stored, m, key),
            unqueue(m, key).side(side).queues,
        ),
{
    let n = unqueue(m, key);
    let after = stored_unqueued(active, stored, m, key);
    lemma_queue_index(m, key);
    let price = m.orders[key].effective_price->0;
    let queues = n.side(side).queues;
    let rest = m.side(key.side).queues[price].remove(queue_index(m, key));
    assert forall|p: Price, i: int| queues.contains_key(p) && 0 <= i < queues[p].len() implies
        #[trigger] link_ok(active, after, queues[p], i) by {
        if side == key.side && p == price {
            assert(queues[p] == rest);
            lemma_unqueue_link_same(active, stored, seen, m, key, i);
        } else {
            assert(queues[p] == m.side(side).queues[p]);
            assert(link_ok(active, stored, m.side(side).queues[p], i));
            lemma_unqueue_link_other(active, stored, seen, m, key, side, p, i);
        }
    }
}

pub(crate) proof fn lemma_unqueue(
    active: ActiveIndex,
    stored: StoredOrders,
    seen: Set<u128>,
    m: BookModel,
    key: OrderKey,
)
    requires
        m.wf(),
        index_wf(active, stored, seen, m),
        links_wf(active, stored, m.bids.queues),
        links_wf(active, stored, m.asks.queues),
        m.orders.contains_key(key),
        m.orders[key].location == OrderLocation::Resting,
    ensures
        index_wf(active, stored_unqueued(active, stored, m, key), seen, unqueue(m, key)),
        links_wf(active, stored_unqueued(active, stored, m, key), unqueue(m, key).bids.queues),
        links_wf(active, stored_unqueued(active, stored, m, key), unqueue(m, key).asks.queues),
{
    assert(m.side(Side::Buy) == m.bids);
    assert(m.side(Side::Sell) == m.asks);
    lemma_unqueue_index(active, stored, seen, m, key);
    lemma_unqueue_links(active, stored, seen, m, key, Side::Buy);
    lemma_unqueue_links(active, stored, seen, m, key, Side::Sell);
}

/// Levels of the other side, and the rest of a side's, under a change of one order's
/// quantity or place.
proof fn lemma_level_kept(
    active: ActiveIndex,
    orders: Map<OrderKey, OrderModel>,
    orders_after: Map<OrderKey, OrderModel>,
    level: PriceLevelState,
    queue: Seq<OrderKey>,
)
    requires
        level_ok(active, orders, level, queue),
        forall|i: int|
            0 <= i < queue.len() ==> orders_after[#[trigger] queue[i]].remaining_quantity
                == orders[queue[i]].remaining_quantity,
    ensures
        level_ok(active, orders_after, level, queue),
{
    lemma_queue_total_same(queue, orders, orders_after);
}

/// Levels after an order joined the queue of a level that exists.
pub(crate) proof fn lemma_levels_attach_existing(
    active: ActiveIndex,
    m: BookModel,
    key: OrderKey,
    price: Price,
    levels: Seq<PriceLevelState>,
    aggregate: SideAggregate,
    at: int,
    level: PriceLevelState,
    aggregate_after: SideAggregate,
)
    requires
        m.wf(),
        levels_wf(active, m.orders, m.side(key.side), levels, aggregate),
        m.orders.contains_key(key),
        m.orders[key].location == OrderLocation::Aggressive,
        0 <= at < levels.len(),
        levels[at].price == price,
        level.price == price,
        level.head == levels[at].head,
        level.tail == Some(handle_of(active, key)),
        level.order_count == levels[at].order_count + 1,
        level.total_quantity == levels[at].total_quantity + m.orders[key].remaining_quantity,
        aggregate_after.total_quantity == aggregate.total_quantity
            + m.orders[key].remaining_quantity,
        aggregate_after.weighted_price_quantity == aggregate.weighted_price_quantity + price.value
            * m.orders[key].remaining_quantity,
    ensures
        levels_wf(
            active,
            m.rest(key, price).orders,
            m.rest(key, price).side(key.side),
            levels.update(at, level),
            aggregate_after,
        ),
{
    let n = m.rest(key, price);
    let side = m.side(key.side);
    let after = n.side(key.side);
    let levels_after = levels.update(at, level);
    let quantity = m.orders[key].remaining_quantity as int;
    let queue = side.queues[price];
    assert(level_ok(active, m.orders, levels[at], queue));
    assert(after.queues == side.queues.insert(price, queue.push(key)));
    lemma_sum_update(levels, at, level, level_quantity());
    lemma_sum_update(levels, at, level, level_weighted());
    assert(price.value * (levels[at].total_quantity + quantity) == price.value
        * levels[at].total_quantity + price.value * quantity) by (nonlinear_arith);
    assert(level_weighted()(level) == level_weighted()(levels[at]) + price.value * quantity);
    lemma_sum_push(queue, key, remaining_of(n.orders));
    lemma_queue_total_same(queue, m.orders, n.orders);
    assert(remaining_of(n.orders)(key) == quantity);
    assert forall|i: int| 0 <= i < levels_after.len() implies after.queues.contains_key(
        (#[trigger] levels_after[i]).price,
    ) && level_ok(active, n.orders, levels_after[i], after.queues[levels_after[i].price]) by {
        if i != at {
            assert(levels_after[i] == levels[i]);
            assert(levels[i].price != price) by {
                if i < at {
                    assert(levels[i].price.value < levels[at].price.value);
                } else {
                    assert(levels[at].price.value < levels[i].price.value);
                }
            }
            lemma_level_kept(active, m.orders, n.orders, levels[i], side.queues[levels[i].price]);
        } else {
            assert(queue.push(key)[0] == queue[0]);
        }
    }
    assert forall|p: Price| #[trigger] after.queues.contains_key(p) implies has_price(
        levels_after,
        p,
    ) by {
        if p == price {
            assert(levels_after[at].price == p);
        } else {
            assert(side.queues.contains_key(p));
            let i = choose|i: int| 0 <= i < levels.len() && (#[trigger] levels[i]).price == p;
            assert(levels_after[i].price == p);
        }
    }
    assert(level_sorted(levels_after)) by {
        assert forall|i: int, j: int| 0 <= i < j < levels_after.len() implies (
        #[trigger] levels_after[i]).price.value < (#[trigger] levels_after[j]).price.value by {
            assert(levels_after[i].price == levels[i].price);
            assert(levels_after[j].price == levels[j].price);
        }
    }
}

/// Levels after an order opened a level.
pub(crate) proof fn lemma_levels_attach_new(
    active: ActiveIndex,
    m: BookModel,
    key: OrderKey,
    price: Price,
    levels: Seq<PriceLevelState>,
    aggregate: SideAggregate,
    at: int,
    level: PriceLevelState,
    aggregate_after: SideAggregate,
)
    requires
        m.wf(),
        levels_wf(active, m.orders, m.side(key.side), levels, aggregate),
        m.orders.contains_key(key),
        m.orders[key].location == OrderLocation::Aggressive,
        0 <= at <= levels.len(),
        forall|i: int| 0 <= i < at ==> (#[trigger] levels[i]).price.value < price.value,
        forall|i: int| at <= i < levels.len() ==> (#[trigger] levels[i]).price.value > price.value,
        level.price == price,
        level.head == Some(handle_of(active, key)),
        level.tail == Some(handle_of(active, key)),
        price.value > 0,
        level.order_count == 1,
        level.total_quantity == m.orders[key].remaining_quantity,
        aggregate_after.total_quantity == aggregate.total_quantity
            + m.orders[key].remaining_quantity,
        aggregate_after.weighted_price_quantity == aggregate.weighted_price_quantity + price.value
            * m.orders[key].remaining_quantity,
    ensures
        levels_wf(
            active,
            m.rest(key, price).orders,
            m.rest(key, price).side(key.side),
            levels.insert(at, level),
            aggregate_after,
        ),
{
    let n = m.rest(key, price);
    let side = m.side(key.side);
    let after = n.side(key.side);
    let levels_after = levels.insert(at, level);
    assert(!side.queues.contains_key(price)) by {
        if side.queues.contains_key(price) {
            let i = choose|i: int| 0 <= i < levels.len() && (#[trigger] levels[i]).price == price;
        }
    }
    assert(after.queues == side.queues.insert(price, Seq::empty().push(key)));
    lemma_sum_insert(levels, at, level, level_quantity());
    lemma_sum_insert(levels, at, level, level_weighted());
    lemma_sum_push(Seq::<OrderKey>::empty(), key, remaining_of(n.orders));
    assert(remaining_of(n.orders)(key) == m.orders[key].remaining_quantity);
    assert forall|i: int| 0 <= i < levels_after.len() implies after.queues.contains_key(
        (#[trigger] levels_after[i]).price,
    ) && level_ok(active, n.orders, levels_after[i], after.queues[levels_after[i].price]) by {
        if i != at {
            let j = if i < at {
                i
            } else {
                i - 1
            };
            assert(levels_after[i] == levels[j]);
            lemma_level_kept(active, m.orders, n.orders, levels[j], side.queues[levels[j].price]);
        }
    }
    assert forall|p: Price| #[trigger] after.queues.contains_key(p) implies has_price(
        levels_after,
        p,
    ) by {
        if p == price {
            assert(levels_after[at].price == p);
        } else {
            assert(side.queues.contains_key(p));
            let i = choose|i: int| 0 <= i < levels.len() && (#[trigger] levels[i]).price == p;
            let j = if i < at {
                i
            } else {
                i + 1
            };
            assert(levels_after[j].price == p);
        }
    }
    assert(level_sorted(levels_after)) by {
        assert forall|i: int, j: int| 0 <= i < j < levels_after.len() implies (
        #[trigger] levels_after[i]).price.value < (#[trigger] levels_after[j]).price.value by {
            let i1 = if i < at {
                i
            } else {
                i - 1
            };
            let j1 = if j < at {
                j
            } else {
                j - 1
            };
            if i != at {
                assert(levels_after[i] == levels[i1]);
            }
            if j != at {
                assert(levels_after[j] == levels[j1]);
            }
        }
    }
}

/// Levels after an order left a queue that others stand in too.
pub(crate) proof fn lemma_levels_unqueue_kept(
    active: ActiveIndex,
    m: BookModel,
    key: OrderKey,
    levels: Seq<PriceLevelState>,
    aggregate: SideAggregate,
    at: int,
    level: PriceLevelState,
    aggregate_after: SideAggregate,
)
    requires
        m.wf(),
        levels_wf(active, m.orders, m.side(key.side), levels, aggregate),
        m.orders.contains_key(key),
        m.orders[key].location == OrderLocation::Resting,
        0 <= at < levels.len(),
        levels[at].price == m.orders[key].effective_price->0,
        level.price == levels[at].price,
        levels[at].order_count > 1,
        ({
            let queue = m.side(key.side).queues[levels[at].price];
            let rest = queue.remove(queue_index(m, key));
            &&& level.head == Some(handle_of(active, rest[0]))
            &&& level.tail == Some(handle_of(active, rest[rest.len() - 1]))
        }),
        level.order_count == levels[at].order_count - 1,
        level.total_quantity == levels[at].total_quantity - m.orders[key].remaining_quantity,
        aggregate_after.total_quantity == aggregate.total_quantity
            - m.orders[key].remaining_quantity,
        aggregate_after.weighted_price_quantity == aggregate.weighted_price_quantity
            - level.price.value * m.orders[key].remaining_quantity,
    ensures
        levels_wf(
            active,
            unqueue(m, key).orders,
            unqueue(m, key).side(key.side),
            levels.update(at, level),
            aggregate_after,
        ),
{
    let n = unqueue(m, key);
    let side = m.side(key.side);
    let after = n.side(key.side);
    let price = level.price;
    let levels_after = levels.update(at, level);
    let quantity = m.orders[key].remaining_quantity as int;
    let queue = side.queues[price];
    lemma_queue_index(m, key);
    let rest = queue.remove(queue_index(m, key));
    assert(level_ok(active, m.orders, levels[at], queue));
    assert(after.queues == side.queues.insert(price, rest));
    lemma_sum_update(levels, at, level, level_quantity());
    lemma_sum_update(levels, at, level, level_weighted());
    assert(price.value * (levels[at].total_quantity - quantity) == price.value
        * levels[at].total_quantity - price.value * quantity) by (nonlinear_arith);
    assert(level_weighted()(level) == level_weighted()(levels[at]) - price.value * quantity);
    lemma_sum_remove(queue, queue_index(m, key), remaining_of(m.orders));
    lemma_queue_total_same(rest, m.orders, n.orders);
    assert forall|i: int| 0 <= i < levels_after.len() implies after.queues.contains_key(
        (#[trigger] levels_after[i]).price,
    ) && level_ok(active, n.orders, levels_after[i], after.queues[levels_after[i].price]) by {
        if i != at {
            assert(levels_after[i] == levels[i]);
            assert(levels[i].price != price) by {
                if i < at {
                    assert(levels[i].price.value < levels[at].price.value);
                } else {
                    assert(levels[at].price.value < levels[i].price.value);
                }
            }
            lemma_level_kept(active, m.orders, n.orders, levels[i], side.queues[levels[i].price]);
        }
    }
    assert forall|p: Price| #[trigger] after.queues.contains_key(p) implies has_price(
        levels_after,
        p,
    ) by {
        assert(side.queues.contains_key(p));
        let i = choose|i: int| 0 <= i < levels.len() && (#[trigger] levels[i]).price == p;
        assert(levels_after[i].price == p);
    }
    assert(level_sorted(levels_after)) by {
        assert forall|i: int, j: int| 0 <= i < j < levels_after.len() implies (
        #[trigger] levels_after[i]).price.value < (#[trigger] levels_after[j]).price.value by {
            assert(levels_after[i].price == levels[i].price);
            assert(levels_after[j].price == levels[j].price);
        }
    }
}

/// Levels after the only order of a level left.
pub(crate) proof fn lemma_levels_unqueue_last(
    active: ActiveIndex,
    m: BookModel,
    key: OrderKey,
    levels: Seq<PriceLevelState>,
    aggregate: SideAggregate,
    at: int,
    aggregate_after: SideAggregate,
)
    requires
        m.wf(),
        levels_wf(active, m.orders, m.side(key.side), levels, aggregate),
        m.orders.contains_key(key),
        m.orders[key].location == OrderLocation::Resting,
        0 <= at < levels.len(),
        levels[at].price == m.orders[key].effective_price->0,
        levels[at].order_count == 1,
        aggregate_after.total_quantity == aggregate.total_quantity
            - m.orders[key].remaining_quantity,
        aggregate_after.weighted_price_quantity == aggregate.weighted_price_quantity
            - levels[at].price.value * m.orders[key].remaining_quantity,
    ensures
        levels_wf(
            active,
            unqueue(m, key).orders,
            unqueue(m, key).side(key.side),
            levels.remove(at),
            aggregate_after,
        ),
{
    let n = unqueue(m, key);
    let side = m.side(key.side);
    let after = n.side(key.side);
    let price = levels[at].price;
    let levels_after = levels.remove(at);
    let queue = side.queues[price];
    lemma_queue_index(m, key);
    assert(level_ok(active, m.orders, levels[at], queue));
    let rest = queue.remove(queue_index(m, key));
    assert(rest.len() == 0);
    assert(after.queues == side.queues.remove(price));
    lemma_sum_remove(levels, at, level_quantity());
    lemma_sum_remove(levels, at, level_weighted());
    lemma_sum_remove(queue, queue_index(m, key), remaining_of(m.orders));
    assert(levels[at].total_quantity == m.orders[key].remaining_quantity);
    assert forall|i: int| 0 <= i < levels_after.len() implies after.queues.contains_key(
        (#[trigger] levels_after[i]).price,
    ) && level_ok(active, n.orders, levels_after[i], after.queues[levels_after[i].price]) by {
        let j = if i < at {
            i
        } else {
            i + 1
        };
        assert(levels_after[i] == levels[j]);
        assert(levels[j].price != price) by {
            if j < at {
                assert(levels[j].price.value < levels[at].price.value);
            } else {
                assert(levels[at].price.value < levels[j].price.value);
            }
        }
        lemma_level_kept(active, m.orders, n.orders, levels[j], side.queues[levels[j].price]);
    }
    assert forall|p: Price| #[trigger] after.queues.contains_key(p) implies has_price(
        levels_after,
        p,
    ) by {
        assert(side.queues.contains_key(p));
        let i = choose|i: int| 0 <= i < levels.len() && (#[trigger] levels[i]).price == p;
        let j = if i < at {
            i
        } else {
            i - 1
        };
        assert(levels_after[j].price == p);
    }
    assert(level_sorted(levels_after)) by {
        assert forall|i: int, j: int| 0 <= i < j < levels_after.len() implies (
        #[trigger] levels_after[i]).price.value < (#[trigger] levels_after[j]).price.value by {
            let i1 = if i < at {
                i
            } else {
                i + 1
            };
            let j1 = if j < at {
                j
            } else {
                j + 1
            };
            assert(levels_after[i] == levels[i1]);
            assert(levels_after[j] == levels[j1]);
        }
    }
}

/// Levels after a visible order lost a part of its quantity.
pub(crate) proof fn lemma_levels_reduce(
    active: ActiveIndex,
    m: BookModel,
    key: OrderKey,
    quantity: int,
    trade_price: Price,
    levels: Seq<PriceLevelState>,
    aggregate: SideAggregate,
    at: int,
    level: PriceLevelState,
    aggregate_after: SideAggregate,
)
    requires
        m.wf(),
        levels_wf(active, m.orders, m.side(key.side), levels, aggregate),
        m.orders.contains_key(key),
        m.orders[key].location == OrderLocation::Resting,
        0 < quantity < m.orders[key].remaining_quantity,
        0 <= at < levels.len(),
        levels[at].price == m.orders[key].effective_price->0,
        level.total_quantity == levels[at].total_quantity - quantity,
        level == (PriceLevelState { total_quantity: level.total_quantity, ..levels[at] }),
        aggregate_after.total_quantity == aggregate.total_quantity - quantity,
        aggregate_after.weighted_price_quantity == aggregate.weighted_price_quantity
            - level.price.value * quantity,
    ensures
        levels_wf(
            active,
            m.reduce(key, quantity, trade_price).orders,
            m.reduce(key, quantity, trade_price).side(key.side),
            levels.update(at, level),
            aggregate_after,
        ),
{
    let n = m.reduce(key, quantity, trade_price);
    let side = m.side(key.side);
    let after = n.side(key.side);
    let price = level.price;
    let levels_after = levels.update(at, level);
    let queue = side.queues[price];
    lemma_queue_index(m, key);
    let place = queue_index(m, key);
    assert(level_ok(active, m.orders, levels[at], queue));
    lemma_sum_update(levels, at, level, level_quantity());
    lemma_sum_update(levels, at, level, level_weighted());
    assert(price.value * (levels[at].total_quantity - quantity) == price.value
        * levels[at].total_quantity - price.value * quantity) by (nonlinear_arith);
    assert(level_weighted()(level) == level_weighted()(levels[at]) - price.value * quantity);
    let others = queue.remove(place);
    lemma_sum_remove(queue, place, remaining_of(m.orders));
    lemma_sum_remove(queue, place, remaining_of(n.orders));
    assert forall|i: int| 0 <= i < others.len() implies m.orders[#[trigger] others[i]].remaining_quantity
        == n.orders[others[i]].remaining_quantity by {
        let j = if i < place {
            i
        } else {
            i + 1
        };
        assert(others[i] == queue[j]);
        assert(queue[j] != queue[place]);
    }
    lemma_queue_total_same(others, m.orders, n.orders);
    assert forall|i: int| 0 <= i < levels_after.len() implies after.queues.contains_key(
        (#[trigger] levels_after[i]).price,
    ) && level_ok(active, n.orders, levels_after[i], after.queues[levels_after[i].price]) by {
        if i != at {
            assert(levels_after[i] == levels[i]);
            assert(levels[i].price != price) by {
                if i < at {
                    assert(levels[i].price.value < levels[at].price.value);
                } else {
                    assert(levels[at].price.value < levels[i].price.value);
                }
            }
            let other = side.queues[levels[i].price];
            assert forall|j: int| 0 <= j < other.len() implies n.orders[#[trigger] other[j]].remaining_quantity
                == m.orders[other[j]].remaining_quantity by {
                lemma_queued(m, key.side, levels[i].price, j);
            }
            lemma_level_kept(active, m.orders, n.orders, levels[i], other);
        }
    }
    assert forall|p: Price| #[trigger] after.queues.contains_key(p) implies has_price(
        levels_after,
        p,
    ) by {
        assert(side.queues.contains_key(p));
        let i = choose|i: int| 0 <= i < levels.len() && (#[trigger] levels[i]).price == p;
        assert(levels_after[i].price == p);
    }
    assert(level_sorted(levels_after)) by {
        assert forall|i: int, j: int| 0 <= i < j < levels_after.len() implies (
        #[trigger] levels_after[i]).price.value < (#[trigger] levels_after[j]).price.value by {
            assert(levels_after[i].price == levels[i].price);
            assert(levels_after[j].price == levels[j].price);
        }
    }
}

/// The totals of a level and of its side cover the quantity of each order.
pub(crate) proof fn lemma_totals_cover(
    active: ActiveIndex,
    m: BookModel,
    key: OrderKey,
    levels: Seq<PriceLevelState>,
    aggregate: SideAggregate,
    at: int,
)
    requires
        m.wf(),
        levels_wf(active, m.orders, m.side(key.side), levels, aggregate),
        m.orders.contains_key(key),
        m.orders[key].location == OrderLocation::Resting,
        0 <= at < levels.len(),
        levels[at].price == m.orders[key].effective_price->0,
    ensures
        m.orders[key].remaining_quantity <= levels[at].total_quantity,
        levels[at].total_quantity <= aggregate.total_quantity,
        levels[at].price.value * levels[at].total_quantity <= aggregate.weighted_price_quantity,
        0 <= levels[at].price.value * m.orders[key].remaining_quantity
            <= aggregate.weighted_price_quantity,
{
    let price = levels[at].price;
    let queue = m.side(key.side).queues[price];
    lemma_queue_index(m, key);
    assert(level_ok(active, m.orders, levels[at], queue));
    lemma_sum_bounds(queue, remaining_of(m.orders));
    assert(remaining_of(m.orders)(queue[queue_index(m, key)]) <= seq_sum(
        queue,
        remaining_of(m.orders),
    ));
    lemma_sum_bounds(levels, level_quantity());
    assert(level_quantity()(levels[at]) <= seq_sum(levels, level_quantity()));
    assert forall|i: int| 0 <= i < levels.len() implies level_weighted()(#[trigger] levels[i])
        >= 0 by {
        let price = levels[i].price.value as int;
        let total = levels[i].total_quantity as int;
        assert(price * total >= 0) by (nonlinear_arith)
            requires
                price >= 0,
                total >= 0,
        ;
    }
    lemma_sum_bounds(levels, level_weighted());
    assert(level_weighted()(levels[at]) <= seq_sum(levels, level_weighted()));
    let units = price.value as int;
    let total = levels[at].total_quantity as int;
    let part = m.orders[key].remaining_quantity as int;
    assert(0 <= units * part <= units * total) by (nonlinear_arith)
        requires
            units >= 0,
            0 <= part <= total,
    ;
}

/// The total of a level is no greater than that of its side.
pub(crate) proof fn lemma_level_within_side(
    active: ActiveIndex,
    orders: Map<OrderKey, OrderModel>,
    side: SideModel,
    levels: Seq<PriceLevelState>,
    aggregate: SideAggregate,
    at: int,
)
    requires
        levels_wf(active, orders, side, levels, aggregate),
        0 <= at < levels.len(),
    ensures
        levels[at].total_quantity <= aggregate.total_quantity,
{
    lemma_sum_bounds(levels, level_quantity());
    assert(level_quantity()(levels[at]) <= seq_sum(levels, level_quantity()));
}

/// Storage and index hold as many entries as there are active orders.
pub(crate) proof fn lemma_sizes(
    active: ActiveIndex,
    stored: StoredOrders,
    seen: Set<u128>,
    m: BookModel,
)
    requires
        m.wf(),
        index_wf(active, stored, seen, m),
    ensures
        m.orders.dom().finite(),
        stored.len() == m.orders.len(),
        active.len() == m.orders.len(),
{
    reveal(BookModel::wf);
    let keys = m.orders.dom();
    let raw_of = |key: OrderKey| handle_of(active, key).raw;
    assert(injective_on(raw_of, keys)) by {
        assert forall|a: OrderKey, b: OrderKey|
            keys.contains(a) && keys.contains(b) && #[trigger] raw_of(a) == #[trigger] raw_of(b)
                implies a == b by {
            lemma_handles_differ(active, stored, seen, m, a, b);
        }
    }
    assert(keys.map(raw_of) =~= stored.dom()) by {
        assert forall|raw: u64| stored.dom().contains(raw) implies keys.map(raw_of).contains(
            raw,
        ) by {
            assert(stored.contains_key(raw));
            let key = stored[raw].key;
            assert(keys.contains(key) && raw_of(key) == raw);
        }
        assert forall|raw: u64| keys.map(raw_of).contains(raw) implies stored.dom().contains(
            raw,
        ) by {
            let key = choose|key: OrderKey| keys.contains(key) && raw == raw_of(key);
            assert(m.orders.contains_key(key));
        }
    }
    lemma_map_size(keys, stored.dom(), raw_of);
    let code_of = |key: OrderKey| key_code(key);
    assert(injective_on(code_of, keys)) by {
        assert forall|a: OrderKey, b: OrderKey|
            keys.contains(a) && keys.contains(b) && #[trigger] code_of(a) == #[trigger] code_of(b)
                implies a == b by {
            lemma_key_code(a);
            lemma_key_code(b);
        }
    }
    assert(keys.map(code_of) =~= active.dom()) by {
        assert forall|code: u128| active.dom().contains(code) implies keys.map(code_of).contains(
            code,
        ) by {
            assert(active.contains_key(code));
            let key = key_of_code(code);
            assert(keys.contains(key) && code_of(key) == code);
        }
        assert forall|code: u128| keys.map(code_of).contains(code) implies active.dom().contains(
            code,
        ) by {
            let key = choose|key: OrderKey| keys.contains(key) && code == code_of(key);
            assert(m.orders.contains_key(key));
        }
    }
    lemma_map_size(keys, active.dom(), code_of);
}

/// Whether levels in ascending price are those of the queues.
pub(crate) open spec fn lists(
    queues: Map<Price, Seq<OrderKey>>,
    levels: Seq<PriceLevelState>,
) -> bool {
    &&& level_sorted(levels)
    &&& forall|i: int| 0 <= i < levels.len() ==> queues.contains_key((#[trigger] levels[i]).price)
    &&& forall|price: Price| #[trigger] queues.contains_key(price) ==> has_price(levels, price)
}

/// The best price of an ascending listing of levels.
pub(crate) open spec fn listed_best(side: Side, levels: Seq<PriceLevelState>) -> Option<Price> {
    if levels.len() == 0 {
        None
    } else {
        Some(
            match side {
                Side::Buy => levels[levels.len() - 1].price,
                Side::Sell => levels[0].price,
            },
        )
    }
}

/// Leaving out a level from a listing and its queue from the queues.
proof fn lemma_lists_remove(
    queues: Map<Price, Seq<OrderKey>>,
    levels: Seq<PriceLevelState>,
    at: int,
)
    requires
        lists(queues, levels),
        0 <= at < levels.len(),
    ensures
        lists(queues.remove(levels[at].price), levels.remove(at)),
{
    let after = queues.remove(levels[at].price);
    let listed = levels.remove(at);
    assert forall|i: int| 0 <= i < listed.len() implies after.contains_key(
        (#[trigger] listed[i]).price,
    ) by {
        let j = if i < at {
            i
        } else {
            i + 1
        };
        assert(listed[i] == levels[j]);
        if j < at {
            assert(levels[j].price.value < levels[at].price.value);
        } else {
            assert(levels[at].price.value < levels[j].price.value);
        }
    }
    assert forall|p: Price| #[trigger] after.contains_key(p) implies has_price(listed, p) by {
        assert(queues.contains_key(p));
        let i = choose|i: int| 0 <= i < levels.len() && (#[trigger] levels[i]).price == p;
        let j = if i < at {
            i
        } else {
            i - 1
        };
        assert(listed[j] == levels[i]);
    }
    assert forall|i: int, j: int| 0 <= i < j < listed.len() implies (
    #[trigger] listed[i]).price.value < (#[trigger] listed[j]).price.value by {
        assert(listed[i] == levels[if i < at {
            i
        } else {
            i + 1
        }]);
        assert(listed[j] == levels[if j < at {
            j
        } else {
            j + 1
        }]);
    }
}

/// The best price of a side once a trade took a quantity from one of its orders: the level
/// of a visible order goes where the trade takes all of it.
pub(crate) proof fn lemma_best_after_fill(
    active: ActiveIndex,
    m: BookModel,
    key: OrderKey,
    quantity: int,
    trade_price: Price,
    levels: Seq<PriceLevelState>,
    aggregate: SideAggregate,
)
    requires
        m.wf(),
        levels_wf(active, m.orders, m.side(key.side), levels, aggregate),
        m.orders.contains_key(key),
        0 < quantity <= m.orders[key].remaining_quantity,
    ensures
        ({
            let n = m.fill(key, quantity, trade_price);
            let at = match key.side {
                Side::Buy => levels.len() - 1,
                Side::Sell => 0,
            };
            let gone = levels.len() > 0 && m.orders[key].location == OrderLocation::Resting
                && m.orders[key].effective_price == Some(levels[at].price)
                && levels[at].total_quantity <= quantity;
            let best = if gone {
                listed_best(key.side, levels.remove(at))
            } else {
                listed_best(key.side, levels)
            };
            &&& n.best_price(key.side) == best
            &&& best is None ==> forall|p: Price| !n.side(key.side).queues.contains_key(p)
        }),
{
    let side = key.side;
    let n = m.fill(key, quantity, trade_price);
    let at = match side {
        Side::Buy => levels.len() - 1,
        Side::Sell => 0,
    };
    let queues = m.side(side).queues;
    let after = n.side(side).queues;
    assert(lists(queues, levels));
    if m.orders[key].location == OrderLocation::Resting {
        let price = m.orders[key].effective_price->0;
        lemma_queue_index(m, key);
        lemma_queue_exceeds(m, key);
        assert(has_price(levels, price));
        let own = choose|i: int| 0 <= i < levels.len() && (#[trigger] levels[i]).price == price;
        assert(level_ok(active, m.orders, levels[own], queues[price]));
        if quantity == m.orders[key].remaining_quantity && queues[price].len() == 1 {
            assert(after == queues.remove(price));
            lemma_lists_remove(queues, levels, own);
            lemma_best_listed(n, side, levels.remove(own));
            if own != at {
                assert(levels.remove(own)[levels.len() - 2] == levels[if own == levels.len() - 1 {
                    levels.len() - 2
                } else {
                    levels.len() - 1
                }]);
                assert(levels.remove(own)[0] == levels[if own == 0 {
                    1
                } else {
                    0
                }]);
                if own < at {
                    assert(levels[own].price.value < levels[at].price.value);
                } else {
                    assert(levels[at].price.value < levels[own].price.value);
                }
            }
        } else {
            assert(after.dom() =~= queues.dom());
            assert(lists(after, levels)) by {
                assert forall|i: int| 0 <= i < levels.len() implies after.contains_key(
                    (#[trigger] levels[i]).price,
                ) by {
                    assert(queues.dom().contains(levels[i].price));
                }
                assert forall|p: Price| #[trigger] after.contains_key(p) implies has_price(
                    levels,
                    p,
                ) by {
                    assert(after.dom().contains(p));
                    assert(queues.contains_key(p));
                }
            }
            lemma_best_listed(n, side, levels);
            if levels[at].price == price && at != own {
                if own < at {
                    assert(levels[own].price.value < levels[at].price.value);
                } else {
                    assert(levels[at].price.value < levels[own].price.value);
                }
            }
        }
    } else {
        assert(after == queues);
        lemma_best_listed(n, side, levels);
    }
}

/// The best level stands at the end of an ascending listing of the levels that is its
/// side's best.
pub(crate) proof fn lemma_best_listed(m: BookModel, side: Side, levels: Seq<PriceLevelState>)
    requires
        lists(m.side(side).queues, levels),
    ensures
        m.best_price(side) == listed_best(side, levels),
        levels.len() == 0 ==> forall|p: Price| !m.side(side).queues.contains_key(p),
{
    let queues = m.side(side).queues;
    if levels.len() == 0 {
        assert forall|price: Price| !is_best(side, queues, price) by {
            if queues.contains_key(price) {
                assert(has_price(levels, price));
            }
        }
    } else {
        let at = match side {
            Side::Buy => levels.len() - 1,
            Side::Sell => 0,
        };
        let best = levels[at].price;
        assert(queues.contains_key(best));
        assert forall|other: Price| #[trigger] queues.contains_key(other) implies at_least_as_good(
            side,
            best,
            other,
        ) by {
            assert(has_price(levels, other));
            let i = choose|i: int| 0 <= i < levels.len() && (#[trigger] levels[i]).price == other;
            if i != at {
                match side {
                    Side::Buy => {
                        assert(levels[i].price.value < levels[at].price.value);
                    },
                    Side::Sell => {
                        assert(levels[at].price.value < levels[i].price.value);
                    },
                }
            }
        }
        assert(is_best(side, queues, best));
        lemma_best_unique(m, side, best);
    }
}

/// There is no more than one best price.
pub(crate) proof fn lemma_best_unique(m: BookModel, side: Side, price: Price)
    requires
        is_best(side, m.side(side).queues, price),
    ensures
        m.best_price(side) == Some(price),
{
    let queues = m.side(side).queues;
    let chosen = choose|p: Price| is_best(side, queues, p);
    assert(is_best(side, queues, chosen));
    assert(queues.contains_key(chosen) && queues.contains_key(price));
    assert(chosen.value == price.value);
}

/// The best price once an order has become visible.
pub(crate) proof fn lemma_best_after_rest(m: BookModel, key: OrderKey, price: Price)
    requires
        m.best_price(key.side) is None ==> m.side(key.side).queues =~= Map::<
            Price,
            Seq<OrderKey>,
        >::empty(),
    ensures
        m.rest(key, price).best_price(key.side) == Some(
            match m.best_price(key.side) {
                None => price,
                Some(best) => if at_least_as_good(key.side, price, best) {
                    price
                } else {
                    best
                },
            },
        ),
{
    let n = m.rest(key, price);
    let queues = m.side(key.side).queues;
    let after = n.side(key.side).queues;
    let best = match m.best_price(key.side) {
        None => price,
        Some(best) => if at_least_as_good(key.side, price, best) {
            price
        } else {
            best
        },
    };
    assert(m.best_price(key.side) is Some ==> is_best(
        key.side,
        queues,
        m.best_price(key.side)->0,
    ));
    assert(is_best(key.side, after, best)) by {
        assert forall|other: Price| #[trigger] after.contains_key(other) implies at_least_as_good(
            key.side,
            best,
            other,
        ) by {
            if other != price {
                assert(queues.contains_key(other));
            }
        }
    }
    lemma_best_unique(n, key.side, best);
}

/// Statistics, metadata and revision are no part of what keeps a book in order.
pub(crate) proof fn lemma_wf_depends(m: BookModel, n: BookModel)
    requires
        m.wf(),
        n.orders == m.orders,
        n.bids == m.bids,
        n.asks == m.asks,
        n.seen == m.seen,
    ensures
        n.wf(),
{
    reveal(BookModel::wf);
    assert forall|side: Side| n.side_wf(side) by {
        assert(m.side_wf(side));
        assert forall|price: Price, i: int|
            n.side(side).queues.contains_key(price) && 0 <= i < n.side(side).queues[price].len()
                implies n.queued_order_wf(side, price, #[trigger] n.side(side).queues[price][i]) by {
            lemma_queued(m, side, price, i);
        }
    }
}

/// A queue of more than one order holds more than the quantity of any one of them.
pub(crate) proof fn lemma_queue_exceeds(m: BookModel, key: OrderKey)
    requires
        m.wf(),
        m.orders.contains_key(key),
        m.orders[key].location == OrderLocation::Resting,
    ensures
        ({
            let price = m.orders[key].effective_price->0;
            let queue = m.side(key.side).queues[price];
            let total = seq_sum(queue, remaining_of(m.orders));
            &&& queue.len() == 1 ==> total == m.orders[key].remaining_quantity
            &&& queue.len() > 1 ==> total > m.orders[key].remaining_quantity
        }),
{
    lemma_queue_index(m, key);
    let price = m.orders[key].effective_price->0;
    let queue = m.side(key.side).queues[price];
    let at = queue_index(m, key);
    let others = queue.remove(at);
    lemma_sum_remove(queue, at, remaining_of(m.orders));
    assert forall|i: int| 0 <= i < others.len() implies remaining_of(m.orders)(
        #[trigger] others[i],
    ) >= 1 by {
        let j = if i < at {
            i
        } else {
            i + 1
        };
        assert(others[i] == queue[j]);
        lemma_queued(m, key.side, price, j);
        reveal(BookModel::wf);
    }
    lemma_sum_bounds(others, remaining_of(m.orders));
    if others.len() > 0 {
        assert(remaining_of(m.orders)(others[0]) >= 1);
    }
}

} // verus!
