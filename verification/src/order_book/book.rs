//! The order book and its event-driven state machine.

use vstd::prelude::*;

use std::collections::{HashMap, HashSet};

use crate::market_data::{
    AddOrder, ApplySequence, BookEvent, BookKey, CrossingBehavior, EventMeta, OrderCancel, OrderId,
    OrderKey, OrderReference, Price, PriceScale, PricingInstruction, Side, Trade,
};
use crate::sums::{
    lemma_sum_bounds, lemma_sum_reverse, lemma_sum_same, lemma_sum_scaled, seq_sum,
};

use super::error::BookError;
use super::model::{
    at_least_as_good, depth_is_unique, meta_model, reference_side_error, remaining_of,
    revision_next, shown_quantity, shown_remaining, shown_weighted, shows_price, statistics_error,
    statistics_next, BookModel, OrderModel,
};
use super::relation::{
    handle_of, has_price, index_wf, key_code, key_of_code, lemma_add_hidden_wf, lemma_attach,
    lemma_handles_differ, lemma_hidden_not_queued, lemma_totals_cover, lemma_level_within_side,
    lemma_best_after_rest, lemma_best_after_fill, lists, lemma_best_listed, lemma_sizes,
    lemma_wf_depends, lemma_key_code, lemma_levels_attach_existing, lemma_levels_attach_new,
    lemma_levels_reduce, lemma_levels_same, lemma_levels_unqueue_kept, lemma_levels_unqueue_last,
    lemma_links_same, lemma_queue_distinct, lemma_queue_index, lemma_queued, lemma_reduce_wf,
    lemma_rest_wf, lemma_unqueue, lemma_unqueue_wf, lemma_without_wf, level_ok, level_quantity,
    level_sorted, level_weighted, levels_wf, link_ok, links_wf, pack_key, queue_index, represents,
    stored_attached, stored_unqueued, unqueue, without, ActiveIndex, StoredOrders,
};
use super::state::{
    new_storage, storage_get, storage_get_mut, storage_insert, storage_remove, stored_orders,
    OrderHandle, OrderLocation, OrderState, OrderStorage, PriceLevelState, SideAggregate,
    MAX_STORED_ORDERS,
};
use super::view::{
    ApplyOutcome, BookSummary, DepthView, LevelView, OrderView, TradeStatisticsView,
};

mod checks;

verus! {

#[derive(Clone, Copy, Debug, Default, PartialEq, Eq, Structural)]
pub enum UnknownTradePolicy {
    #[default]
    Reject,
    UpdateKnownAndStatistics,
}

#[derive(Debug, PartialEq, Eq)]
pub struct BookConfig {
    pub book_key: BookKey,
    pub price_scale: PriceScale,
    pub unknown_trade_policy: UnknownTradePolicy,
}

impl Clone for BookConfig {
    fn clone(&self) -> (r: Self)
        ensures
            r == *self,
    {
        BookConfig {
            book_key: self.book_key.clone(),
            price_scale: self.price_scale,
            unknown_trade_policy: self.unknown_trade_policy,
        }
    }
}

impl BookConfig {
    #[must_use]
    pub fn new(book_key: BookKey, price_scale: PriceScale) -> (r: Self)
        ensures
            r.book_key == book_key,
            r.price_scale == price_scale,
            r.unknown_trade_policy == UnknownTradePolicy::Reject,
    {
        Self { book_key, price_scale, unknown_trade_policy: UnknownTradePolicy::Reject }
    }

    #[must_use]
    pub fn with_unknown_trade_policy(self, policy: UnknownTradePolicy) -> (r: Self)
        ensures
            r == (BookConfig { unknown_trade_policy: policy, ..self }),
    {
        Self { unknown_trade_policy: policy, ..self }
    }
}

/// The visible levels of one side, in ascending price, and the totals over them.
struct BookSide {
    levels: Vec<PriceLevelState>,
    aggregate: SideAggregate,
}

/// One order book, advanced event by event.
pub struct OrderBook {
    config: BookConfig,
    bids: BookSide,
    asks: BookSide,
    active_by_key: HashMap<u128, OrderHandle>,
    seen_order_keys: HashSet<u128>,
    orders: OrderStorage,
    statistics: TradeStatisticsView,
    last_applied_meta: Option<EventMeta>,
    // A saturated revision disables observer caching instead of wrapping or
    // introducing a new business failure. Includes non-event pending reentry.
    revision: u64,
    model: Ghost<BookModel>,
}

/// What joining a level will make of the level and of its side.
struct AttachPlan {
    total_quantity: u64,
    order_count: usize,
    previous: Option<OrderHandle>,
    side_aggregate: SideAggregate,
}

/// What a trade will make of one active order.
#[derive(Clone, Copy)]
struct KnownTradePlan {
    key: OrderKey,
    handle: OrderHandle,
    state: OrderState,
    new_remaining: u64,
    new_effective_price: Option<Price>,
}

/// What a trade will make of the book.
struct TradePlan {
    statistics: TradeStatisticsView,
    bid: Option<OrderKey>,
    ask: Option<OrderKey>,
    bid_price: Option<Price>,
    ask_price: Option<Price>,
}

/// The price at which an order becomes visible after a trade, if it does.
spec fn reentry_price(m: BookModel, key: Option<OrderKey>) -> Option<Price> {
    if key is Some && m.reenters(key->0) {
        m.orders[key->0].effective_price
    } else {
        None
    }
}

/// The plan of a trade that the book accepts.
spec fn trade_plan_ok(m: BookModel, event: Trade, plan: TradePlan) -> bool {
    let quantity = event.quantity.spec_get();
    let t = m.traded(event.bid_order, event.ask_order, event.price, event.quantity);
    &&& plan.statistics == statistics_next(m.statistics, event.price, quantity as int)
    &&& plan.bid == m.known(event.bid_order)
    &&& plan.ask == m.known(event.ask_order)
    &&& plan.bid_price == reentry_price(t, plan.bid)
    &&& plan.ask_price == reentry_price(t.reenter_known(plan.bid), plan.ask)
    &&& plan.bid matches Some(key) ==> quantity <= m.orders[key].remaining_quantity
    &&& plan.ask matches Some(key) ==> quantity <= m.orders[key].remaining_quantity
}

/// What a trade reference leads to.
struct TradeReferenceResolution {
    known: Option<OrderKey>,
    unknown: Option<(Side, OrderId)>,
}

/// The key of the order of a plan.
spec fn plan_key(plan: Option<KnownTradePlan>) -> Option<OrderKey> {
    match plan {
        Some(plan) => Some(plan.key),
        None => None,
    }
}

/// Where a price is among the levels, or where its level would go.
fn find_level(levels: &Vec<PriceLevelState>, price: Price) -> (r: Result<usize, usize>)
    requires
        level_sorted(levels@),
    ensures
        match r {
            Ok(at) => at < levels@.len() && levels@[at as int].price == price,
            Err(at) => {
                &&& at <= levels@.len()
                &&& forall|i: int| 0 <= i < at ==> (#[trigger] levels@[i]).price.value < price.value
                &&& forall|i: int|
                    at <= i < levels@.len() ==> (#[trigger] levels@[i]).price.value > price.value
            },
        },
{
    let mut low: usize = 0;
    let mut high: usize = levels.len();
    while low < high
        invariant
            level_sorted(levels@),
            low <= high <= levels@.len(),
            forall|i: int| 0 <= i < low ==> (#[trigger] levels@[i]).price.value < price.value,
            forall|i: int|
                high <= i < levels@.len() ==> (#[trigger] levels@[i]).price.value > price.value,
        decreases high - low,
    {
        let middle: usize = low + (high - low) / 2;
        let found = levels[middle].price;
        if found.value == price.value {
            return Ok(middle);
        }
        if found.value < price.value {
            low = middle + 1;
        } else {
            high = middle;
        }
    }
    Err(low)
}

/// Price times quantity, which always fits.
fn price_quantity(price: Price, quantity: u64) -> (r: u128)
    ensures
        r == price.spec_units() * quantity,
{
    let units: i64 = price.units();
    assert(units * quantity <= 0x7fff_ffff_ffff_ffff * 0xffff_ffff_ffff_ffff) by (nonlinear_arith)
        requires
            0 < units <= 0x7fff_ffff_ffff_ffff,
            0 <= quantity <= 0xffff_ffff_ffff_ffff,
    ;
    assert(0 <= units * quantity) by (nonlinear_arith)
        requires
            0 < units,
            0 <= quantity,
    ;
    units as u128 * quantity as u128
}

impl View for OrderBook {
    type V = BookModel;

    closed spec fn view(&self) -> BookModel {
        self.model@
    }
}

impl OrderBook {
    pub closed spec fn spec_config(self) -> BookConfig {
        self.config
    }

    spec fn spec_side(self, side: Side) -> BookSide {
        match side {
            Side::Buy => self.bids,
            Side::Sell => self.asks,
        }
    }

    /// The stored data represents the model.
    pub closed spec fn wf(self) -> bool {
        &&& self.model@.wf()
        &&& index_wf(
            self.active_by_key@,
            stored_orders(self.orders),
            self.seen_order_keys@,
            self.model@,
        )
        &&& links_wf(self.active_by_key@, stored_orders(self.orders), self.model@.bids.queues)
        &&& links_wf(self.active_by_key@, stored_orders(self.orders), self.model@.asks.queues)
        &&& levels_wf(
            self.active_by_key@,
            self.model@.orders,
            self.model@.bids,
            self.bids.levels@,
            self.bids.aggregate,
        )
        &&& levels_wf(
            self.active_by_key@,
            self.model@.orders,
            self.model@.asks,
            self.asks.levels@,
            self.asks.aggregate,
        )
        &&& self.statistics == self.model@.statistics
        &&& match self.last_applied_meta {
            Some(meta) => self.model@.last_meta == Some(meta_model(meta))
                && meta.book_key.spec_same(self.config.book_key),
            None => self.model@.last_meta is None,
        }
        &&& self.revision == self.model@.revision
    }

    /// A book without orders.
    #[must_use]
    pub fn new(config: BookConfig) -> (r: Self)
        ensures
            r.wf(),
            r.spec_config() == config,
            r@ == BookModel::empty(),
    {
        broadcast use vstd::std_specs::hash::group_hash_axioms;

        let empty = SideAggregate { total_quantity: 0, weighted_price_quantity: 0 };
        let r = Self {
            config,
            bids: BookSide { levels: Vec::new(), aggregate: empty },
            asks: BookSide { levels: Vec::new(), aggregate: empty },
            active_by_key: HashMap::new(),
            seen_order_keys: HashSet::new(),
            orders: new_storage(),
            statistics: TradeStatisticsView::default(),
            last_applied_meta: None,
            revision: 0,
            model: Ghost(BookModel::empty()),
        };
        proof {
            reveal(BookModel::wf);
            assert(r.model@.side_wf(Side::Buy));
            assert(r.model@.side_wf(Side::Sell));
            assert(r.model@.wf());
        }
        r
    }

    #[must_use]
    pub fn config(&self) -> (r: &BookConfig)
        ensures
            *r == self.spec_config(),
    {
        &self.config
    }

    #[must_use]
    pub fn last_applied_meta(&self) -> (r: Option<&EventMeta>)
        requires
            self.wf(),
        ensures
            r is Some <==> self@.last_meta is Some,
            r is Some ==> meta_model(*r->0) == self@.last_meta->0 && r->0.book_key.spec_same(
                self.spec_config().book_key,
            ),
    {
        self.last_applied_meta.as_ref()
    }

    /// A number that changes with every change of the book, `None` once it is used up.
    pub fn cache_revision(&self) -> (r: Option<u64>)
        requires
            self.wf(),
        ensures
            r == if self@.revision == u64::MAX {
                None
            } else {
                Some(self@.revision)
            },
    {
        if self.revision != u64::MAX {
            Some(self.revision)
        } else {
            None
        }
    }

    /// The book with its changes numbered from a given revision.
    #[must_use]
    pub fn with_cache_revision(self, revision: u64) -> (r: Self)
        requires
            self.wf(),
        ensures
            r.wf(),
            r.spec_config() == self.spec_config(),
            r@ == (BookModel { revision, ..self@ }),
    {
        let ghost m = self.model@;
        let ghost n = BookModel { revision, ..m };
        let mut r = self;
        r.revision = revision;
        r.model = Ghost(n);
        proof {
            lemma_wf_depends(m, n);
        }
        r
    }

    /// The sequence that the next event has to carry.
    pub fn next_apply_sequence(&self) -> (r: Result<ApplySequence, BookError>)
        requires
            self.wf(),
        ensures
            r == if self@.next_sequence() > u64::MAX {
                Err(BookError::ApplySequenceOverflow)
            } else {
                Ok(ApplySequence::spec_new(self@.next_sequence() as u64))
            },
    {
        let value: u64 = match &self.last_applied_meta {
            None => 1,
            Some(meta) => {
                let last: u64 = meta.apply_sequence.get();
                if last == u64::MAX {
                    return Err(BookError::ApplySequenceOverflow);
                }
                last + 1
            },
        };
        match ApplySequence::new(value) {
            Some(sequence) => Ok(sequence),
            None => Err(BookError::ApplySequenceOverflow),
        }
    }

    fn validate_meta(&self, meta: &EventMeta) -> (r: Result<(), BookError>)
        requires
            self.wf(),
        ensures
            r == match self@.meta_error(self.spec_config().book_key, *meta) {
                Some(error) => Err(error),
                None => Ok(()),
            },
    {
        if !meta.book_key.same(&self.config.book_key) {
            return Err(
                BookError::BookKeyMismatch {
                    expected: self.config.book_key.clone(),
                    actual: meta.book_key.clone(),
                },
            );
        }
        let expected = match self.next_apply_sequence() {
            Ok(expected) => expected,
            Err(error) => return Err(error),
        };
        if meta.apply_sequence.value != expected.value {
            return Err(
                BookError::InvalidApplySequence { expected, actual: meta.apply_sequence },
            );
        }
        Ok(())
    }

    fn side_ref(&self, side: Side) -> (r: &BookSide)
        ensures
            *r == self.spec_side(side),
    {
        match side {
            Side::Buy => &self.bids,
            Side::Sell => &self.asks,
        }
    }

    /// A book holds finitely many orders.
    pub proof fn orders_are_finite(&self)
        requires
            self.wf(),
        ensures
            self@.orders.dom().finite(),
    {
        reveal(BookModel::wf);
    }

    proof fn lemma_side_wf(&self, side: Side)
        requires
            self.wf(),
        ensures
            levels_wf(
                self.active_by_key@,
                self@.orders,
                self@.side(side),
                self.spec_side(side).levels@,
                self.spec_side(side).aggregate,
            ),
            links_wf(self.active_by_key@, stored_orders(self.orders), self@.side(side).queues),
    {
    }

    /// Makes a hidden order visible at the end of the queue of a price.
    fn commit_attach(&mut self, key: OrderKey, handle: OrderHandle, price: Price, plan: AttachPlan)
        requires
            old(self).wf(),
            old(self)@.orders.contains_key(key),
            old(self)@.orders[key].location == OrderLocation::Aggressive,
            handle == handle_of(old(self).active_by_key@, key),
            ({
                let side = old(self)@.side(key.side);
                let quantity = old(self)@.orders[key].remaining_quantity;
                let queue = side.queue(price);
                &&& plan.total_quantity == old(self)@.level_total(key.side, price) + quantity
                &&& plan.order_count == queue.len() + 1
                &&& plan.previous == if queue.len() == 0 {
                    None
                } else {
                    Some(handle_of(old(self).active_by_key@, queue[queue.len() - 1]))
                }
                &&& plan.side_aggregate.total_quantity == side.total_quantity + quantity
                &&& plan.side_aggregate.weighted_price_quantity == side.weighted_price_quantity
                    + price.spec_units() * quantity
            }),
        ensures
            final(self).wf(),
            final(self).spec_config() == old(self).spec_config(),
            final(self)@ == old(self)@.rest(key, price),
    {
        let ghost m = self.model@;
        let ghost active = self.active_by_key@;
        let ghost stored = stored_orders(self.orders);
        let ghost queue = m.side(key.side).queue(price);
        proof {
            use_type_invariant(&handle);
            self.lemma_side_wf(key.side);
            lemma_attach(active, stored, self.seen_order_keys@, m, key, price);
            lemma_rest_wf(m, key, price);
            if queue.len() > 0 {
                lemma_queued(m, key.side, price, queue.len() - 1);
                lemma_hidden_not_queued(m, key);
                assert(m.side(key.side).queues[price][queue.len() - 1] != key);
                if handle_of(active, queue[queue.len() - 1]).raw == handle.raw {
                    lemma_handles_differ(
                        active,
                        stored,
                        self.seen_order_keys@,
                        m,
                        queue[queue.len() - 1],
                        key,
                    );
                }
            }
        }
        if let Some(previous) = plan.previous {
            proof {
                use_type_invariant(&previous);
            }
            if let Some(previous_state) = storage_get_mut(&mut self.orders, previous) {
                previous_state.next = Some(handle);
            }
        }
        if let Some(state) = storage_get_mut(&mut self.orders, handle) {
            state.effective_price = Some(price);
            state.location = OrderLocation::Resting;
            state.previous = plan.previous;
            state.next = None;
        }
        assert(stored_orders(self.orders) =~= stored_attached(active, stored, m, key, price));
        let ghost other_side = key.side.spec_opposite();
        proof {
            let n = m.rest(key, price);
            lemma_levels_same(
                active,
                m.orders,
                active,
                n.orders,
                m.side(other_side),
                self.spec_side(other_side).levels@,
                self.spec_side(other_side).aggregate,
            );
        }
        match key.side {
            Side::Buy => Self::attach_level(
                &mut self.bids,
                key,
                handle,
                price,
                plan,
                Ghost(active),
                Ghost(m),
            ),
            Side::Sell => Self::attach_level(
                &mut self.asks,
                key,
                handle,
                price,
                plan,
                Ghost(active),
                Ghost(m),
            ),
        }
        self.model = Ghost(m.rest(key, price));
    }

    /// The level part of [`commit_attach`](Self::commit_attach).
    fn attach_level(
        side: &mut BookSide,
        key: OrderKey,
        handle: OrderHandle,
        price: Price,
        plan: AttachPlan,
        Ghost(active): Ghost<ActiveIndex>,
        Ghost(m): Ghost<BookModel>,
    )
        requires
            m.wf(),
            m.orders.contains_key(key),
            m.orders[key].location == OrderLocation::Aggressive,
            handle == handle_of(active, key),
            levels_wf(
                active,
                m.orders,
                m.side(key.side),
                old(side).levels@,
                old(side).aggregate,
            ),
            plan.total_quantity == m.level_total(key.side, price)
                + m.orders[key].remaining_quantity,
            plan.order_count == m.side(key.side).queue(price).len() + 1,
            plan.side_aggregate.total_quantity == m.side(key.side).total_quantity
                + m.orders[key].remaining_quantity,
            plan.side_aggregate.weighted_price_quantity == m.side(key.side).weighted_price_quantity
                + price.spec_units() * m.orders[key].remaining_quantity,
        ensures
            levels_wf(
                active,
                m.rest(key, price).orders,
                m.rest(key, price).side(key.side),
                final(side).levels@,
                final(side).aggregate,
            ),
    {
        let ghost before = side.levels@;
        let ghost aggregate = side.aggregate;
        match find_level(&side.levels, price) {
            Ok(at) => {
                let level = PriceLevelState {
                    price,
                    total_quantity: plan.total_quantity,
                    order_count: plan.order_count,
                    head: side.levels[at].head,
                    tail: Some(handle),
                };
                proof {
                    assert(m.side(key.side).queues.contains_key(before[at as int].price));
                    lemma_levels_attach_existing(
                        active,
                        m,
                        key,
                        price,
                        before,
                        aggregate,
                        at as int,
                        level,
                        plan.side_aggregate,
                    );
                }
                side.levels.set(at, level);
            },
            Err(at) => {
                let level = PriceLevelState {
                    price,
                    total_quantity: plan.total_quantity,
                    order_count: plan.order_count,
                    head: Some(handle),
                    tail: Some(handle),
                };
                proof {
                    use_type_invariant(&price);
                    assert(!m.side(key.side).queues.contains_key(price)) by {
                        if m.side(key.side).queues.contains_key(price) {
                            assert(has_price(before, price));
                        }
                    }
                    lemma_levels_attach_new(
                        active,
                        m,
                        key,
                        price,
                        before,
                        aggregate,
                        at as int,
                        level,
                        plan.side_aggregate,
                    );
                }
                side.levels.insert(at, level);
            },
        }
        side.aggregate = plan.side_aggregate;
    }

    /// Takes a visible order out of its queue; it stays active, hidden.
    fn commit_detach(&mut self, key: OrderKey, handle: OrderHandle, state: OrderState)
        requires
            old(self).wf(),
            old(self)@.orders.contains_key(key),
            old(self)@.orders[key].location == OrderLocation::Resting,
            handle == handle_of(old(self).active_by_key@, key),
            state == stored_orders(old(self).orders)[handle.raw],
        ensures
            final(self).wf(),
            final(self).spec_config() == old(self).spec_config(),
            final(self).active_by_key == old(self).active_by_key,
            final(self)@ == unqueue(old(self)@, key),
    {
        let ghost m = self.model@;
        let ghost active = self.active_by_key@;
        let ghost stored = stored_orders(self.orders);
        let ghost seen = self.seen_order_keys@;
        let ghost queue = m.side(key.side).queues[m.orders[key].effective_price->0];
        let ghost at = queue_index(m, key);
        proof {
            use_type_invariant(&handle);
            self.lemma_side_wf(key.side);
            lemma_queue_index(m, key);
            lemma_unqueue(active, stored, seen, m, key);
            lemma_unqueue_wf(m, key);
            assert(link_ok(active, stored, queue, at));
            let price = m.orders[key].effective_price->0;
            if at > 0 {
                lemma_queued(m, key.side, price, at - 1);
                if handle_of(active, queue[at - 1]).raw == handle.raw {
                    lemma_handles_differ(active, stored, seen, m, queue[at - 1], key);
                }
            }
            if at + 1 < queue.len() {
                lemma_queued(m, key.side, price, at + 1);
                if handle_of(active, queue[at + 1]).raw == handle.raw {
                    lemma_handles_differ(active, stored, seen, m, queue[at + 1], key);
                }
            }
        }
        if let Some(previous) = state.previous {
            proof {
                use_type_invariant(&previous);
            }
            if let Some(previous_state) = storage_get_mut(&mut self.orders, previous) {
                previous_state.next = state.next;
            }
        }
        if let Some(next) = state.next {
            proof {
                use_type_invariant(&next);
            }
            if let Some(next_state) = storage_get_mut(&mut self.orders, next) {
                next_state.previous = state.previous;
            }
        }
        if let Some(own_state) = storage_get_mut(&mut self.orders, handle) {
            own_state.location = OrderLocation::Aggressive;
            own_state.previous = None;
            own_state.next = None;
        }
        assert(stored_orders(self.orders) =~= stored_unqueued(active, stored, m, key));
        let ghost other_side = key.side.spec_opposite();
        proof {
            lemma_levels_same(
                active,
                m.orders,
                active,
                unqueue(m, key).orders,
                m.side(other_side),
                self.spec_side(other_side).levels@,
                self.spec_side(other_side).aggregate,
            );
        }
        match key.side {
            Side::Buy => Self::detach_level(
                &mut self.bids,
                key,
                state,
                Ghost(active),
                Ghost(stored),
                Ghost(m),
            ),
            Side::Sell => Self::detach_level(
                &mut self.asks,
                key,
                state,
                Ghost(active),
                Ghost(stored),
                Ghost(m),
            ),
        }
        self.model = Ghost(unqueue(m, key));
    }

    /// The level part of [`commit_detach`](Self::commit_detach).
    fn detach_level(
        side: &mut BookSide,
        key: OrderKey,
        state: OrderState,
        Ghost(active): Ghost<ActiveIndex>,
        Ghost(stored): Ghost<StoredOrders>,
        Ghost(m): Ghost<BookModel>,
    )
        requires
            m.wf(),
            m.orders.contains_key(key),
            m.orders[key].location == OrderLocation::Resting,
            state == stored[handle_of(active, key).raw],
            represents(state, key, m.orders[key]),
            links_wf(active, stored, m.side(key.side).queues),
            levels_wf(
                active,
                m.orders,
                m.side(key.side),
                old(side).levels@,
                old(side).aggregate,
            ),
        ensures
            levels_wf(
                active,
                unqueue(m, key).orders,
                unqueue(m, key).side(key.side),
                final(side).levels@,
                final(side).aggregate,
            ),
    {
        let ghost before = side.levels@;
        let ghost aggregate = side.aggregate;
        proof {
            lemma_queue_index(m, key);
        }
        let Some(price) = state.effective_price else {
            return;
        };
        let ghost queue = m.side(key.side).queues[price];
        let ghost place = queue_index(m, key);
        match find_level(&side.levels, price) {
            Ok(at) => {
                let level = side.levels[at];
                let weighted: u128 = price_quantity(price, state.remaining_quantity);
                proof {
                    lemma_totals_cover(active, m, key, before, aggregate, at as int);
                    assert(level_ok(active, m.orders, before[at as int], queue));
                    assert(link_ok(active, stored, queue, place));
                }
                let aggregate_after = SideAggregate {
                    total_quantity: side.aggregate.total_quantity - state.remaining_quantity,
                    weighted_price_quantity: side.aggregate.weighted_price_quantity - weighted,
                };
                if level.order_count == 1 {
                    proof {
                        lemma_levels_unqueue_last(
                            active,
                            m,
                            key,
                            before,
                            aggregate,
                            at as int,
                            aggregate_after,
                        );
                    }
                    side.levels.remove(at);
                } else {
                    let after = PriceLevelState {
                        price,
                        total_quantity: level.total_quantity - state.remaining_quantity,
                        order_count: level.order_count - 1,
                        head: if state.previous.is_none() {
                            state.next
                        } else {
                            level.head
                        },
                        tail: if state.next.is_none() {
                            state.previous
                        } else {
                            level.tail
                        },
                    };
                    proof {
                        let rest = queue.remove(place);
                        assert(rest[0] == queue[if place == 0 {
                            1
                        } else {
                            0
                        }]);
                        assert(rest[rest.len() - 1] == queue[if place == queue.len() - 1 {
                            queue.len() - 2
                        } else {
                            queue.len() - 1
                        }]);
                        lemma_levels_unqueue_kept(
                            active,
                            m,
                            key,
                            before,
                            aggregate,
                            at as int,
                            after,
                            aggregate_after,
                        );
                    }
                    side.levels.set(at, after);
                }
                side.aggregate = aggregate_after;
            },
            Err(_) => {
                proof {
                    assert(has_price(before, price));
                }
            },
        }
    }

    /// Stores a new order, hidden.
    fn insert_order(&mut self, state: OrderState, Ghost(order): Ghost<OrderModel>) -> (r:
        OrderHandle)
        requires
            old(self).wf(),
            !old(self)@.orders.contains_key(state.key),
            represents(state, state.key, order),
            order.location == OrderLocation::Aggressive,
            0 < order.remaining_quantity <= order.original_quantity.spec_get(),
            old(self)@.orders.len() < MAX_STORED_ORDERS,
        ensures
            final(self).wf(),
            final(self).spec_config() == old(self).spec_config(),
            final(self)@ == old(self)@.add_hidden(state.key, order),
            r == handle_of(final(self).active_by_key@, state.key),
    {
        broadcast use vstd::std_specs::hash::group_hash_axioms;

        let ghost m = self.model@;
        let ghost active = self.active_by_key@;
        let ghost stored = stored_orders(self.orders);
        let ghost seen = self.seen_order_keys@;
        proof {
            lemma_sizes(active, stored, seen, m);
        }
        let key = state.key;
        let handle = storage_insert(&mut self.orders, state);
        let code: u128 = pack_key(key);
        self.active_by_key.insert(code, handle);
        self.seen_order_keys.insert(code);
        proof {
            let n = m.add_hidden(key, order);
            let active_after = self.active_by_key@;
            let stored_after = stored_orders(self.orders);
            lemma_add_hidden_wf(m, key, order);
            assert forall|k: OrderKey| k != key implies #[trigger] handle_of(active_after, k)
                == handle_of(active, k) by {
                lemma_key_code(k);
                lemma_key_code(key);
            }
            lemma_hidden_not_queued(m, key);
            assert forall|side: Side, p: Price, i: int|
                m.side(side).queues.contains_key(p) && 0 <= i < m.side(side).queues[p].len()
                    implies {
                let k = #[trigger] m.side(side).queues[p][i];
                &&& handle_of(active_after, k) == handle_of(active, k)
                &&& stored_after[handle_of(active_after, k).raw] == stored[handle_of(
                    active,
                    k,
                ).raw]
                &&& n.orders[k].remaining_quantity == m.orders[k].remaining_quantity
            } by {
                lemma_queued(m, side, p, i);
            }
            assert(m.side(Side::Buy) == m.bids);
            assert(m.side(Side::Sell) == m.asks);
            lemma_links_same(active, stored, active_after, stored_after, m.bids.queues);
            lemma_links_same(active, stored, active_after, stored_after, m.asks.queues);
            lemma_levels_same(
                active,
                m.orders,
                active_after,
                n.orders,
                m.bids,
                self.bids.levels@,
                self.bids.aggregate,
            );
            lemma_levels_same(
                active,
                m.orders,
                active_after,
                n.orders,
                m.asks,
                self.asks.levels@,
                self.asks.aggregate,
            );
            assert forall|k: OrderKey| #[trigger] n.orders.contains_key(k) implies {
                &&& active_after.contains_key(key_code(k))
                &&& stored_after.contains_key(handle_of(active_after, k).raw)
                &&& represents(stored_after[handle_of(active_after, k).raw], k, n.orders[k])
            } by {
                if k != key {
                    assert(m.orders.contains_key(k));
                    assert(handle_of(active_after, k) == handle_of(active, k));
                }
            }
            assert forall|c: u128| #[trigger] active_after.contains_key(c) implies {
                &&& n.orders.contains_key(key_of_code(c))
                &&& c == key_code(key_of_code(c))
            } by {
                if c == code {
                    lemma_key_code(key);
                } else {
                    assert(active.contains_key(c));
                }
            }
            assert forall|raw: u64| #[trigger] stored_after.contains_key(raw) implies {
                &&& n.orders.contains_key(stored_after[raw].key)
                &&& handle_of(active_after, stored_after[raw].key).raw == raw
            } by {
                if raw != handle.raw {
                    assert(stored.contains_key(raw));
                    let k = stored[raw].key;
                    assert(k != key);
                    assert(handle_of(active_after, k) == handle_of(active, k));
                }
            }
            assert forall|k: OrderKey| #[trigger]
                n.seen.contains(k) <==> self.seen_order_keys@.contains(key_code(k)) by {
                lemma_key_code(k);
                lemma_key_code(key);
                assert(m.seen.contains(k) <==> seen.contains(key_code(k)));
            }
        }
        self.model = Ghost(m.add_hidden(key, order));
        handle
    }

    /// Forgets a hidden order.
    fn drop_order(&mut self, key: OrderKey, handle: OrderHandle)
        requires
            old(self).wf(),
            old(self)@.orders.contains_key(key),
            old(self)@.orders[key].location == OrderLocation::Aggressive,
            handle == handle_of(old(self).active_by_key@, key),
        ensures
            final(self).wf(),
            final(self).spec_config() == old(self).spec_config(),
            final(self)@ == without(old(self)@, key),
    {
        broadcast use vstd::std_specs::hash::group_hash_axioms;

        let ghost m = self.model@;
        let ghost active = self.active_by_key@;
        let ghost stored = stored_orders(self.orders);
        let ghost seen = self.seen_order_keys@;
        proof {
            use_type_invariant(&handle);
        }
        let code: u128 = pack_key(key);
        self.active_by_key.remove(&code);
        storage_remove(&mut self.orders, handle);
        proof {
            let n = without(m, key);
            let active_after = self.active_by_key@;
            let stored_after = stored_orders(self.orders);
            lemma_without_wf(m, key);
            assert forall|k: OrderKey| k != key implies #[trigger] handle_of(active_after, k)
                == handle_of(active, k) && (active.contains_key(key_code(k))
                ==> active_after.contains_key(key_code(k))) by {
                lemma_key_code(k);
                lemma_key_code(key);
            }
            lemma_hidden_not_queued(m, key);
            assert forall|k: OrderKey| #[trigger] n.orders.contains_key(k) implies {
                &&& handle_of(active_after, k) == handle_of(active, k)
                &&& active_after.contains_key(key_code(k))
                &&& stored_after.contains_key(handle_of(active_after, k).raw)
                &&& stored_after[handle_of(active_after, k).raw] == stored[handle_of(
                    active,
                    k,
                ).raw]
                &&& represents(stored_after[handle_of(active_after, k).raw], k, n.orders[k])
            } by {
                assert(m.orders.contains_key(k));
                assert(handle_of(active_after, k) == handle_of(active, k));
                if handle_of(active, k).raw == handle.raw {
                    lemma_handles_differ(active, stored, seen, m, k, key);
                }
            }
            assert forall|side: Side, p: Price, i: int|
                m.side(side).queues.contains_key(p) && 0 <= i < m.side(side).queues[p].len()
                    implies n.orders.contains_key(#[trigger] m.side(side).queues[p][i]) by {
                lemma_queued(m, side, p, i);
            }
            assert(m.side(Side::Buy) == m.bids);
            assert(m.side(Side::Sell) == m.asks);
            lemma_links_same(active, stored, active_after, stored_after, m.bids.queues);
            lemma_links_same(active, stored, active_after, stored_after, m.asks.queues);
            lemma_levels_same(
                active,
                m.orders,
                active_after,
                n.orders,
                m.bids,
                self.bids.levels@,
                self.bids.aggregate,
            );
            lemma_levels_same(
                active,
                m.orders,
                active_after,
                n.orders,
                m.asks,
                self.asks.levels@,
                self.asks.aggregate,
            );
            assert forall|c: u128| #[trigger] active_after.contains_key(c) implies {
                &&& n.orders.contains_key(key_of_code(c))
                &&& c == key_code(key_of_code(c))
            } by {
                assert(active.contains_key(c));
            }
            assert forall|raw: u64| #[trigger] stored_after.contains_key(raw) implies {
                &&& n.orders.contains_key(stored_after[raw].key)
                &&& handle_of(active_after, stored_after[raw].key).raw == raw
            } by {
                assert(stored.contains_key(raw));
                let k = stored[raw].key;
                assert(k != key);
                assert(n.orders.contains_key(k));
            }
        }
        self.model = Ghost(without(m, key));
    }

    /// Takes a part of the quantity of an order.
    fn reduce_order(
        &mut self,
        key: OrderKey,
        handle: OrderHandle,
        state: OrderState,
        quantity: u64,
        trade_price: Price,
    )
        requires
            old(self).wf(),
            old(self)@.orders.contains_key(key),
            handle == handle_of(old(self).active_by_key@, key),
            state == stored_orders(old(self).orders)[handle.raw],
            0 < quantity < old(self)@.orders[key].remaining_quantity,
        ensures
            final(self).wf(),
            final(self).spec_config() == old(self).spec_config(),
            final(self)@ == old(self)@.reduce(key, quantity as int, trade_price),
    {
        let ghost m = self.model@;
        let ghost n = m.reduce(key, quantity as int, trade_price);
        let ghost active = self.active_by_key@;
        let ghost stored = stored_orders(self.orders);
        let ghost seen = self.seen_order_keys@;
        proof {
            use_type_invariant(&handle);
            self.lemma_side_wf(key.side);
            self.lemma_side_wf(key.side.spec_opposite());
            lemma_reduce_wf(m, key, quantity as int, trade_price);
        }
        let new_price = if state.location == OrderLocation::Aggressive && state.reprice_from_trade {
            Some(trade_price)
        } else {
            state.effective_price
        };
        if let Some(own_state) = storage_get_mut(&mut self.orders, handle) {
            own_state.remaining_quantity = state.remaining_quantity - quantity;
            own_state.effective_price = new_price;
        }
        let ghost stored_after = stored_orders(self.orders);
        proof {
            assert(stored_after.dom() =~= stored.dom());
            assert forall|k: OrderKey| m.orders.contains_key(k) && k != key implies stored_after[(
            #[trigger] handle_of(active, k)).raw] == stored[handle_of(active, k).raw] by {
                if handle_of(active, k).raw == handle.raw {
                    lemma_handles_differ(active, stored, seen, m, k, key);
                }
            }
            assert forall|k: OrderKey| #[trigger] n.orders.contains_key(k) implies {
                &&& active.contains_key(key_code(k))
                &&& stored_after.contains_key(handle_of(active, k).raw)
                &&& represents(stored_after[handle_of(active, k).raw], k, n.orders[k])
            } by {
                assert(m.orders.contains_key(k));
            }
            assert forall|c: u128| #[trigger] active.contains_key(c) implies {
                &&& n.orders.contains_key(key_of_code(c))
                &&& c == key_code(key_of_code(c))
            } by {
                assert(m.orders.contains_key(key_of_code(c)));
            }
            assert forall|raw: u64| #[trigger] stored_after.contains_key(raw) implies {
                &&& n.orders.contains_key(stored_after[raw].key)
                &&& handle_of(active, stored_after[raw].key).raw == raw
            } by {
                assert(stored.contains_key(raw));
            }
            assert forall|side: Side, p: Price, i: int|
                m.side(side).queues.contains_key(p) && 0 <= i < m.side(side).queues[p].len()
                    implies {
                let k = #[trigger] m.side(side).queues[p][i];
                let old_state = stored[handle_of(active, k).raw];
                let new_state = stored_after[handle_of(active, k).raw];
                &&& new_state.previous == old_state.previous
                &&& new_state.next == old_state.next
                &&& m.orders.contains_key(k) && k.side == side
            } by {
                lemma_queued(m, side, p, i);
                assert(handle_of(active, m.side(side).queues[p][i]).raw == handle.raw
                    || stored_after[handle_of(active, m.side(side).queues[p][i]).raw]
                    == stored[handle_of(active, m.side(side).queues[p][i]).raw]);
            }
            assert(m.side(Side::Buy) == m.bids);
            assert(m.side(Side::Sell) == m.asks);
            lemma_links_same(active, stored, active, stored_after, m.bids.queues);
            lemma_links_same(active, stored, active, stored_after, m.asks.queues);
            let other = key.side.spec_opposite();
            lemma_levels_same(
                active,
                m.orders,
                active,
                n.orders,
                m.side(other),
                self.spec_side(other).levels@,
                self.spec_side(other).aggregate,
            );
            if state.location == OrderLocation::Aggressive {
                lemma_hidden_not_queued(m, key);
                lemma_levels_same(
                    active,
                    m.orders,
                    active,
                    n.orders,
                    m.side(key.side),
                    self.spec_side(key.side).levels@,
                    self.spec_side(key.side).aggregate,
                );
            }
        }
        if state.location == OrderLocation::Resting {
            match key.side {
                Side::Buy => Self::reduce_level(
                    &mut self.bids,
                    key,
                    state,
                    quantity,
                    Ghost(trade_price),
                    Ghost(active),
                    Ghost(m),
                ),
                Side::Sell => Self::reduce_level(
                    &mut self.asks,
                    key,
                    state,
                    quantity,
                    Ghost(trade_price),
                    Ghost(active),
                    Ghost(m),
                ),
            }
        }
        self.model = Ghost(n);
    }

    /// The level part of [`reduce_order`](Self::reduce_order).
    fn reduce_level(
        side: &mut BookSide,
        key: OrderKey,
        state: OrderState,
        quantity: u64,
        Ghost(trade_price): Ghost<Price>,
        Ghost(active): Ghost<ActiveIndex>,
        Ghost(m): Ghost<BookModel>,
    )
        requires
            m.wf(),
            m.orders.contains_key(key),
            m.orders[key].location == OrderLocation::Resting,
            represents(state, key, m.orders[key]),
            0 < quantity < m.orders[key].remaining_quantity,
            levels_wf(
                active,
                m.orders,
                m.side(key.side),
                old(side).levels@,
                old(side).aggregate,
            ),
        ensures
            levels_wf(
                active,
                m.reduce(key, quantity as int, trade_price).orders,
                m.reduce(key, quantity as int, trade_price).side(key.side),
                final(side).levels@,
                final(side).aggregate,
            ),
    {
        let ghost before = side.levels@;
        let ghost aggregate = side.aggregate;
        proof {
            lemma_queue_index(m, key);
        }
        let Some(price) = state.effective_price else {
            return;
        };
        match find_level(&side.levels, price) {
            Ok(at) => {
                let level = side.levels[at];
                let weighted: u128 = price_quantity(price, quantity);
                proof {
                    lemma_totals_cover(active, m, key, before, aggregate, at as int);
                    let units = price.value as int;
                    let whole = state.remaining_quantity as int;
                    assert(units * quantity <= units * whole) by (nonlinear_arith)
                        requires
                            units >= 0,
                            quantity <= whole,
                    ;
                    assert(level_ok(
                        active,
                        m.orders,
                        before[at as int],
                        m.side(key.side).queues[price],
                    ));
                }
                let aggregate_after = SideAggregate {
                    total_quantity: side.aggregate.total_quantity - quantity,
                    weighted_price_quantity: side.aggregate.weighted_price_quantity - weighted,
                };
                let after = PriceLevelState {
                    total_quantity: level.total_quantity - quantity,
                    ..level
                };
                proof {
                    lemma_levels_reduce(
                        active,
                        m,
                        key,
                        quantity as int,
                        trade_price,
                        before,
                        aggregate,
                        at as int,
                        after,
                        aggregate_after,
                    );
                }
                side.levels.set(at, after);
                side.aggregate = aggregate_after;
            },
            Err(_) => {
                proof {
                    assert(has_price(before, price));
                }
            },
        }
    }

    /// Handle and stored state of an active order.
    fn lookup(&self, key: &OrderKey) -> (r: Option<(OrderHandle, OrderState)>)
        requires
            self.wf(),
        ensures
            r is Some <==> self@.orders.contains_key(*key),
            r matches Some((handle, state)) ==> {
                &&& handle == handle_of(self.active_by_key@, *key)
                &&& state == stored_orders(self.orders)[handle.raw]
                &&& represents(state, *key, self@.orders[*key])
            },
    {
        broadcast use vstd::std_specs::hash::group_hash_axioms;

        proof {
            lemma_key_code(*key);
        }
        match self.active_by_key.get(&pack_key(*key)) {
            Some(handle) => {
                let handle = *handle;
                proof {
                    use_type_invariant(&handle);
                }
                match storage_get(&self.orders, handle) {
                    Some(state) => Some((handle, *state)),
                    None => None,
                }
            },
            None => None,
        }
    }

    fn best_price(&self, side: Side) -> (r: Option<Price>)
        requires
            self.wf(),
        ensures
            r == self@.best_price(side),
    {
        proof {
            self.lemma_side_wf(side);
            lemma_best_listed(self.model@, side, self.spec_side(side).levels@);
        }
        let levels = &self.side_ref(side).levels;
        let count: usize = levels.len();
        if count == 0 {
            None
        } else {
            match side {
                Side::Buy => Some(levels[count - 1].price),
                Side::Sell => Some(levels[0].price),
            }
        }
    }

    fn crosses_opposite(&self, side: Side, price: Price) -> (r: bool)
        requires
            self.wf(),
        ensures
            r == self@.crosses(side, price),
    {
        match (side, self.best_price(side.opposite())) {
            (Side::Buy, Some(best_ask)) => price.value >= best_ask.value,
            (Side::Sell, Some(best_bid)) => price.value <= best_bid.value,
            (_, None) => false,
        }
    }

    fn resolve_price(&self, side: Side, pricing: PricingInstruction) -> (r: Result<
        Option<Price>,
        BookError,
    >)
        requires
            self.wf(),
        ensures
            r == match self@.resolved_price(side, pricing) {
                Some(price) => Ok(price),
                None => Err(BookModel::pricing_error(side, pricing)),
            },
    {
        match pricing {
            PricingInstruction::Provided(price) => Ok(Some(price)),
            PricingInstruction::SameSideBest => match self.best_price(side) {
                Some(price) => Ok(Some(price)),
                None => Err(
                    BookError::ReferencePriceUnavailable { side, instruction: "same-side best" },
                ),
            },
            PricingInstruction::OppositeBest => match self.best_price(side.opposite()) {
                Some(price) => Ok(Some(price)),
                None => Err(
                    BookError::ReferencePriceUnavailable { side, instruction: "opposite best" },
                ),
            },
            PricingInstruction::Unpriced => Ok(None),
        }
    }

    fn validate_attach(&self, side: Side, price: Price, quantity: u64) -> (r: Result<
        AttachPlan,
        BookError,
    >)
        requires
            self.wf(),
        ensures
            match self@.attach_error(side, price, quantity as int) {
                Some(error) => r == Err::<AttachPlan, BookError>(error),
                None => {
                    let state = self@.side(side);
                    let queue = state.queue(price);
                    &&& r matches Ok(plan)
                    &&& plan.total_quantity == self@.level_total(side, price) + quantity
                    &&& plan.order_count == queue.len() + 1
                    &&& plan.previous == if queue.len() == 0 {
                        None
                    } else {
                        Some(handle_of(self.active_by_key@, queue[queue.len() - 1]))
                    }
                    &&& plan.side_aggregate.total_quantity == state.total_quantity + quantity
                    &&& plan.side_aggregate.weighted_price_quantity
                        == state.weighted_price_quantity + price.spec_units() * quantity
                },
            },
    {
        let ghost m = self.model@;
        proof {
            self.lemma_side_wf(side);
        }
        let book_side = self.side_ref(side);
        let weighted: u128 = price_quantity(price, quantity);
        let total_quantity: u64 = match book_side.aggregate.total_quantity.checked_add(quantity) {
            Some(total) => total,
            None => return Err(BookError::ArithmeticOverflow("side quantity")),
        };
        let weighted_price_quantity: u128 =
            match book_side.aggregate.weighted_price_quantity.checked_add(weighted) {
            Some(total) => total,
            None => return Err(BookError::ArithmeticOverflow("side weighted price")),
        };
        let side_aggregate = SideAggregate { total_quantity, weighted_price_quantity };
        match find_level(&book_side.levels, price) {
            Err(_) => {
                proof {
                    assert(!m.side(side).queues.contains_key(price)) by {
                        if m.side(side).queues.contains_key(price) {
                            assert(has_price(book_side.levels@, price));
                        }
                    }
                }
                Ok(
                    AttachPlan {
                        total_quantity: quantity,
                        order_count: 1,
                        previous: None,
                        side_aggregate,
                    },
                )
            },
            Ok(at) => {
                let level = book_side.levels[at];
                proof {
                    assert(level_ok(
                        self.active_by_key@,
                        m.orders,
                        book_side.levels@[at as int],
                        m.side(side).queues[price],
                    ));
                    lemma_level_within_side(
                        self.active_by_key@,
                        m.orders,
                        m.side(side),
                        book_side.levels@,
                        book_side.aggregate,
                        at as int,
                    );
                }
                if level.order_count == usize::MAX {
                    return Err(BookError::ArithmeticOverflow("price-level order count"));
                }
                Ok(
                    AttachPlan {
                        total_quantity: level.total_quantity + quantity,
                        order_count: level.order_count + 1,
                        previous: level.tail,
                        side_aggregate,
                    },
                )
            },
        }
    }

    fn apply_add(&mut self, event: &AddOrder) -> (r: Result<ApplyOutcome, BookError>)
        requires
            old(self).wf(),
            old(self)@.add_error(
                event.order_key,
                event.pricing,
                event.crossing,
                event.quantity,
            ) is None ==> old(self)@.orders.len() < MAX_STORED_ORDERS,
        ensures
            final(self).wf(),
            final(self).spec_config() == old(self).spec_config(),
            match old(self)@.add_error(
                event.order_key,
                event.pricing,
                event.crossing,
                event.quantity,
            ) {
                Some(error) => r == Err::<ApplyOutcome, BookError>(error) && final(self)@
                    == old(self)@,
                None => {
                    &&& r == Ok::<ApplyOutcome, BookError>(
                        old(self)@.add_outcome(
                            event.order_key,
                            event.pricing,
                            event.crossing,
                            event.quantity,
                        ),
                    )
                    &&& final(self)@ == old(self)@.add_next(
                        event.order_key,
                        event.pricing,
                        event.crossing,
                        event.quantity,
                    )
                },
            },
    {
        broadcast use vstd::std_specs::hash::group_hash_axioms;

        let key = event.order_key;
        let ghost m = self.model@;
        proof {
            assert(m.seen.contains(key) <==> self.seen_order_keys@.contains(key_code(key)));
            if m.orders.contains_key(key) {
                reveal(BookModel::wf);
            }
        }
        if self.seen_order_keys.contains(&pack_key(key)) {
            return Err(BookError::DuplicateOrder(key));
        }
        let price = match self.resolve_price(key.side, event.pricing) {
            Ok(price) => price,
            Err(error) => return Err(error),
        };
        let hidden = match event.crossing {
            CrossingBehavior::Rest => false,
            CrossingBehavior::AlwaysHide => true,
            CrossingBehavior::RestAtLastTradePrice => true,
            CrossingBehavior::HideIfCrossing => match price {
                Some(price) => self.crosses_opposite(key.side, price),
                None => false,
            },
        };
        if !hidden {
            match price {
                None => return Err(BookError::UnpricedVisibleOrder),
                Some(price) => match self.validate_attach(
                    key.side,
                    price,
                    event.quantity.get(),
                ) {
                    Ok(_) => {},
                    Err(error) => return Err(error),
                },
            }
        }
        let ghost order = BookModel::new_order(price, event.crossing, event.quantity);
        let state = OrderState {
            key,
            effective_price: price,
            original_quantity: event.quantity,
            remaining_quantity: event.quantity.get(),
            previous: None,
            next: None,
            location: OrderLocation::Aggressive,
            allow_reentry: event.crossing == CrossingBehavior::HideIfCrossing || event.crossing
                == CrossingBehavior::RestAtLastTradePrice,
            reprice_from_trade: event.crossing == CrossingBehavior::RestAtLastTradePrice,
        };
        let handle = self.insert_order(state, Ghost(order));
        if !hidden {
            if let Some(price) = price {
                match self.validate_attach(key.side, price, event.quantity.get()) {
                    Ok(plan) => self.commit_attach(key, handle, price, plan),
                    Err(_) => {},
                }
            }
        }
        Ok(
            ApplyOutcome::Added {
                key,
                effective_price: price,
                quantity: event.quantity,
                location: if hidden {
                    OrderLocation::Aggressive
                } else {
                    OrderLocation::Resting
                },
            },
        )
    }

    /// Takes an active order out of the book.
    fn remove_order(&mut self, key: OrderKey, handle: OrderHandle, state: OrderState)
        requires
            old(self).wf(),
            old(self)@.orders.contains_key(key),
            handle == handle_of(old(self).active_by_key@, key),
            state == stored_orders(old(self).orders)[handle.raw],
        ensures
            final(self).wf(),
            final(self).spec_config() == old(self).spec_config(),
            final(self)@ == old(self)@.remove(key),
    {
        let ghost m = self.model@;
        if state.location == OrderLocation::Resting {
            self.commit_detach(key, handle, state);
        }
        self.drop_order(key, handle);
        assert(self.model@.orders =~= m.remove(key).orders);
    }

    fn apply_cancel(&mut self, event: &OrderCancel) -> (r: Result<ApplyOutcome, BookError>)
        requires
            old(self).wf(),
        ensures
            final(self).wf(),
            final(self).spec_config() == old(self).spec_config(),
            match old(self)@.cancel_error(event.order_key) {
                Some(error) => r == Err::<ApplyOutcome, BookError>(error) && final(self)@
                    == old(self)@,
                None => {
                    &&& r == Ok::<ApplyOutcome, BookError>(
                        ApplyOutcome::Cancelled {
                            key: event.order_key,
                            cancelled_quantity: old(
                                self,
                            )@.orders[event.order_key].remaining_quantity,
                        },
                    )
                    &&& final(self)@ == old(self)@.remove(event.order_key)
                },
            },
    {
        match self.lookup(&event.order_key) {
            None => Err(BookError::UnknownCancellation(event.order_key)),
            Some((handle, state)) => {
                self.remove_order(event.order_key, handle, state);
                Ok(
                    ApplyOutcome::Cancelled {
                        key: event.order_key,
                        cancelled_quantity: state.remaining_quantity,
                    },
                )
            },
        }
    }

    /// Makes a hidden order visible at a price where nothing stands against it.
    fn rest_order(&mut self, key: OrderKey, price: Price)
        requires
            old(self).wf(),
            old(self)@.orders.contains_key(key),
            old(self)@.orders[key].location == OrderLocation::Aggressive,
            old(self)@.attach_error(
                key.side,
                price,
                old(self)@.orders[key].remaining_quantity as int,
            ) is None,
        ensures
            final(self).wf(),
            final(self).spec_config() == old(self).spec_config(),
            final(self)@ == old(self)@.rest(key, price),
    {
        if let Some((handle, state)) = self.lookup(&key) {
            match self.validate_attach(key.side, price, state.remaining_quantity) {
                Ok(plan) => self.commit_attach(key, handle, price, plan),
                Err(_) => {},
            }
        }
    }

    /// Completes a buffered execution group: a hidden order that nothing else lets rest
    /// becomes visible. The metadata stays that of the group's last event.
    pub fn rest_pending_order(&mut self, key: OrderKey, price: Price) -> (r: Result<(), BookError>)
        requires
            old(self).wf(),
        ensures
            final(self).wf(),
            final(self).spec_config() == old(self).spec_config(),
            match old(self)@.rest_error(key, price) {
                Some(error) => r == Err::<(), BookError>(error) && final(self)@ == old(self)@,
                None => r == Ok::<(), BookError>(()) && final(self)@ == old(self)@.rest_next(
                    key,
                    price,
                ),
            },
    {
        let (handle, state) = match self.lookup(&key) {
            Some(found) => found,
            None => return Err(BookError::UnknownCancellation(key)),
        };
        if state.location != OrderLocation::Aggressive || state.allow_reentry {
            return Err(BookError::InvariantViolation("order is not explicitly pending"));
        }
        if self.crosses_opposite(key.side, price) {
            return Err(BookError::InvariantViolation("pending remainder still crosses"));
        }
        let plan = match self.validate_attach(key.side, price, state.remaining_quantity) {
            Ok(plan) => plan,
            Err(error) => return Err(error),
        };
        let ghost m = self.model@;
        self.commit_attach(key, handle, price, plan);
        self.advance_revision();
        Ok(())
    }

    fn advance_revision(&mut self)
        requires
            old(self).wf(),
        ensures
            final(self).wf(),
            final(self).spec_config() == old(self).spec_config(),
            final(self)@ == (BookModel { revision: revision_next(old(self)@.revision), ..old(self)@ }),
    {
        let ghost m = self.model@;
        let ghost n = BookModel { revision: revision_next(m.revision), ..m };
        self.revision = self.revision.saturating_add(1);
        self.model = Ghost(n);
        proof {
            lemma_wf_depends(m, n);
        }
    }

    fn resolve_trade_reference(&self, reference: OrderReference, expected: Side) -> (r: Result<
        TradeReferenceResolution,
        BookError,
    >)
        requires
            self.wf(),
        ensures
            match reference_side_error(reference, expected) {
                Some(error) => r == Err::<TradeReferenceResolution, BookError>(error),
                None => r matches Ok(found) && found.known == self@.known(reference)
                    && found.unknown == self@.unknown(reference),
            },
    {
        match reference {
            OrderReference::Absent => Ok(TradeReferenceResolution { known: None, unknown: None }),
            OrderReference::Unresolved { side, order_id } => {
                if side != expected {
                    return Err(BookError::InvalidTradeReferenceSide { expected, actual: side });
                }
                Ok(TradeReferenceResolution { known: None, unknown: Some((side, order_id)) })
            },
            OrderReference::Resolved(key) => {
                if key.side != expected {
                    return Err(
                        BookError::InvalidTradeReferenceSide { expected, actual: key.side },
                    );
                }
                match self.lookup(&key) {
                    Some(_) => Ok(TradeReferenceResolution { known: Some(key), unknown: None }),
                    None => Ok(
                        TradeReferenceResolution {
                            known: None,
                            unknown: Some((key.side, key.order_id)),
                        },
                    ),
                }
            },
        }
    }

    /// A plan takes the quantity from its order.
    spec fn plan_ok(self, plan: KnownTradePlan, quantity: u64, trade_price: Price) -> bool {
        let order = self@.orders[plan.key];
        &&& self@.orders.contains_key(plan.key)
        &&& plan.handle == handle_of(self.active_by_key@, plan.key)
        &&& plan.state == stored_orders(self.orders)[plan.handle.raw]
        &&& represents(plan.state, plan.key, order)
        &&& plan.new_remaining == order.remaining_quantity - quantity
        &&& plan.new_effective_price == if order.location == OrderLocation::Aggressive
            && order.reprice_from_trade && plan.new_remaining > 0 {
            Some(trade_price)
        } else {
            order.effective_price
        }
    }

    fn build_trade_plan(&self, known: Option<OrderKey>, quantity: u64, trade_price: Price) -> (r:
        Result<Option<KnownTradePlan>, BookError>)
        requires
            self.wf(),
            known is Some ==> self@.orders.contains_key(known->0),
        ensures
            match self@.overfill_error(known, quantity) {
                Some(error) => r == Err::<Option<KnownTradePlan>, BookError>(error),
                None => r matches Ok(plan) && plan_key(plan) == known && (plan is Some
                    ==> self.plan_ok(plan->0, quantity, trade_price)),
            },
    {
        let key = match known {
            Some(key) => key,
            None => return Ok(None),
        };
        match self.lookup(&key) {
            None => Err(BookError::InvariantViolation("trade handle is missing")),
            Some((handle, state)) => {
                if quantity > state.remaining_quantity {
                    return Err(
                        BookError::TradeOverfill {
                            key,
                            remaining: state.remaining_quantity,
                            trade: quantity,
                        },
                    );
                }
                let new_remaining: u64 = state.remaining_quantity - quantity;
                let repriced = state.location == OrderLocation::Aggressive
                    && state.reprice_from_trade && new_remaining > 0;
                Ok(
                    Some(
                        KnownTradePlan {
                            key,
                            handle,
                            state,
                            new_remaining,
                            new_effective_price: if repriced {
                                Some(trade_price)
                            } else {
                                state.effective_price
                            },
                        },
                    ),
                )
            },
        }
    }

    fn validate_trade_statistics(&self, price: Price, quantity: u64) -> (r: Result<
        TradeStatisticsView,
        BookError,
    >)
        requires
            self.wf(),
        ensures
            r == match statistics_error(self@.statistics, price, quantity as int) {
                Some(error) => Err(error),
                None => Ok(statistics_next(self@.statistics, price, quantity as int)),
            },
    {
        let statistics = self.statistics;
        let total_quantity: u64 = match statistics.total_quantity.checked_add(quantity) {
            Some(total) => total,
            None => return Err(BookError::ArithmeticOverflow("total trade quantity")),
        };
        let turnover: u128 = price_quantity(price, quantity);
        let total_turnover_units: u128 =
            match statistics.total_turnover_units.checked_add(turnover) {
            Some(total) => total,
            None => return Err(BookError::ArithmeticOverflow("total trade turnover")),
        };
        let trade_count: u64 = match statistics.trade_count.checked_add(1) {
            Some(count) => count,
            None => return Err(BookError::ArithmeticOverflow("trade count")),
        };
        Ok(
            TradeStatisticsView {
                last_price: Some(price),
                high_price: Some(
                    match statistics.high_price {
                        None => price,
                        Some(high) => high.higher(price),
                    },
                ),
                low_price: Some(
                    match statistics.low_price {
                        None => price,
                        Some(low) => low.lower(price),
                    },
                ),
                total_quantity,
                total_turnover_units,
                trade_count,
            },
        )
    }

    /// The best price of a side once a planned trade has taken its quantity.
    fn best_after_trade(
        &self,
        side: Side,
        plan: Option<KnownTradePlan>,
        quantity: u64,
        trade_price: Price,
    ) -> (r: Option<Price>)
        requires
            self.wf(),
            quantity > 0,
            plan is Some ==> plan->0.key.side == side && self.plan_ok(
                plan->0,
                quantity,
                trade_price,
            ),
        ensures
            r == self@.fill_known(plan_key(plan), quantity as int, trade_price).best_price(side),
            r is None ==> self@.fill_known(plan_key(plan), quantity as int, trade_price).side(
                side,
            ).queues =~= Map::<Price, Seq<OrderKey>>::empty(),
    {
        let ghost m = self.model@;
        let ghost n = m.fill_known(plan_key(plan), quantity as int, trade_price);
        let levels = &self.side_ref(side).levels;
        let count: usize = levels.len();
        proof {
            self.lemma_side_wf(side);
            assert(lists(m.side(side).queues, levels@));
            match plan {
                Some(plan) => {
                    lemma_best_after_fill(
                        self.active_by_key@,
                        m,
                        plan.key,
                        quantity as int,
                        trade_price,
                        levels@,
                        self.spec_side(side).aggregate,
                    );
                },
                None => {
                    lemma_best_listed(m, side, levels@);
                },
            }
            if count > 0 {
                let last = levels@.remove(count - 1);
                let first = levels@.remove(0);
                if count > 1 {
                    assert(last[count - 2] == levels@[count - 2]);
                    assert(first[0] == levels@[1]);
                }
            }
        }
        if count == 0 {
            return None;
        }
        let best = match side {
            Side::Buy => levels[count - 1],
            Side::Sell => levels[0],
        };
        let gone = match plan {
            None => false,
            Some(plan) => plan.state.location == OrderLocation::Resting
                && plan.state.effective_price == Some(best.price) && best.total_quantity
                <= plan.state.remaining_quantity - plan.new_remaining,
        };
        if !gone {
            Some(best.price)
        } else if count == 1 {
            None
        } else {
            match side {
                Side::Buy => Some(levels[count - 2].price),
                Side::Sell => Some(levels[1].price),
            }
        }
    }

    /// Takes the quantity of a trade from one active order.
    fn commit_trade_plan(&mut self, key: OrderKey, quantity: u64, trade_price: Price)
        requires
            old(self).wf(),
            old(self)@.orders.contains_key(key),
            0 < quantity <= old(self)@.orders[key].remaining_quantity,
        ensures
            final(self).wf(),
            final(self).spec_config() == old(self).spec_config(),
            final(self)@ == old(self)@.fill(key, quantity as int, trade_price),
    {
        if let Some((handle, state)) = self.lookup(&key) {
            if state.remaining_quantity == quantity {
                self.remove_order(key, handle, state);
            } else {
                self.reduce_order(key, handle, state, quantity, trade_price);
            }
        }
    }

    fn set_statistics(&mut self, statistics: TradeStatisticsView)
        requires
            old(self).wf(),
        ensures
            final(self).wf(),
            final(self).spec_config() == old(self).spec_config(),
            final(self)@ == (BookModel { statistics, ..old(self)@ }),
    {
        let ghost m = self.model@;
        let ghost n = BookModel { statistics, ..m };
        self.statistics = statistics;
        self.model = Ghost(n);
        proof {
            lemma_wf_depends(m, n);
        }
    }

    fn set_last_meta(&mut self, meta: EventMeta)
        requires
            old(self).wf(),
            meta.book_key.spec_same(old(self).spec_config().book_key),
        ensures
            final(self).wf(),
            final(self).spec_config() == old(self).spec_config(),
            final(self)@ == (BookModel { last_meta: Some(meta_model(meta)), ..old(self)@ }),
    {
        let ghost m = self.model@;
        let ghost n = BookModel { last_meta: Some(meta_model(meta)), ..m };
        self.last_applied_meta = Some(meta);
        self.model = Ghost(n);
        proof {
            lemma_wf_depends(m, n);
        }
    }

    /// Whether what a plan leaves of a hidden order can rest against the other side's best.
    fn plan_reenters(plan: &KnownTradePlan, opposite_best: Option<Price>) -> (r: Option<Price>)
        ensures
            r == if plan.state.location == OrderLocation::Aggressive && plan.state.allow_reentry
                && plan.new_remaining > 0 && plan.new_effective_price is Some && (
            opposite_best is None || !at_least_as_good(
                plan.key.side,
                plan.new_effective_price->0,
                opposite_best->0,
            )) {
                plan.new_effective_price
            } else {
                None
            },
    {
        if plan.state.location == OrderLocation::Aggressive && plan.state.allow_reentry
            && plan.new_remaining > 0 {
            match (plan.new_effective_price, opposite_best) {
                (Some(price), None) => Some(price),
                (Some(price), Some(best)) => {
                    let rests = match plan.key.side {
                        Side::Buy => price.value < best.value,
                        Side::Sell => price.value > best.value,
                    };
                    if rests {
                        Some(price)
                    } else {
                        None
                    }
                },
                (None, _) => None,
            }
        } else {
            None
        }
    }

    /// What keeps the rest of a planned order from becoming visible.
    fn validate_reentry(&self, plan: Option<KnownTradePlan>, price: Option<Price>) -> (r: Result<
        (),
        BookError,
    >)
        requires
            self.wf(),
        ensures
            r == if plan is Some && price is Some {
                match self@.attach_error(
                    plan->0.key.side,
                    price->0,
                    plan->0.new_remaining as int,
                ) {
                    Some(error) => Err::<(), BookError>(error),
                    None => Ok(()),
                }
            } else {
                Ok(())
            },
    {
        if let (Some(plan), Some(price)) = (plan, price) {
            match self.validate_attach(plan.key.side, price, plan.new_remaining) {
                Ok(_) => Ok(()),
                Err(error) => Err(error),
            }
        } else {
            Ok(())
        }
    }

    /// Decides a trade: what it does to the statistics and to the orders it names.
    fn plan_trade(&self, event: &Trade) -> (r: Result<TradePlan, BookError>)
        requires
            self.wf(),
        ensures
            match self@.trade_error(
                event.bid_order,
                event.ask_order,
                event.price,
                event.quantity,
                self.spec_config().unknown_trade_policy,
            ) {
                Some(error) => r == Err::<TradePlan, BookError>(error),
                None => r matches Ok(plan) && trade_plan_ok(self@, *event, plan),
            },
    {
        let ghost m = self.model@;
        let quantity: u64 = event.quantity.get();
        let price = event.price;
        let bid = match self.resolve_trade_reference(event.bid_order, Side::Buy) {
            Ok(resolution) => resolution,
            Err(error) => return Err(error),
        };
        let ask = match self.resolve_trade_reference(event.ask_order, Side::Sell) {
            Ok(resolution) => resolution,
            Err(error) => return Err(error),
        };
        if self.config.unknown_trade_policy == UnknownTradePolicy::Reject {
            if let Some((side, order_id)) = bid.unknown {
                return Err(BookError::UnknownTradeReference { side, order_id });
            }
            if let Some((side, order_id)) = ask.unknown {
                return Err(BookError::UnknownTradeReference { side, order_id });
            }
        }
        let bid_plan = match self.build_trade_plan(bid.known, quantity, price) {
            Ok(plan) => plan,
            Err(error) => return Err(error),
        };
        let ask_plan = match self.build_trade_plan(ask.known, quantity, price) {
            Ok(plan) => plan,
            Err(error) => return Err(error),
        };
        let statistics = match self.validate_trade_statistics(price, quantity) {
            Ok(statistics) => statistics,
            Err(error) => return Err(error),
        };
        let ghost t = m.traded(event.bid_order, event.ask_order, event.price, event.quantity);
        let ghost t2 = t.reenter_known(bid.known);
        proof {
            Self::lemma_traded(m, *event);
        }
        let bid_price = self.decide_bid(bid_plan, ask_plan, event);
        let ask_price = self.decide_ask(bid_plan, ask_plan, bid_price, event);
        match self.validate_reentry(bid_plan, bid_price) {
            Ok(()) => {},
            Err(error) => return Err(error),
        }
        match self.validate_reentry(ask_plan, ask_price) {
            Ok(()) => {},
            Err(error) => return Err(error),
        }
        Ok(
            TradePlan {
                statistics,
                bid: bid.known,
                ask: ask.known,
                bid_price,
                ask_price,
            },
        )
    }

    /// The price at which what is left of a hidden bid becomes visible.
    fn decide_bid(
        &self,
        bid_plan: Option<KnownTradePlan>,
        ask_plan: Option<KnownTradePlan>,
        event: &Trade,
    ) -> (r: Option<Price>)
        requires
            self.wf(),
            reference_side_error(event.bid_order, Side::Buy) is None,
            reference_side_error(event.ask_order, Side::Sell) is None,
            event.quantity.spec_get() > 0,
            plan_key(bid_plan) == self@.known(event.bid_order),
            plan_key(ask_plan) == self@.known(event.ask_order),
            bid_plan is Some ==> self.plan_ok(
                bid_plan->0,
                event.quantity.spec_get(),
                event.price,
            ),
            ask_plan is Some ==> self.plan_ok(
                ask_plan->0,
                event.quantity.spec_get(),
                event.price,
            ),
        ensures
            r == reentry_price(self@.traded(
                event.bid_order,
                event.ask_order,
                event.price,
                event.quantity,
            ), plan_key(bid_plan)),
            r is Some ==> bid_plan is Some && bid_plan->0.state.location
                == OrderLocation::Aggressive && bid_plan->0.new_remaining > 0
                && bid_plan->0.new_effective_price == r,
    {
        let ghost m = self.model@;
        let quantity: u64 = event.quantity.get();
        proof {
            Self::lemma_traded(m, *event);
        }
        let post_best_ask = self.best_after_trade(Side::Sell, ask_plan, quantity, event.price);
        match &bid_plan {
            Some(plan) => Self::plan_reenters(plan, post_best_ask),
            None => None,
        }
    }

    /// The price at which what is left of a hidden ask becomes visible.
    fn decide_ask(
        &self,
        bid_plan: Option<KnownTradePlan>,
        ask_plan: Option<KnownTradePlan>,
        bid_price: Option<Price>,
        event: &Trade,
    ) -> (r: Option<Price>)
        requires
            self.wf(),
            reference_side_error(event.bid_order, Side::Buy) is None,
            reference_side_error(event.ask_order, Side::Sell) is None,
            event.quantity.spec_get() > 0,
            plan_key(bid_plan) == self@.known(event.bid_order),
            plan_key(ask_plan) == self@.known(event.ask_order),
            bid_plan is Some ==> self.plan_ok(
                bid_plan->0,
                event.quantity.spec_get(),
                event.price,
            ),
            ask_plan is Some ==> self.plan_ok(
                ask_plan->0,
                event.quantity.spec_get(),
                event.price,
            ),
            bid_price == reentry_price(self@.traded(
                event.bid_order,
                event.ask_order,
                event.price,
                event.quantity,
            ), plan_key(bid_plan)),
        ensures
            r == reentry_price(
                self@.traded(
                event.bid_order,
                event.ask_order,
                event.price,
                event.quantity,
            ).reenter_known(plan_key(bid_plan)),
                plan_key(ask_plan),
            ),
            r is Some ==> ask_plan is Some && ask_plan->0.state.location
                == OrderLocation::Aggressive && ask_plan->0.new_remaining > 0
                && ask_plan->0.new_effective_price == r,
    {
        let ghost m = self.model@;
        let ghost t = m.traded(event.bid_order, event.ask_order, event.price, event.quantity);
        let quantity: u64 = event.quantity.get();
        proof {
            Self::lemma_traded(m, *event);
        }
        let remaining_best_bid = self.best_after_trade(Side::Buy, bid_plan, quantity, event.price);
        let post_best_bid = match (bid_price, remaining_best_bid) {
            (None, best) => best,
            (Some(price), None) => Some(price),
            (Some(price), Some(best)) => Some(best.higher(price)),
        };
        proof {
            if bid_price is Some {
                lemma_best_after_rest(t, bid_plan->0.key, bid_price->0);
            }
            assert(t.reenter_known(plan_key(bid_plan)).best_price(Side::Buy) == post_best_bid);
        }
        match &ask_plan {
            Some(plan) => Self::plan_reenters(plan, post_best_bid),
            None => None,
        }
    }

    fn apply_trade(&mut self, event: &Trade) -> (r: Result<ApplyOutcome, BookError>)
        requires
            old(self).wf(),
        ensures
            final(self).wf(),
            final(self).spec_config() == old(self).spec_config(),
            match old(self)@.trade_error(
                event.bid_order,
                event.ask_order,
                event.price,
                event.quantity,
                old(self).spec_config().unknown_trade_policy,
            ) {
                Some(error) => r == Err::<ApplyOutcome, BookError>(error) && final(self)@
                    == old(self)@,
                None => {
                    &&& r == Ok::<ApplyOutcome, BookError>(
                        old(self)@.trade_outcome(
                            event.bid_order,
                            event.ask_order,
                            event.quantity,
                        ),
                    )
                    &&& final(self)@ == old(self)@.trade_next(
                        event.bid_order,
                        event.ask_order,
                        event.price,
                        event.quantity,
                    )
                },
            },
    {
        let ghost m = self.model@;
        let plan = match self.plan_trade(event) {
            Ok(plan) => plan,
            Err(error) => return Err(error),
        };
        let quantity: u64 = event.quantity.get();
        let price = event.price;
        let ghost t = m.traded(event.bid_order, event.ask_order, event.price, event.quantity);
        proof {
            Self::lemma_traded(m, *event);
        }
        self.set_statistics(plan.statistics);
        if let Some(key) = plan.bid {
            self.commit_trade_plan(key, quantity, price);
        }
        if let Some(key) = plan.ask {
            self.commit_trade_plan(key, quantity, price);
        }
        assert(self.model@ == t);
        if let (Some(key), Some(rest_price)) = (plan.bid, plan.bid_price) {
            self.rest_order(key, rest_price);
        }
        assert(self.model@ == t.reenter_known(plan.bid));
        if let (Some(key), Some(rest_price)) = (plan.ask, plan.ask_price) {
            self.rest_order(key, rest_price);
        }
        Ok(
            ApplyOutcome::Traded {
                bid_reduction: match plan.bid {
                    Some(_) => quantity,
                    None => 0,
                },
                ask_reduction: match plan.ask {
                    Some(_) => quantity,
                    None => 0,
                },
            },
        )
    }

    /// What taking the quantities of a trade does to each side and to the traded orders.
    proof fn lemma_traded(m: BookModel, event: Trade)
        requires
            reference_side_error(event.bid_order, Side::Buy) is None,
            reference_side_error(event.ask_order, Side::Sell) is None,
        ensures
            ({
                let q = event.quantity.spec_get() as int;
                let t = m.traded(event.bid_order, event.ask_order, event.price, event.quantity);
                let bid = m.known(event.bid_order);
                let ask = m.known(event.ask_order);
                &&& t.bids == m.fill_known(bid, q, event.price).bids
                &&& t.asks == m.fill_known(ask, q, event.price).asks
                &&& bid matches Some(key) ==> {
                    let n = m.fill(key, q, event.price);
                    &&& key.side == Side::Buy
                    &&& t.orders.contains_key(key) == n.orders.contains_key(key)
                    &&& n.orders.contains_key(key) ==> t.orders[key] == n.orders[key]
                }
                &&& ask matches Some(key) ==> {
                    let n = m.fill(key, q, event.price);
                    &&& key.side == Side::Sell
                    &&& t.orders.contains_key(key) == n.orders.contains_key(key)
                    &&& n.orders.contains_key(key) ==> t.orders[key] == n.orders[key]
                }
            }),
    {
    }

    /// Applies one event, or refuses it and changes nothing. A book that is full can take any
    /// event but an order that it would accept.
    pub fn apply(&mut self, event: BookEvent) -> (r: Result<ApplyOutcome, BookError>)
        requires
            old(self).wf(),
            event is AddOrder && old(self)@.apply_error(old(self).spec_config(), event) is None
                ==> old(self)@.orders.len() < MAX_STORED_ORDERS,
        ensures
            final(self).wf(),
            final(self).spec_config() == old(self).spec_config(),
            match old(self)@.apply_error(old(self).spec_config(), event) {
                Some(error) => r == Err::<ApplyOutcome, BookError>(error) && final(self)@
                    == old(self)@,
                None => r == Ok::<ApplyOutcome, BookError>(old(self)@.apply_outcome(event))
                    && final(self)@ == old(self)@.apply_next(event),
            },
    {
        match self.validate_meta(event.meta()) {
            Ok(()) => {},
            Err(error) => return Err(error),
        }
        let meta = event.meta().clone();
        let outcome = match match &event {
            BookEvent::AddOrder(event) => self.apply_add(event),
            BookEvent::OrderCancel(event) => self.apply_cancel(event),
            BookEvent::Trade(event) => self.apply_trade(event),
        } {
            Ok(outcome) => outcome,
            Err(error) => return Err(error),
        };
        self.set_last_meta(meta);
        self.advance_revision();
        Ok(outcome)
    }

    #[must_use]
    pub fn is_empty(&self) -> (r: bool)
        requires
            self.wf(),
        ensures
            r == (self@.orders.len() == 0),
            r ==> self@.bids.queues.dom() =~= Set::<Price>::empty() && self@.asks.queues.dom()
                =~= Set::<Price>::empty(),
    {
        broadcast use vstd::std_specs::hash::group_hash_axioms;

        proof {
            lemma_sizes(
                self.active_by_key@,
                stored_orders(self.orders),
                self.seen_order_keys@,
                self.model@,
            );
            assert forall|side: Side, price: Price|
                self.model@.orders.len() == 0 implies !(#[trigger] self.model@.side(
                side,
            ).queues.contains_key(price)) by {
                if self.model@.side(side).queues.contains_key(price) {
                    lemma_queue_distinct(self.model@, side, price);
                    lemma_queued(self.model@, side, price, 0);
                    let key = self.model@.side(side).queues[price][0];
                    assert(self.model@.orders.dom().contains(key));
                }
            }
            assert(self.model@.side(Side::Buy) == self.model@.bids);
            assert(self.model@.side(Side::Sell) == self.model@.asks);
            assert forall|side: Side| self.model@.orders.len() == 0 implies (
            #[trigger] self.spec_side(side)).levels@.len() == 0 by {
                self.lemma_side_wf(side);
                if self.spec_side(side).levels@.len() > 0 {
                    let level = self.spec_side(side).levels@[0];
                    assert(self.model@.side(side).queues.contains_key(level.price));
                }
            }
            assert(self.spec_side(Side::Buy) == self.bids);
            assert(self.spec_side(Side::Sell) == self.asks);
        }
        self.bids.levels.len() == 0 && self.asks.levels.len() == 0 && self.active_by_key.len() == 0
    }

    /// Total quantity and total of price times quantity over the visible orders of a side.
    pub fn visible_aggregate(&self, side: Side) -> (r: (u64, u128))
        requires
            self.wf(),
        ensures
            r.0 == self@.side(side).total_quantity,
            r.1 == self@.side(side).weighted_price_quantity,
            r.1 <= i64::MAX * r.0,
    {
        proof {
            self.lemma_side_wf(side);
            let levels = self.spec_side(side).levels@;
            assert forall|i: int| 0 <= i < levels.len() implies 0 <= level_weighted()(
                #[trigger] levels[i],
            ) <= i64::MAX * level_quantity()(levels[i]) by {
                let price = levels[i].price.value as int;
                let total = levels[i].total_quantity as int;
                assert(0 <= price * total <= 0x7fff_ffff_ffff_ffff * total) by (nonlinear_arith)
                    requires
                        0 <= price <= 0x7fff_ffff_ffff_ffff,
                        total >= 0,
                ;
            }
            lemma_sum_scaled(levels, level_weighted(), level_quantity(), i64::MAX as int);
        }
        let aggregate = self.side_ref(side).aggregate;
        (aggregate.total_quantity, aggregate.weighted_price_quantity)
    }

    /// The place of the level of a rank in the ascending listing.
    spec fn place(side: Side, count: int, rank: int) -> int {
        match side {
            Side::Buy => count - 1 - rank,
            Side::Sell => rank,
        }
    }

    /// The stored levels are the visible depth.
    proof fn lemma_depth(&self, side: Side)
        requires
            self.wf(),
        ensures
            self@.is_depth(side, self@.depth_of(side)),
            self@.depth_of(side).len() == self.spec_side(side).levels@.len(),
            forall|rank: int|
                0 <= rank < self@.depth_of(side).len() ==> {
                    let levels = self.spec_side(side).levels@;
                    let level = levels[Self::place(side, levels.len() as int, rank)];
                    (#[trigger] self@.depth_of(side)[rank]) == LevelView {
                        side,
                        price: level.price,
                        total_quantity: level.total_quantity,
                        order_count: level.order_count,
                    }
                },
    {
        self.lemma_side_wf(side);
        let m = self.model@;
        let levels = self.spec_side(side).levels@;
        let count = levels.len() as int;
        let depth = Seq::new(
            levels.len(),
            |rank: int|
                {
                    let level = levels[Self::place(side, count, rank)];
                    LevelView {
                        side,
                        price: level.price,
                        total_quantity: level.total_quantity,
                        order_count: level.order_count,
                    }
                },
        );
        assert(m.is_depth(side, depth)) by {
            reveal(BookModel::is_depth);
            assert forall|i: int| 0 <= i < depth.len() implies m.side(side).queues.contains_key(
                (#[trigger] depth[i]).price,
            ) && depth[i] == m.level_view(side, depth[i].price) by {
                let level = levels[Self::place(side, count, i)];
                assert(level_ok(
                    self.active_by_key@,
                    m.orders,
                    level,
                    m.side(side).queues[level.price],
                ));
            }
            assert forall|i: int, j: int| 0 <= i < j < depth.len() implies at_least_as_good(
                side,
                (#[trigger] depth[i]).price,
                (#[trigger] depth[j]).price,
            ) && depth[i].price != depth[j].price by {
                let a = Self::place(side, count, i);
                let b = Self::place(side, count, j);
                assert(depth[i].price == levels[a].price);
                assert(depth[j].price == levels[b].price);
            }
            assert forall|price: Price| #[trigger] m.side(side).queues.contains_key(price) implies
                shows_price(depth, price) by {
                assert(has_price(levels, price));
                let k = choose|k: int| 0 <= k < levels.len() && (#[trigger] levels[k]).price
                    == price;
                let i = match side {
                    Side::Buy => count - 1 - k,
                    Side::Sell => k,
                };
                assert(Self::place(side, count, i) == k);
                assert(depth[i].price == price);
            }
        }
        depth_is_unique(m, side, depth, m.depth_of(side));
    }

    /// Every visible price is positive.
    pub proof fn visible_prices_are_positive(&self, side: Side)
        requires
            self.wf(),
        ensures
            forall|i: int|
                0 <= i < self@.depth_of(side).len() ==> (
                #[trigger] self@.depth_of(side)[i]).price.spec_units() > 0,
    {
        self.lemma_depth(side);
        self.lemma_side_wf(side);
        let levels = self.spec_side(side).levels@;
        assert forall|i: int| 0 <= i < self@.depth_of(side).len() implies (
        #[trigger] self@.depth_of(side)[i]).price.spec_units() > 0 by {
            let level = levels[Self::place(side, levels.len() as int, i)];
            assert(level_ok(
                self.active_by_key@,
                self.model@.orders,
                level,
                self.model@.side(side).queues[level.price],
            ));
        }
    }

    /// The totals of a side are the sums over its visible depth.
    proof fn lemma_depth_sums(&self, side: Side)
        requires
            self.wf(),
        ensures
            seq_sum(self@.depth_of(side), shown_quantity()) == self@.side(side).total_quantity,
            seq_sum(self@.depth_of(side), shown_weighted()) == self@.side(
                side,
            ).weighted_price_quantity,
    {
        self.lemma_depth(side);
        self.lemma_side_wf(side);
        let levels = self.spec_side(side).levels@;
        let listed = match side {
            Side::Buy => levels.reverse(),
            Side::Sell => levels,
        };
        lemma_sum_reverse(levels, level_quantity());
        lemma_sum_reverse(levels, level_weighted());
        assert forall|i: int| 0 <= i < listed.len() implies level_quantity()(#[trigger] listed[i])
            == shown_quantity()(self@.depth_of(side)[i]) && level_weighted()(listed[i])
            == shown_weighted()(self@.depth_of(side)[i]) by {
            assert(listed[i] == levels[Self::place(side, levels.len() as int, i)]);
        }
        lemma_sum_same(listed, level_quantity(), self@.depth_of(side), shown_quantity());
        lemma_sum_same(listed, level_weighted(), self@.depth_of(side), shown_weighted());
    }

    /// The level of a rank from the best price on, rank 0 being the best.
    #[must_use]
    pub fn level_at_rank(&self, side: Side, rank: usize) -> (r: Option<LevelView>)
        requires
            self.wf(),
        ensures
            r == if rank < self@.depth_of(side).len() {
                Some(self@.depth_of(side)[rank as int])
            } else {
                None
            },
    {
        proof {
            self.lemma_depth(side);
        }
        let levels = &self.side_ref(side).levels;
        let count: usize = levels.len();
        if rank >= count {
            return None;
        }
        let level = match side {
            Side::Buy => levels[count - 1 - rank],
            Side::Sell => levels[rank],
        };
        Some(
            LevelView {
                side,
                price: level.price,
                total_quantity: level.total_quantity,
                order_count: level.order_count,
            },
        )
    }

    /// The best levels of a side, no more than the given number.
    fn best_levels(&self, side: Side, limit: usize) -> (r: Vec<LevelView>)
        requires
            self.wf(),
        ensures
            r@ == self@.depth_of(side).take(
                if limit < self@.depth_of(side).len() {
                    limit as int
                } else {
                    self@.depth_of(side).len() as int
                },
            ),
    {
        let mut result: Vec<LevelView> = Vec::new();
        let count: usize = self.side_ref(side).levels.len();
        let wanted: usize = if limit < count {
            limit
        } else {
            count
        };
        proof {
            self.lemma_depth(side);
        }
        let mut rank: usize = 0;
        while rank < wanted
            invariant
                self.wf(),
                rank <= wanted <= self@.depth_of(side).len(),
                result@ == self@.depth_of(side).take(rank as int),
            decreases wanted - rank,
        {
            if let Some(level) = self.level_at_rank(side, rank) {
                result.push(level);
            }
            assert(self@.depth_of(side).take(rank + 1) =~= self@.depth_of(side).take(
                rank as int,
            ).push(self@.depth_of(side)[rank as int]));
            rank = rank + 1;
        }
        result
    }

    /// All levels of a side, best price first.
    #[must_use]
    pub fn levels(&self, side: Side) -> (r: Vec<LevelView>)
        requires
            self.wf(),
        ensures
            r@ == self@.depth_of(side),
            self@.is_depth(side, r@),
            seq_sum(r@, shown_quantity()) == self@.side(side).total_quantity,
            seq_sum(r@, shown_weighted()) == self@.side(side).weighted_price_quantity,
    {
        proof {
            self.lemma_depth(side);
            self.lemma_depth_sums(side);
        }
        let count: usize = self.side_ref(side).levels.len();
        let r = self.best_levels(side, count);
        assert(self@.depth_of(side).take(self@.depth_of(side).len() as int)
            =~= self@.depth_of(side));
        r
    }

    #[must_use]
    pub fn best_level(&self, side: Side) -> (r: Option<LevelView>)
        requires
            self.wf(),
        ensures
            r == match self@.best_price(side) {
                Some(price) => Some(self@.level_view(side, price)),
                None => None,
            },
    {
        proof {
            self.lemma_side_wf(side);
            lemma_best_listed(self.model@, side, self.spec_side(side).levels@);
            self.lemma_depth(side);
        }
        self.level_at_rank(side, 0)
    }

    /// The best levels of both sides, best price first.
    #[must_use]
    pub fn depth(&self, levels: usize) -> (r: DepthView)
        requires
            self.wf(),
        ensures
            r.bids@ == self@.depth_of(Side::Buy).take(
                if levels < self@.depth_of(Side::Buy).len() {
                    levels as int
                } else {
                    self@.depth_of(Side::Buy).len() as int
                },
            ),
            r.asks@ == self@.depth_of(Side::Sell).take(
                if levels < self@.depth_of(Side::Sell).len() {
                    levels as int
                } else {
                    self@.depth_of(Side::Sell).len() as int
                },
            ),
    {
        DepthView {
            bids: self.best_levels(Side::Buy, levels),
            asks: self.best_levels(Side::Sell, levels),
        }
    }

    /// The orders waiting at a price, first come first.
    #[must_use]
    pub fn orders_at(&self, side: Side, price: Price) -> (r: Vec<OrderView>)
        requires
            self.wf(),
        ensures
            r@ == self@.orders_at(side, price),
    {
        let mut result: Vec<OrderView> = Vec::new();
        let ghost m = self.model@;
        let ghost active = self.active_by_key@;
        let ghost stored = stored_orders(self.orders);
        proof {
            self.lemma_side_wf(side);
        }
        let levels = &self.side_ref(side).levels;
        let at: usize = match find_level(levels, price) {
            Ok(at) => at,
            Err(_) => {
                proof {
                    if m.side(side).queues.contains_key(price) {
                        assert(has_price(levels@, price));
                    }
                    assert(result@ =~= m.orders_at(side, price));
                }
                return result;
            },
        };
        let ghost queue = m.side(side).queues[price];
        proof {
            assert(level_ok(active, m.orders, levels@[at as int], queue));
            lemma_queue_distinct(m, side, price);
        }
        let mut current: Option<OrderHandle> = levels[at].head;
        let count: usize = levels[at].order_count;
        let mut visited: usize = 0;
        while visited < count
            invariant
                self.wf(),
                m == self.model@,
                active == self.active_by_key@,
                stored == stored_orders(self.orders),
                m.side(side).queues.contains_key(price),
                queue == m.side(side).queues[price],
                count == queue.len(),
                visited <= count,
                current == if visited < count {
                    Some(handle_of(active, queue[visited as int]))
                } else {
                    None
                },
                result@ =~= m.orders_at(side, price).take(visited as int),
            decreases count - visited,
        {
            proof {
                self.lemma_side_wf(side);
                lemma_queued(m, side, price, visited as int);
                assert(link_ok(active, stored, queue, visited as int));
                assert(m.orders_at(side, price).take(visited + 1) =~= m.orders_at(
                    side,
                    price,
                ).take(visited as int).push(m.orders_at(side, price)[visited as int]));
            }
            if let Some(handle) = current {
                proof {
                    use_type_invariant(&handle);
                }
                if let Some(state) = storage_get(&self.orders, handle) {
                    result.push(Self::order_view(state));
                    current = state.next;
                }
            }
            visited = visited + 1;
        }
        assert(m.orders_at(side, price).take(count as int) =~= m.orders_at(side, price));
        result
    }

    fn order_view(state: &OrderState) -> (r: OrderView)
        ensures
            r == (OrderView {
                key: state.key,
                effective_price: state.effective_price,
                original_quantity: state.original_quantity,
                remaining_quantity: state.remaining_quantity,
                location: state.location,
            }),
    {
        OrderView {
            key: state.key,
            effective_price: state.effective_price,
            original_quantity: state.original_quantity,
            remaining_quantity: state.remaining_quantity,
            location: state.location,
        }
    }

    /// An active order.
    #[must_use]
    pub fn order(&self, key: &OrderKey) -> (r: Option<OrderView>)
        requires
            self.wf(),
        ensures
            r == if self@.orders.contains_key(*key) {
                Some(self@.order_view(*key))
            } else {
                None
            },
    {
        match self.lookup(key) {
            Some((_, state)) => Some(Self::order_view(&state)),
            None => None,
        }
    }

    #[must_use]
    pub fn statistics(&self) -> (r: TradeStatisticsView)
        requires
            self.wf(),
        ensures
            r == self@.statistics,
    {
        self.statistics
    }

    #[must_use]
    pub fn summary(&self) -> (r: BookSummary)
        requires
            self.wf(),
        ensures
            r.book_key == self.spec_config().book_key,
            match self@.last_meta {
                Some(meta) => {
                    &&& r.last_raw_sequence == Some(meta.raw_sequence)
                    &&& r.last_apply_sequence == Some(meta.apply_sequence)
                    &&& r.last_local_time == Some(meta.local_time)
                    &&& r.last_quote_time == Some(meta.quote_time)
                },
                None => {
                    &&& r.last_raw_sequence is None
                    &&& r.last_apply_sequence is None
                    &&& r.last_local_time is None
                    &&& r.last_quote_time is None
                },
            },
            r.best_bid == match self@.best_price(Side::Buy) {
                Some(price) => Some(self@.level_view(Side::Buy, price)),
                None => None,
            },
            r.best_ask == match self@.best_price(Side::Sell) {
                Some(price) => Some(self@.level_view(Side::Sell, price)),
                None => None,
            },
            r.active_order_count == self@.orders.len(),
            r.statistics == self@.statistics,
    {
        broadcast use vstd::std_specs::hash::group_hash_axioms;

        proof {
            lemma_sizes(
                self.active_by_key@,
                stored_orders(self.orders),
                self.seen_order_keys@,
                self.model@,
            );
        }
        let best_bid = self.best_level(Side::Buy);
        let best_ask = self.best_level(Side::Sell);
        let (last_raw_sequence, last_apply_sequence, last_local_time, last_quote_time) =
            match &self.last_applied_meta {
            Some(meta) => (
                Some(meta.raw_sequence),
                Some(meta.apply_sequence),
                Some(meta.local_time),
                Some(meta.quote_time),
            ),
            None => (None, None, None, None),
        };
        BookSummary {
            book_key: self.config.book_key.clone(),
            last_raw_sequence,
            last_apply_sequence,
            last_local_time,
            last_quote_time,
            best_bid,
            best_ask,
            active_order_count: self.active_by_key.len(),
            statistics: self.statistics,
        }
    }
}

/// A book in order has a model in order, and what it shows is what it holds: each level has
/// orders, its total is the sum of what is left of them, is positive and fits its type, and the
/// totals of a side are the sums over its levels. Every order has something left, no more than
/// it came with, and a hidden order is in no level.
pub proof fn books_show_what_they_hold(book: OrderBook, side: Side)
    requires
        book.wf(),
    ensures
        book@.wf(),
        book@.is_depth(side, book@.depth_of(side)),
        seq_sum(book@.depth_of(side), shown_quantity()) == book@.side(side).total_quantity,
        seq_sum(book@.depth_of(side), shown_weighted()) == book@.side(
            side,
        ).weighted_price_quantity,
        book@.best_price(side) == if book@.depth_of(side).len() == 0 {
            None
        } else {
            Some(book@.depth_of(side)[0].price)
        },
        forall|price: Price| #[trigger]
            book@.side(side).queues.contains_key(price) ==> {
                &&& 0 < book@.level_total(side, price) <= u64::MAX
                &&& 0 < book@.side(side).queues[price].len() <= usize::MAX
            },
        forall|i: int|
            0 <= i < book@.depth_of(side).len() ==> {
                let level = #[trigger] book@.depth_of(side)[i];
                let orders = book@.orders_at(side, level.price);
                &&& 0 < level.total_quantity == seq_sum(orders, shown_remaining())
                &&& 0 < level.order_count == orders.len()
            },
        forall|key: OrderKey| #[trigger]
            book@.orders.contains_key(key) ==> 0 < book@.orders[key].remaining_quantity
                <= book@.orders[key].original_quantity.spec_get(),
        forall|price: Price, i: int|
            book@.side(side).queues.contains_key(price) && 0 <= i < book@.side(
                side,
            ).queues[price].len() ==> {
                let key = #[trigger] book@.side(side).queues[price][i];
                book@.orders.contains_key(key) && book@.orders[key].location
                    == OrderLocation::Resting
            },
{
    assert forall|key: OrderKey| #[trigger] book@.orders.contains_key(key) implies 0
        < book@.orders[key].remaining_quantity
        <= book@.orders[key].original_quantity.spec_get() by {
        reveal(BookModel::wf);
    }
    assert forall|price: Price, i: int|
        book@.side(side).queues.contains_key(price) && 0 <= i < book@.side(
            side,
        ).queues[price].len() implies {
        let key = #[trigger] book@.side(side).queues[price][i];
        book@.orders.contains_key(key) && book@.orders[key].location == OrderLocation::Resting
    } by {
        reveal(BookModel::wf);
        assert(book@.side_wf(side));
        assert(book@.queued_order_wf(side, price, book@.side(side).queues[price][i]));
    }
    book.lemma_side_wf(side);
    book.lemma_depth(side);
    book.lemma_depth_sums(side);
    let m = book@;
    let levels = book.spec_side(side).levels@;
    let depth = m.depth_of(side);
    lemma_best_listed(m, side, levels);
    assert forall|price: Price| #[trigger] m.side(side).queues.contains_key(price) implies 0
        < m.level_total(side, price) <= u64::MAX && 0 < m.side(side).queues[price].len()
        <= usize::MAX by {
        assert(has_price(levels, price));
        let j = choose|j: int| 0 <= j < levels.len() && (#[trigger] levels[j]).price == price;
        let queue = m.side(side).queues[price];
        assert(level_ok(book.active_by_key@, m.orders, levels[j], queue));
        assert forall|i: int| 0 <= i < queue.len() implies remaining_of(m.orders)(
            #[trigger] queue[i],
        ) > 0 by {
            reveal(BookModel::wf);
            assert(m.side_wf(side));
            assert(m.queued_order_wf(side, price, queue[i]));
        }
        lemma_sum_bounds(queue, remaining_of(m.orders));
        assert(remaining_of(m.orders)(queue[0]) <= seq_sum(queue, remaining_of(m.orders)));
    }
    assert forall|i: int| 0 <= i < depth.len() implies {
        let level = #[trigger] depth[i];
        let orders = m.orders_at(side, level.price);
        &&& 0 < level.total_quantity == seq_sum(orders, shown_remaining())
        &&& 0 < level.order_count == orders.len()
    } by {
        let price = depth[i].price;
        assert(m.side(side).queues.contains_key(price) && depth[i] == m.level_view(side, price)) by {
            reveal(BookModel::is_depth);
        }
        let queue = m.side(side).queues[price];
        let orders = m.orders_at(side, price);
        lemma_sum_same(queue, remaining_of(m.orders), orders, shown_remaining());
    }
}

} // verus!
