//! The self-check of a book.

use std::collections::HashSet;

use vstd::prelude::*;
use vstd::std_specs::iter::IteratorSpec;

use crate::market_data::{OrderKey, Price, Side};
use crate::order_book::error::BookError;
use crate::order_book::model::{remaining_of, BookModel};
use crate::order_book::relation::{
    handle_of, key_code, key_of_code, lemma_handles_differ, lemma_queue_distinct,
    lemma_queue_index, lemma_queued, lemma_sizes, level_ok, level_quantity, level_weighted,
    link_ok, pack_key, queue_index, represents, StoredOrders,
};
use crate::order_book::state::{
    storage_get, storage_handles, storage_len, stored_orders, OrderHandle, OrderLocation,
    OrderState, PriceLevelState,
};
use crate::sums::{lemma_sum_prefix, lemma_sum_push, lemma_sum_take, seq_sum};

use super::{price_quantity, OrderBook};

verus! {

impl OrderBook {
    /// Whether handles are the linked list of a level, from its head to its tail, of
    /// visible orders of its side and price, with the level's totals.
    spec fn chain_ok(
        stored: StoredOrders,
        side: Side,
        level: PriceLevelState,
        chain: Seq<OrderHandle>,
    ) -> bool {
        &&& chain.len() > 0
        &&& level.order_count == chain.len()
        &&& level.head == Some(chain[0])
        &&& level.tail == Some(chain[chain.len() - 1])
        &&& level.total_quantity == seq_sum(chain, stored_remaining(stored))
        &&& forall|i: int| 0 <= i < chain.len() ==> #[trigger] chain_link_ok(
            stored,
            side,
            level.price,
            chain,
            i,
        )
    }

    /// Every index entry leads to a stored order of its key that was seen and has
    /// quantity left, no more than it came with.
    spec fn index_consistent(self) -> bool {
        &&& self.active_by_key@.len() == stored_orders(self.orders).len()
        &&& forall|code: u128| #[trigger]
            self.active_by_key@.contains_key(code) ==> self.index_entry_ok(code)
    }

    spec fn index_entry_ok(self, code: u128) -> bool {
        let stored = stored_orders(self.orders);
        let state = stored[self.active_by_key@[code].raw];
        &&& stored.contains_key(self.active_by_key@[code].raw)
        &&& key_code(state.key) == code
        &&& self.seen_order_keys@.contains(code)
        &&& 0 < state.remaining_quantity <= state.original_quantity.spec_get()
    }

    spec fn side_consistent(self, side: Side, chains: Seq<Seq<OrderHandle>>) -> bool {
        let levels = self.spec_side(side).levels@;
        &&& chains.len() == levels.len()
        &&& forall|i: int| 0 <= i < levels.len() ==> Self::chain_ok(
            stored_orders(self.orders),
            side,
            #[trigger] levels[i],
            chains[i],
        )
        &&& self.spec_side(side).aggregate.total_quantity == seq_sum(levels, level_quantity())
        &&& self.spec_side(side).aggregate.weighted_price_quantity == seq_sum(
            levels,
            level_weighted(),
        )
    }

    /// Every visible order is in a list of a level, and no hidden order is linked.
    spec fn places_consistent(
        self,
        bids: Seq<Seq<OrderHandle>>,
        asks: Seq<Seq<OrderHandle>>,
    ) -> bool {
        forall|raw: u64| #[trigger]
            stored_orders(self.orders).contains_key(raw) ==> {
                let state = stored_orders(self.orders)[raw];
                match state.location {
                    OrderLocation::Resting => in_chains(bids, raw) || in_chains(asks, raw),
                    OrderLocation::Aggressive => {
                        &&& !in_chains(bids, raw)
                        &&& !in_chains(asks, raw)
                        &&& state.previous is None
                        &&& state.next is None
                    },
                }
            }
    }

    /// Index, storage, level lists and totals agree with one another.
    pub closed spec fn consistent(self) -> bool {
        &&& self.index_consistent()
        &&& exists|bids: Seq<Seq<OrderHandle>>, asks: Seq<Seq<OrderHandle>>|
            {
                &&& #[trigger] self.side_consistent(Side::Buy, bids)
                &&& #[trigger] self.side_consistent(Side::Sell, asks)
                &&& self.places_consistent(bids, asks)
            }
    }

    /// Whether an error names what is wrong with an index entry.
    spec fn entry_fault(self, code: u128, error: BookError) -> bool {
        let stored = stored_orders(self.orders);
        let state = stored[self.active_by_key@[code].raw];
        &&& self.active_by_key@.contains_key(code)
        &&& {
            ||| error == BookError::InvariantViolation("active handle is missing")
                && !stored.contains_key(self.active_by_key@[code].raw)
            ||| error == BookError::InvariantViolation("active key mismatch") && (key_code(state.key)
                != code || !self.seen_order_keys@.contains(code))
            ||| error == BookError::InvariantViolation("invalid remaining quantity") && !(0
                < state.remaining_quantity <= state.original_quantity.spec_get())
        }
    }

    spec fn index_fault(self, error: BookError) -> bool {
        ||| error == BookError::InvariantViolation("active index and storage length differ")
            && self.active_by_key@.len() != stored_orders(self.orders).len()
        ||| exists|code: u128| #[trigger] self.entry_fault(code, error)
    }

    /// Whether handles were walked from the head of a level without a fault.
    spec fn walked(self, side: Side, level: PriceLevelState, chain: Seq<OrderHandle>) -> bool {
        &&& chain.len() > 0 ==> level.head == Some(chain[0])
        &&& forall|i: int|
            0 <= i < chain.len() ==> #[trigger] chain_step_ok(
                stored_orders(self.orders),
                side,
                level.price,
                chain,
                i,
            )
    }

    /// Whether an error names what is wrong behind the handles that were walked: with the
    /// next handle, or at the end of the list with the totals of the level. Earlier levels
    /// have orders of their own.
    spec fn walk_fault(
        self,
        side: Side,
        level: PriceLevelState,
        earlier: Set<u64>,
        chain: Seq<OrderHandle>,
        error: BookError,
    ) -> bool {
        let stored = stored_orders(self.orders);
        let total = seq_sum(chain, stored_remaining(stored));
        let last = if chain.len() == 0 {
            None
        } else {
            Some(chain[chain.len() - 1])
        };
        let current = if chain.len() == 0 {
            level.head
        } else {
            stored[chain[chain.len() - 1].raw].next
        };
        &&& self.walked(side, level, chain)
        &&& match current {
            Some(handle) => {
                let state = stored[handle.raw];
                ||| error == BookError::InvariantViolation("order appears twice in levels") && (
                earlier.contains(handle.raw) || in_chain(chain, handle.raw))
                ||| error == BookError::InvariantViolation("level order is missing")
                    && !stored.contains_key(handle.raw)
                ||| error == BookError::InvariantViolation("invalid FIFO state")
                    && stored.contains_key(handle.raw) && !(state.key.side == side
                    && state.effective_price == Some(level.price) && state.location
                    == OrderLocation::Resting && state.previous == last)
                ||| error == BookError::ArithmeticOverflow("invariant total") && total
                    + state.remaining_quantity > u64::MAX
                ||| error == BookError::InvariantViolation("FIFO cycle") && chain.len()
                    >= stored.len()
            },
            None => error == BookError::InvariantViolation("level aggregate mismatch") && !(total
                == level.total_quantity && chain.len() == level.order_count && last == level.tail),
        }
    }

    spec fn level_fault(
        self,
        side: Side,
        level: PriceLevelState,
        earlier: Set<u64>,
        error: BookError,
    ) -> bool {
        ||| error == BookError::InvariantViolation("empty visible level") && (level.order_count == 0
            || level.head is None || level.tail is None)
        ||| exists|chain: Seq<OrderHandle>| #[trigger]
            self.walk_fault(side, level, earlier, chain, error)
    }

    /// Whether an error names what is wrong with a side behind the levels whose lists were
    /// walked: with the next level, or with the totals.
    spec fn levels_fault(
        self,
        side: Side,
        earlier: Set<u64>,
        chains: Seq<Seq<OrderHandle>>,
        error: BookError,
    ) -> bool {
        let levels = self.spec_side(side).levels@;
        let at = chains.len() as int;
        let total = seq_sum(levels.take(at), level_quantity());
        let weighted = seq_sum(levels.take(at), level_weighted());
        let aggregate = self.spec_side(side).aggregate;
        &&& at <= levels.len()
        &&& forall|i: int| 0 <= i < at ==> Self::chain_ok(
            stored_orders(self.orders),
            side,
            #[trigger] levels[i],
            chains[i],
        )
        &&& {
            ||| at < levels.len() && self.level_fault(
                side,
                levels[at],
                earlier.union(linked(chains)),
                error,
            )
            ||| error == BookError::ArithmeticOverflow("invariant side total") && total > u64::MAX
            ||| error == BookError::ArithmeticOverflow("invariant side weighted") && weighted
                > u128::MAX
            ||| error == BookError::InvariantViolation("side aggregate mismatch") && at
                == levels.len() && !(aggregate.total_quantity == total
                && aggregate.weighted_price_quantity == weighted)
        }
    }

    spec fn side_fault(self, side: Side, earlier: Set<u64>, error: BookError) -> bool {
        exists|chains: Seq<Seq<OrderHandle>>| #[trigger]
            self.levels_fault(side, earlier, chains, error)
    }

    /// Whether an error names what is wrong with the place of a stored order.
    spec fn place_fault(self, linked: Set<u64>, raw: u64, error: BookError) -> bool {
        let state = stored_orders(self.orders)[raw];
        &&& stored_orders(self.orders).contains_key(raw)
        &&& match state.location {
            OrderLocation::Resting => error == BookError::InvariantViolation(
                "resting order is absent from levels",
            ) && !linked.contains(raw),
            OrderLocation::Aggressive => error == BookError::InvariantViolation(
                "aggressive order is linked to a level",
            ) && (linked.contains(raw) || state.previous is Some || state.next is Some),
        }
    }

    /// Whether an error names a check that the book fails: of the index; of the bids once the
    /// index is in order; of the asks once the bids are; and of the places of stored orders
    /// once all levels are.
    pub closed spec fn fails(self, error: BookError) -> bool {
        ||| self.index_fault(error)
        ||| self.index_consistent() && self.side_fault(Side::Buy, Set::empty(), error)
        ||| self.index_consistent() && exists|bids: Seq<Seq<OrderHandle>>|
            {
                &&& #[trigger] self.side_consistent(Side::Buy, bids)
                &&& self.side_fault(Side::Sell, linked(bids), error)
            }
        ||| self.index_consistent() && exists|
            bids: Seq<Seq<OrderHandle>>,
            asks: Seq<Seq<OrderHandle>>,
            raw: u64,
        |
            {
                &&& #[trigger] self.side_consistent(Side::Buy, bids)
                &&& #[trigger] self.side_consistent(Side::Sell, asks)
                &&& #[trigger] self.place_fault(linked(bids).union(linked(asks)), raw, error)
            }
    }

    fn check_index(&self) -> (r: Result<(), BookError>)
        ensures
            r is Ok ==> self.index_consistent(),
            r matches Err(error) ==> self.index_fault(error),
            self.wf() ==> r is Ok,
    {
        broadcast use vstd::std_specs::hash::group_hash_axioms;

        proof {
            if self.wf() {
                lemma_sizes(
                    self.active_by_key@,
                    stored_orders(self.orders),
                    self.seen_order_keys@,
                    self.model@,
                );
            }
        }
        if self.active_by_key.len() != storage_len(&self.orders) {
            return Err(BookError::InvariantViolation("active index and storage length differ"));
        }
        for code in it: self.active_by_key.keys()
            invariant
                self.active_by_key@.len() == stored_orders(self.orders).len(),
                it.seq() == vstd::std_specs::hash::spec_keys_iter(&self.active_by_key).remaining(),
                forall|i: int| 0 <= i < it.index() ==> self.index_entry_ok(*(#[trigger] it.seq()[i])),
        {
            broadcast use vstd::std_specs::hash::group_hash_axioms;

            let ghost all = it.seq();
            proof {
                assert(all.unref().to_set() == self.active_by_key@.dom());
                assert(all[it.index()] == code);
                assert(all.unref()[it.index()] == *code);
                assert(all.unref().to_set().contains(*code));
            }
            let handle = match self.active_by_key.get(code) {
                Some(handle) => *handle,
                None => return Err(BookError::InvariantViolation("active handle is missing")),
            };
            proof {
                use_type_invariant(&handle);
                if self.wf() {
                    reveal(BookModel::wf);
                    let key = key_of_code(*code);
                    assert(self.model@.orders.contains_key(key));
                    assert(self.model@.seen.contains(key));
                }
            }
            let state = match storage_get(&self.orders, handle) {
                Some(state) => state,
                None => {
                    assert(self.entry_fault(
                        *code,
                        BookError::InvariantViolation("active handle is missing"),
                    ));
                    return Err(BookError::InvariantViolation("active handle is missing"));
                },
            };
            if pack_key(state.key) != *code || !self.seen_order_keys.contains(code) {
                assert(self.entry_fault(
                    *code,
                    BookError::InvariantViolation("active key mismatch"),
                ));
                return Err(BookError::InvariantViolation("active key mismatch"));
            }
            if state.remaining_quantity == 0 || state.remaining_quantity
                > state.original_quantity.get() {
                assert(self.entry_fault(
                    *code,
                    BookError::InvariantViolation("invalid remaining quantity"),
                ));
                return Err(BookError::InvariantViolation("invalid remaining quantity"));
            }
        }
        proof {
            let all = vstd::std_specs::hash::spec_keys_iter(&self.active_by_key).remaining();
            assert forall|code: u128| #[trigger]
                self.active_by_key@.contains_key(code) implies self.index_entry_ok(code) by {
                assert(all.unref().to_set().contains(code));
                let i = choose|i: int| 0 <= i < all.unref().len() && all.unref()[i] == code;
                assert(*all[i] == code);
            }
        }
        Ok(())
    }

    /// Whether the price of a stored visible order was passed when the walk over the
    /// levels, bids before asks, stands at a place.
    spec fn passed(self, state: OrderState, side: Side, at: int) -> bool {
        &&& state.location == OrderLocation::Resting
        &&& state.effective_price is Some
        &&& ((side == Side::Sell && state.key.side == Side::Buy) || (state.key.side == side
            && listed_before(self.spec_side(side).levels@, at, state.effective_price->0)))
    }

    spec fn visited_upto(self, visited: Set<u64>, side: Side, at: int) -> bool {
        forall|raw: u64| #[trigger]
            visited.contains(raw) <==> stored_orders(self.orders).contains_key(raw) && self.passed(
                stored_orders(self.orders)[raw],
                side,
                at,
            )
    }

    /// In an orderly book the next order of a queue was not visited yet.
    proof fn lemma_next_unvisited(
        &self,
        visited: Set<u64>,
        side: Side,
        at: int,
        chain: Seq<OrderHandle>,
    )
        requires
            self.wf(),
            self.visited_upto(visited, side, at),
            0 <= at < self.spec_side(side).levels@.len(),
            ({
                let queue = self@.side(side).queues[self.spec_side(side).levels@[at].price];
                &&& chain.len() < queue.len()
                &&& forall|i: int|
                    0 <= i < chain.len() ==> #[trigger] chain[i] == handle_of(
                        self.active_by_key@,
                        queue[i],
                    )
            }),
        ensures
            ({
                let queue = self@.side(side).queues[self.spec_side(side).levels@[at].price];
                let handle = handle_of(self.active_by_key@, queue[chain.len() as int]);
                &&& !visited.contains(handle.raw)
                &&& !in_chain(chain, handle.raw)
                &&& stored_orders(self.orders).contains_key(handle.raw)
                &&& represents(
                    stored_orders(self.orders)[handle.raw],
                    queue[chain.len() as int],
                    self@.orders[queue[chain.len() as int]],
                )
                &&& self@.queued_order_wf(
                    side,
                    self.spec_side(side).levels@[at].price,
                    queue[chain.len() as int],
                )
                &&& chain.len() < stored_orders(self.orders).len()
            }),
    {
        let m = self@;
        let active = self.active_by_key@;
        let stored = stored_orders(self.orders);
        let seen = self.seen_order_keys@;
        self.lemma_side_wf(side);
        let levels = self.spec_side(side).levels@;
        let price = levels[at].price;
        let queue = m.side(side).queues[price];
        let n = chain.len() as int;
        let key = queue[n];
        let handle = handle_of(active, key);
        lemma_queued(m, side, price, n);
        lemma_queue_distinct(m, side, price);
        if visited.contains(handle.raw) {
            assert(listed_before(levels, at, price));
            let j = choose|j: int| 0 <= j < at && (#[trigger] levels[j]).price == price;
            assert(levels[j].price.value < levels[at].price.value);
        }
        if in_chain(chain, handle.raw) {
            let i = choose|i: int| 0 <= i < chain.len() && (#[trigger] chain[i]).raw == handle.raw;
            lemma_queued(m, side, price, i);
            lemma_handles_differ(active, stored, seen, m, queue[i], key);
        }
        lemma_sizes(active, stored, seen, m);
        assert(queue.to_set().subset_of(m.orders.dom())) by {
            assert forall|k: OrderKey| queue.to_set().contains(k) implies m.orders.dom().contains(
                k,
            ) by {
                let i = choose|i: int| 0 <= i < queue.len() && queue[i] == k;
                lemma_queued(m, side, price, i);
            }
        }
        queue.unique_seq_to_set();
        vstd::set_lib::lemma_len_subset(queue.to_set(), m.orders.dom());
    }

    /// Walks the list of one level.
    fn check_level(&self, side: Side, at: usize, visited: &mut HashSet<u64>) -> (r: Result<
        Ghost<Seq<OrderHandle>>,
        BookError,
    >)
        requires
            at < self.spec_side(side).levels@.len(),
        ensures
            r matches Ok(chain) ==> {
                &&& Self::chain_ok(
                    stored_orders(self.orders),
                    side,
                    self.spec_side(side).levels@[at as int],
                    chain@,
                )
                &&& forall|raw: u64| #[trigger]
                    final(visited)@.contains(raw) <==> old(visited)@.contains(raw) || in_chain(
                        chain@,
                        raw,
                    )
            },
            r matches Err(error) ==> self.level_fault(
                side,
                self.spec_side(side).levels@[at as int],
                old(visited)@,
                error,
            ),
            self.wf() && self.visited_upto(old(visited)@, side, at as int) ==> r is Ok
                && self.visited_upto(final(visited)@, side, at + 1),
    {
        broadcast use vstd::std_specs::hash::group_hash_axioms;

        let level = self.side_ref(side).levels[at];
        let ghost m = self@;
        let ghost active = self.active_by_key@;
        let ghost stored = stored_orders(self.orders);
        let ghost before = visited@;
        let ghost orderly = self.wf() && self.visited_upto(before, side, at as int);
        let ghost queue = m.side(side).queues[level.price];
        proof {
            if orderly {
                self.lemma_side_wf(side);
                assert(level_ok(active, m.orders, level, queue));
            }
        }
        if level.order_count == 0 || level.head.is_none() || level.tail.is_none() {
            return Err(BookError::InvariantViolation("empty visible level"));
        }
        let stored_count: usize = storage_len(&self.orders);
        let mut total: u64 = 0;
        let mut count: usize = 0;
        let mut previous: Option<OrderHandle> = None;
        let mut current: Option<OrderHandle> = level.head;
        let ghost mut chain: Seq<OrderHandle> = Seq::empty();
        while current.is_some()
            invariant
                at < self.spec_side(side).levels@.len(),
                level == self.spec_side(side).levels@[at as int],
                level.head is Some,
                m == self@,
                active == self.active_by_key@,
                stored == stored_orders(self.orders),
                stored_count == stored.len(),
                queue == m.side(side).queues[level.price],
                before == old(visited)@,
                orderly == (self.wf() && self.visited_upto(before, side, at as int)),
                count == chain.len(),
                count <= stored_count,
                total == seq_sum(chain, stored_remaining(stored)),
                previous == if count == 0 {
                    None
                } else {
                    Some(chain[count - 1])
                },
                current == if count == 0 {
                    level.head
                } else {
                    stored[chain[count - 1].raw].next
                },
                count > 0 ==> level.head == Some(chain[0]),
                forall|i: int| 0 <= i < count ==> #[trigger] chain_step_ok(
                    stored,
                    side,
                    level.price,
                    chain,
                    i,
                ),
                forall|raw: u64| #[trigger]
                    visited@.contains(raw) <==> before.contains(raw) || in_chain(chain, raw),
                orderly ==> {
                    &&& m.side(side).queues.contains_key(level.price)
                    &&& level_ok(active, m.orders, level, queue)
                    &&& count <= queue.len()
                    &&& current == if count < queue.len() {
                        Some(handle_of(active, queue[count as int]))
                    } else {
                        None
                    }
                    &&& forall|i: int|
                        0 <= i < count ==> #[trigger] chain[i] == handle_of(active, queue[i])
                },
            decreases stored_count - count,
        {
            broadcast use vstd::std_specs::hash::group_hash_axioms;

            let handle = match current {
                Some(handle) => handle,
                None => return Err(BookError::InvariantViolation("level order is missing")),
            };
            proof {
                use_type_invariant(&handle);
                if orderly {
                    self.lemma_next_unvisited(before, side, at as int, chain);
                    self.lemma_side_wf(side);
                    assert(link_ok(active, stored, queue, count as int));
                }
            }
            assert(self.walked(side, level, chain));
            if !visited.insert(handle.raw) {
                assert(self.walk_fault(
                    side,
                    level,
                    before,
                    chain,
                    BookError::InvariantViolation("order appears twice in levels"),
                ));
                return Err(BookError::InvariantViolation("order appears twice in levels"));
            }
            let state = match storage_get(&self.orders, handle) {
                Some(state) => state,
                None => {
                    assert(self.walk_fault(
                        side,
                        level,
                        before,
                        chain,
                        BookError::InvariantViolation("level order is missing"),
                    ));
                    return Err(BookError::InvariantViolation("level order is missing"));
                },
            };
            if state.key.side != side || state.effective_price != Some(level.price)
                || state.location != OrderLocation::Resting || state.previous != previous {
                assert(self.walk_fault(
                    side,
                    level,
                    before,
                    chain,
                    BookError::InvariantViolation("invalid FIFO state"),
                ));
                return Err(BookError::InvariantViolation("invalid FIFO state"));
            }
            proof {
                lemma_sum_push(chain, handle, stored_remaining(stored));
                if orderly {
                    self.lemma_chain_total(side, at as int, chain.push(handle));
                }
            }
            total = match total.checked_add(state.remaining_quantity) {
                Some(total) => total,
                None => {
                    assert(self.walk_fault(
                        side,
                        level,
                        before,
                        chain,
                        BookError::ArithmeticOverflow("invariant total"),
                    ));
                    return Err(BookError::ArithmeticOverflow("invariant total"));
                },
            };
            if count >= stored_count {
                assert(self.walk_fault(
                    side,
                    level,
                    before,
                    chain,
                    BookError::InvariantViolation("FIFO cycle"),
                ));
                return Err(BookError::InvariantViolation("FIFO cycle"));
            }
            proof {
                let longer = chain.push(handle);
                assert forall|i: int| 0 <= i < longer.len() implies #[trigger] chain_step_ok(
                    stored,
                    side,
                    level.price,
                    longer,
                    i,
                ) by {
                    if i < count {
                        assert(chain_step_ok(stored, side, level.price, chain, i));
                    }
                }
                assert forall|raw: u64| in_chain(longer, raw) <==> in_chain(chain, raw) || raw
                    == handle.raw by {
                    if in_chain(chain, raw) {
                        let i = choose|i: int|
                            0 <= i < chain.len() && (#[trigger] chain[i]).raw == raw;
                        assert(longer[i].raw == raw);
                    }
                    if raw == handle.raw {
                        assert(longer[count as int].raw == raw);
                    }
                    if in_chain(longer, raw) && raw != handle.raw {
                        let i = choose|i: int|
                            0 <= i < longer.len() && (#[trigger] longer[i]).raw == raw;
                        assert(chain[i].raw == raw);
                    }
                }
                chain = longer;
            }
            count = count + 1;
            previous = Some(handle);
            current = state.next;
        }
        proof {
            if orderly {
                self.lemma_chain_total(side, at as int, chain);
            }
        }
        if total != level.total_quantity || count != level.order_count || previous != level.tail {
            assert(self.walked(side, level, chain));
            assert(self.walk_fault(
                side,
                level,
                before,
                chain,
                BookError::InvariantViolation("level aggregate mismatch"),
            ));
            return Err(BookError::InvariantViolation("level aggregate mismatch"));
        }
        proof {
            assert forall|i: int| 0 <= i < chain.len() implies #[trigger] chain_link_ok(
                stored,
                side,
                level.price,
                chain,
                i,
            ) by {
                assert(chain_step_ok(stored, side, level.price, chain, i));
                if i + 1 < chain.len() {
                    assert(chain_step_ok(stored, side, level.price, chain, i + 1));
                }
            }
            if orderly {
                self.lemma_level_visited(before, visited@, side, at as int, chain);
            }
        }
        Ok(Ghost(chain))
    }

    /// In an orderly book the quantities along a list add up to no more than its level's.
    proof fn lemma_chain_total(&self, side: Side, at: int, chain: Seq<OrderHandle>)
        requires
            self.wf(),
            0 <= at < self.spec_side(side).levels@.len(),
            ({
                let queue = self@.side(side).queues[self.spec_side(side).levels@[at].price];
                &&& chain.len() <= queue.len()
                &&& forall|i: int|
                    0 <= i < chain.len() ==> #[trigger] chain[i] == handle_of(
                        self.active_by_key@,
                        queue[i],
                    )
            }),
        ensures
            seq_sum(chain, stored_remaining(stored_orders(self.orders)))
                <= self.spec_side(side).levels@[at].total_quantity,
            chain.len() == self@.side(side).queues[self.spec_side(side).levels@[at].price].len()
                ==> seq_sum(chain, stored_remaining(stored_orders(self.orders)))
                == self.spec_side(side).levels@[at].total_quantity,
        decreases chain.len(),
    {
        let m = self@;
        let active = self.active_by_key@;
        let stored = stored_orders(self.orders);
        self.lemma_side_wf(side);
        let level = self.spec_side(side).levels@[at];
        let queue = m.side(side).queues[level.price];
        assert(level_ok(active, m.orders, level, queue));
        let f = stored_remaining(stored);
        let g = remaining_of(m.orders);
        self.lemma_chain_sum(side, level.price, chain);
        lemma_sum_prefix(queue, chain.len() as int, g);
        assert(queue.take(queue.len() as int) =~= queue);
    }

    proof fn lemma_chain_sum(&self, side: Side, price: Price, chain: Seq<OrderHandle>)
        requires
            self.wf(),
            self@.side(side).queues.contains_key(price),
            chain.len() <= self@.side(side).queues[price].len(),
            forall|i: int|
                0 <= i < chain.len() ==> #[trigger] chain[i] == handle_of(
                    self.active_by_key@,
                    self@.side(side).queues[price][i],
                ),
        ensures
            seq_sum(chain, stored_remaining(stored_orders(self.orders))) == seq_sum(
                self@.side(side).queues[price].take(chain.len() as int),
                remaining_of(self@.orders),
            ),
        decreases chain.len(),
    {
        let queue = self@.side(side).queues[price];
        if chain.len() > 0 {
            let n = chain.len() - 1;
            let shorter = chain.drop_last();
            assert forall|i: int| 0 <= i < shorter.len() implies #[trigger] shorter[i]
                == handle_of(self.active_by_key@, queue[i]) by {
                assert(shorter[i] == chain[i]);
            }
            self.lemma_chain_sum(side, price, shorter);
            lemma_sum_take(queue, n, remaining_of(self@.orders));
            lemma_queued(self@, side, price, n);
            assert(chain.last() == chain[n]);
        } else {
            assert(queue.take(0) =~= Seq::empty());
        }
    }

    /// After a level of an orderly book its orders are visited.
    proof fn lemma_level_visited(
        &self,
        before: Set<u64>,
        after: Set<u64>,
        side: Side,
        at: int,
        chain: Seq<OrderHandle>,
    )
        requires
            self.wf(),
            self.visited_upto(before, side, at),
            0 <= at < self.spec_side(side).levels@.len(),
            forall|raw: u64| #[trigger]
                after.contains(raw) <==> before.contains(raw) || in_chain(chain, raw),
            ({
                let queue = self@.side(side).queues[self.spec_side(side).levels@[at].price];
                &&& chain.len() == queue.len()
                &&& forall|i: int|
                    0 <= i < chain.len() ==> #[trigger] chain[i] == handle_of(
                        self.active_by_key@,
                        queue[i],
                    )
            }),
        ensures
            self.visited_upto(after, side, at + 1),
    {
        let m = self@;
        let active = self.active_by_key@;
        let stored = stored_orders(self.orders);
        self.lemma_side_wf(side);
        let levels = self.spec_side(side).levels@;
        let price = levels[at].price;
        let queue = m.side(side).queues[price];
        assert forall|raw: u64| #[trigger] after.contains(raw) <==> stored.contains_key(raw)
            && self.passed(stored[raw], side, at + 1) by {
            if before.contains(raw) {
                let p = stored[raw].effective_price->0;
                if stored[raw].key.side == side {
                    if listed_before(levels, at, p) {
                        let j = choose|j: int| 0 <= j < at && (#[trigger] levels[j]).price == p;
                        assert(listed_before(levels, at + 1, p));
                    }
                }
            }
            if in_chain(chain, raw) {
                let i = choose|i: int| 0 <= i < chain.len() && (#[trigger] chain[i]).raw == raw;
                lemma_queued(m, side, price, i);
                assert(levels[at].price == price);
                assert(listed_before(levels, at + 1, price));
            }
            if stored.contains_key(raw) && self.passed(stored[raw], side, at + 1)
                && !before.contains(raw) {
                let key = stored[raw].key;
                let p = stored[raw].effective_price->0;
                assert(m.orders.contains_key(key));
                let j = choose|j: int| 0 <= j < at + 1 && (#[trigger] levels[j]).price == p;
                if j < at {
                    assert(listed_before(levels, at, p));
                    assert(self.passed(stored[raw], side, at));
                }
                assert(j == at);
                lemma_queue_index(m, key);
                let i = queue_index(m, key);
                assert(queue[i] == key);
                assert(chain[i].raw == raw);
            }
        }
    }

    /// Walks the levels of one side.
    fn check_side(&self, side: Side, visited: &mut HashSet<u64>) -> (r: Result<
        Ghost<Seq<Seq<OrderHandle>>>,
        BookError,
    >)
        ensures
            r matches Ok(chains) ==> {
                &&& self.side_consistent(side, chains@)
                &&& forall|raw: u64| #[trigger]
                    final(visited)@.contains(raw) <==> old(visited)@.contains(raw) || in_chains(
                        chains@,
                        raw,
                    )
            },
            r matches Err(error) ==> self.side_fault(side, old(visited)@, error),
            self.wf() && self.visited_upto(old(visited)@, side, 0) ==> r is Ok
                && self.visited_upto(
                final(visited)@,
                side,
                self.spec_side(side).levels@.len() as int,
            ),
    {
        let ghost levels = self.spec_side(side).levels@;
        let ghost stored = stored_orders(self.orders);
        let ghost before = visited@;
        let ghost orderly = self.wf() && self.visited_upto(before, side, 0);
        let ghost mut chains: Seq<Seq<OrderHandle>> = Seq::empty();
        let mut side_total: u64 = 0;
        let mut side_weighted: u128 = 0;
        let mut at: usize = 0;
        let count: usize = self.side_ref(side).levels.len();
        while at < count
            invariant
                levels == self.spec_side(side).levels@,
                stored == stored_orders(self.orders),
                count == levels.len(),
                at <= count,
                chains.len() == at,
                orderly ==> self.wf() && self.visited_upto(visited@, side, at as int),
                before == old(visited)@,
                orderly == (self.wf() && self.visited_upto(before, side, 0)),
                side_total == seq_sum(levels.take(at as int), level_quantity()),
                side_weighted == seq_sum(levels.take(at as int), level_weighted()),
                forall|i: int| 0 <= i < at ==> Self::chain_ok(
                    stored,
                    side,
                    #[trigger] levels[i],
                    chains[i],
                ),
                forall|raw: u64| #[trigger]
                    visited@.contains(raw) <==> before.contains(raw) || in_chains(chains, raw),
            decreases count - at,
        {
            let ghost passed = visited@;
            let chain = match self.check_level(side, at, visited) {
                Ok(chain) => chain,
                Err(error) => {
                    proof {
                        assert(passed =~= before.union(linked(chains)));
                        assert(self.levels_fault(side, before, chains, error));
                    }
                    return Err(error);
                },
            };
            let level = self.side_ref(side).levels[at];
            let ghost more = chains.push(chain@);
            proof {
                assert forall|i: int| 0 <= i < at + 1 implies Self::chain_ok(
                    stored,
                    side,
                    #[trigger] levels[i],
                    more[i],
                ) by {
                    if i < at {
                        assert(more[i] == chains[i]);
                    }
                }
                lemma_sum_take(levels, at as int, level_quantity());
                lemma_sum_take(levels, at as int, level_weighted());
                if orderly {
                    self.lemma_side_sums(side, at + 1);
                }
            }
            side_total = match side_total.checked_add(level.total_quantity) {
                Some(total) => total,
                None => {
                    assert(self.levels_fault(
                        side,
                        before,
                        more,
                        BookError::ArithmeticOverflow("invariant side total"),
                    ));
                    return Err(BookError::ArithmeticOverflow("invariant side total"));
                },
            };
            let weighted: u128 = price_quantity(level.price, level.total_quantity);
            side_weighted = match side_weighted.checked_add(weighted) {
                Some(total) => total,
                None => {
                    assert(self.levels_fault(
                        side,
                        before,
                        more,
                        BookError::ArithmeticOverflow("invariant side weighted"),
                    ));
                    return Err(BookError::ArithmeticOverflow("invariant side weighted"));
                },
            };
            proof {
                assert forall|raw: u64| in_chains(more, raw) <==> in_chains(chains, raw)
                    || in_chain(chain@, raw) by {
                    if in_chains(chains, raw) {
                        let i = choose|i: int|
                            0 <= i < chains.len() && in_chain(#[trigger] chains[i], raw);
                        assert(more[i] == chains[i]);
                    }
                    if in_chain(chain@, raw) {
                        assert(more[at as int] == chain@);
                    }
                    if in_chains(more, raw) {
                        let i = choose|i: int|
                            0 <= i < more.len() && in_chain(#[trigger] more[i], raw);
                        if i < at {
                            assert(more[i] == chains[i]);
                        }
                    }
                }
                chains = more;
            }
            at = at + 1;
        }
        proof {
            assert(levels.take(count as int) =~= levels);
            if orderly {
                self.lemma_side_wf(side);
            }
        }
        let aggregate = self.side_ref(side).aggregate;
        if aggregate.total_quantity != side_total || aggregate.weighted_price_quantity
            != side_weighted {
            assert(self.levels_fault(
                side,
                before,
                chains,
                BookError::InvariantViolation("side aggregate mismatch"),
            ));
            return Err(BookError::InvariantViolation("side aggregate mismatch"));
        }
        Ok(Ghost(chains))
    }

    /// In an orderly book sums over the first levels stay within the side's totals.
    proof fn lemma_side_sums(&self, side: Side, n: int)
        requires
            self.wf(),
            0 <= n <= self.spec_side(side).levels@.len(),
        ensures
            seq_sum(self.spec_side(side).levels@.take(n), level_quantity()) <= u64::MAX,
            seq_sum(self.spec_side(side).levels@.take(n), level_weighted()) <= u128::MAX,
    {
        self.lemma_side_wf(side);
        let levels = self.spec_side(side).levels@;
        assert forall|i: int| 0 <= i < levels.len() implies level_weighted()(#[trigger] levels[i])
            >= 0 by {
            let price = levels[i].price.value as int;
            let total = levels[i].total_quantity as int;
            assert(price * total >= 0) by (nonlinear_arith)
                requires
                    price >= 0,
                    total >= 0,
            ;
        }
        lemma_sum_prefix(levels, n, level_quantity());
        lemma_sum_prefix(levels, n, level_weighted());
    }

    /// Looks at every stored order once the levels were walked.
    fn check_places(&self, visited: &HashSet<u64>) -> (r: Result<(), BookError>)
        ensures
            r is Ok ==> forall|raw: u64| #[trigger]
                stored_orders(self.orders).contains_key(raw) ==> self.place_ok(visited@, raw),
            r matches Err(error) ==> exists|raw: u64| #[trigger]
                self.place_fault(visited@, raw, error),
            self.wf() && self.visited_upto(
                visited@,
                Side::Sell,
                self.asks.levels@.len() as int,
            ) ==> r is Ok,
    {
        broadcast use vstd::std_specs::hash::group_hash_axioms;

        let handles = storage_handles(&self.orders);
        let mut next: usize = 0;
        while next < handles.len()
            invariant
                next <= handles@.len(),
                forall|i: int|
                    0 <= i < handles@.len() ==> stored_orders(self.orders).contains_key(
                        (#[trigger] handles@[i]).raw,
                    ),
                forall|i: int|
                    0 <= i < next ==> self.place_ok(visited@, (#[trigger] handles@[i]).raw),
            decreases handles@.len() - next,
        {
            broadcast use vstd::std_specs::hash::group_hash_axioms;

            let handle = handles[next];
            proof {
                use_type_invariant(&handle);
                if self.wf() && self.visited_upto(
                    visited@,
                    Side::Sell,
                    self.asks.levels@.len() as int,
                ) {
                    self.lemma_place_ok(visited@, handle.raw);
                }
            }
            let state = match storage_get(&self.orders, handle) {
                Some(state) => state,
                None => return Err(BookError::InvariantViolation("active handle is missing")),
            };
            let linked = visited.contains(&handle.raw);
            match state.location {
                OrderLocation::Resting => {
                    if !linked {
                        assert(self.place_fault(
                            visited@,
                            handle.raw,
                            BookError::InvariantViolation("resting order is absent from levels"),
                        ));
                        return Err(
                            BookError::InvariantViolation("resting order is absent from levels"),
                        );
                    }
                },
                OrderLocation::Aggressive => {
                    if linked || state.previous.is_some() || state.next.is_some() {
                        assert(self.place_fault(
                            visited@,
                            handle.raw,
                            BookError::InvariantViolation("aggressive order is linked to a level"),
                        ));
                        return Err(
                            BookError::InvariantViolation("aggressive order is linked to a level"),
                        );
                    }
                },
            }
            next = next + 1;
        }
        proof {
            assert forall|raw: u64| #[trigger]
                stored_orders(self.orders).contains_key(raw) implies self.place_ok(
                visited@,
                raw,
            ) by {
                assert(handles@.contains(OrderHandle { raw }));
            }
        }
        Ok(())
    }

    spec fn place_ok(self, visited: Set<u64>, raw: u64) -> bool {
        let state = stored_orders(self.orders)[raw];
        match state.location {
            OrderLocation::Resting => visited.contains(raw),
            OrderLocation::Aggressive => !visited.contains(raw) && state.previous is None
                && state.next is None,
        }
    }

    proof fn lemma_place_ok(&self, visited: Set<u64>, raw: u64)
        requires
            self.wf(),
            self.visited_upto(visited, Side::Sell, self.asks.levels@.len() as int),
            stored_orders(self.orders).contains_key(raw),
        ensures
            self.place_ok(visited, raw),
    {
        let state = stored_orders(self.orders)[raw];
        assert(self@.orders.contains_key(state.key));
        if state.location == OrderLocation::Resting {
            lemma_queue_index(self@, state.key);
            let price = state.effective_price->0;
            self.lemma_side_wf(state.key.side);
            let levels = self.spec_side(state.key.side).levels@;
            assert(crate::order_book::relation::has_price(levels, price));
            let j = choose|j: int| 0 <= j < levels.len() && (#[trigger] levels[j]).price == price;
            assert(listed_before(levels, levels.len() as int, price));
            assert(visited.contains(raw));
        }
    }

    /// After the bids of an orderly book the walk stands before its asks.
    proof fn lemma_bids_visited(&self, visited: Set<u64>)
        requires
            self.wf(),
            self.visited_upto(visited, Side::Buy, self.bids.levels@.len() as int),
        ensures
            self.visited_upto(visited, Side::Sell, 0),
    {
        let stored = stored_orders(self.orders);
        assert forall|raw: u64| #[trigger] visited.contains(raw) <==> stored.contains_key(raw)
            && self.passed(stored[raw], Side::Sell, 0) by {
            let state = stored[raw];
            if stored.contains_key(raw) && state.location == OrderLocation::Resting
                && state.key.side == Side::Buy {
                assert(self@.orders.contains_key(state.key));
                lemma_queue_index(self@, state.key);
                let price = state.effective_price->0;
                self.lemma_side_wf(Side::Buy);
                let levels = self.bids.levels@;
                assert(crate::order_book::relation::has_price(levels, price));
                let j = choose|j: int|
                    0 <= j < levels.len() && (#[trigger] levels[j]).price == price;
                assert(listed_before(levels, levels.len() as int, price));
            }
        }
    }

    /// Checks index, storage, level lists and totals against one another. A book is found
    /// in order only if they agree, and one advanced by events always is. An error names a
    /// check that fails; where several index entries or stored orders fail, any of them may
    /// be met first.
    pub fn check_invariants(&self) -> (r: Result<(), BookError>)
        ensures
            r is Ok ==> self.consistent(),
            r matches Err(error) ==> self.fails(error),
            self.wf() ==> r is Ok,
    {
        broadcast use vstd::std_specs::hash::group_hash_axioms;

        match self.check_index() {
            Ok(()) => {},
            Err(error) => return Err(error),
        }
        let mut visited: HashSet<u64> = HashSet::new();
        proof {
            assert(self.visited_upto(visited@, Side::Buy, 0)) by {
                assert forall|raw: u64| !self.passed(
                    stored_orders(self.orders)[raw],
                    Side::Buy,
                    0,
                ) by {}
            }
        }
        assert(visited@ =~= Set::empty());
        let bids = match self.check_side(Side::Buy, &mut visited) {
            Ok(chains) => chains,
            Err(error) => return Err(error),
        };
        let ghost bid_visited = visited@;
        assert(bid_visited =~= linked(bids@));
        proof {
            if self.wf() {
                self.lemma_bids_visited(visited@);
            }
        }
        let asks = match self.check_side(Side::Sell, &mut visited) {
            Ok(chains) => chains,
            Err(error) => return Err(error),
        };
        assert(visited@ =~= linked(bids@).union(linked(asks@)));
        match self.check_places(&visited) {
            Ok(()) => {},
            Err(error) => return Err(error),
        }
        proof {
            assert(self.places_consistent(bids@, asks@)) by {
                assert forall|raw: u64| #[trigger]
                    stored_orders(self.orders).contains_key(raw) implies {
                    let state = stored_orders(self.orders)[raw];
                    match state.location {
                        OrderLocation::Resting => in_chains(bids@, raw) || in_chains(asks@, raw),
                        OrderLocation::Aggressive => {
                            &&& !in_chains(bids@, raw)
                            &&& !in_chains(asks@, raw)
                            &&& state.previous is None
                            &&& state.next is None
                        },
                    }
                } by {
                    assert(self.place_ok(visited@, raw));
                    assert(visited@.contains(raw) <==> bid_visited.contains(raw) || in_chains(
                        asks@,
                        raw,
                    ));
                    assert(bid_visited.contains(raw) <==> in_chains(bids@, raw));
                }
            }
        }
        Ok(())
    }
}

/// The remaining quantity of each stored order.
spec fn stored_remaining(stored: StoredOrders) -> spec_fn(OrderHandle) -> int {
    |handle: OrderHandle| stored[handle.raw].remaining_quantity as int
}

spec fn chain_link_ok(
    stored: StoredOrders,
    side: Side,
    price: Price,
    chain: Seq<OrderHandle>,
    i: int,
) -> bool {
    let state = stored[chain[i].raw];
    &&& stored.contains_key(chain[i].raw)
    &&& state.key.side == side
    &&& state.effective_price == Some(price)
    &&& state.location == OrderLocation::Resting
    &&& state.previous == if i == 0 {
        None
    } else {
        Some(chain[i - 1])
    }
    &&& state.next == if i + 1 == chain.len() {
        None
    } else {
        Some(chain[i + 1])
    }
}

spec fn in_chain(chain: Seq<OrderHandle>, raw: u64) -> bool {
    exists|i: int| 0 <= i < chain.len() && (#[trigger] chain[i]).raw == raw
}

spec fn in_chains(chains: Seq<Seq<OrderHandle>>, raw: u64) -> bool {
    exists|i: int| 0 <= i < chains.len() && in_chain(#[trigger] chains[i], raw)
}

/// The orders in lists of levels.
spec fn linked(chains: Seq<Seq<OrderHandle>>) -> Set<u64> {
    Set::new(|raw: u64| in_chains(chains, raw))
}

/// The stored order at a place of a list belongs to the level and points back; those before
/// the last point on.
spec fn chain_step_ok(
    stored: StoredOrders,
    side: Side,
    price: Price,
    chain: Seq<OrderHandle>,
    i: int,
) -> bool {
    let state = stored[chain[i].raw];
    &&& stored.contains_key(chain[i].raw)
    &&& state.key.side == side
    &&& state.effective_price == Some(price)
    &&& state.location == OrderLocation::Resting
    &&& state.previous == if i == 0 {
        None
    } else {
        Some(chain[i - 1])
    }
    &&& i + 1 < chain.len() ==> state.next == Some(chain[i + 1])
}

/// Whether a price is among the first levels.
spec fn listed_before(levels: Seq<PriceLevelState>, at: int, price: Price) -> bool {
    exists|j: int| 0 <= j < at && (#[trigger] levels[j]).price == price
}

} // verus!
