//! The mathematical model of an order book and of what each event does to it.

use vstd::prelude::*;

use crate::market_data::{
    ApplySequence, BookEvent, BookKey, CrossingBehavior, EventMeta, LocalTimestampNs, OrderId,
    OrderKey, OrderReference, Price, PricingInstruction, Quantity, QuoteTimestampNs, RawSequence,
    Side,
};

use super::book::{BookConfig, UnknownTradePolicy};
use super::error::BookError;
use super::state::OrderLocation;
use super::view::{ApplyOutcome, LevelView, OrderView, TradeStatisticsView};

verus! {

/// One active order.
pub struct OrderModel {
    pub effective_price: Option<Price>,
    pub original_quantity: Quantity,
    pub remaining_quantity: u64,
    pub location: OrderLocation,
    pub allow_reentry: bool,
    pub reprice_from_trade: bool,
}

/// One side of the visible book: a FIFO queue of orders for each price, and the
/// totals of quantity and of price times quantity over all of them.
#[verifier::ext_equal]
pub struct SideModel {
    pub queues: Map<Price, Seq<OrderKey>>,
    pub total_quantity: int,
    pub weighted_price_quantity: int,
}

impl SideModel {
    pub open spec fn empty() -> Self {
        SideModel { queues: Map::empty(), total_quantity: 0, weighted_price_quantity: 0 }
    }

    /// The queue at a price, empty where there is no level.
    pub open spec fn queue(self, price: Price) -> Seq<OrderKey> {
        if self.queues.contains_key(price) {
            self.queues[price]
        } else {
            Seq::empty()
        }
    }

    /// An order joins the end of the queue at its price.
    pub open spec fn attach(self, price: Price, key: OrderKey, quantity: int) -> Self {
        SideModel {
            queues: self.queues.insert(price, self.queue(price).push(key)),
            total_quantity: self.total_quantity + quantity,
            weighted_price_quantity: self.weighted_price_quantity + price.spec_units() * quantity,
        }
    }

    /// Visible quantity at a price goes down by a part of one order.
    pub open spec fn reduce(self, price: Price, quantity: int) -> Self {
        SideModel {
            queues: self.queues,
            total_quantity: self.total_quantity - quantity,
            weighted_price_quantity: self.weighted_price_quantity - price.spec_units() * quantity,
        }
    }

    /// An order leaves its queue; a price whose queue runs empty is no level any more.
    pub open spec fn detach(self, price: Price, key: OrderKey, quantity: int) -> Self {
        let rest = self.queue(price).remove(self.queue(price).index_of(key));
        SideModel {
            queues: if rest.len() == 0 {
                self.queues.remove(price)
            } else {
                self.queues.insert(price, rest)
            },
            ..self.reduce(price, quantity)
        }
    }
}

/// What a book keeps of the metadata of an event.
pub struct MetaModel {
    pub raw_sequence: RawSequence,
    pub apply_sequence: ApplySequence,
    pub local_time: LocalTimestampNs,
    pub quote_time: QuoteTimestampNs,
}

/// The metadata of an event, without the name of the book.
pub open spec fn meta_model(meta: EventMeta) -> MetaModel {
    MetaModel {
        raw_sequence: meta.raw_sequence,
        apply_sequence: meta.apply_sequence,
        local_time: meta.local_time,
        quote_time: meta.quote_time,
    }
}

/// The state of one book.
#[verifier::ext_equal]
pub struct BookModel {
    pub orders: Map<OrderKey, OrderModel>,
    pub bids: SideModel,
    pub asks: SideModel,
    pub seen: Set<OrderKey>,
    pub statistics: TradeStatisticsView,
    pub last_meta: Option<MetaModel>,
    pub revision: u64,
}

/// Whether price `a` is at least as good as price `b` for orders of a side.
pub open spec fn at_least_as_good(side: Side, a: Price, b: Price) -> bool {
    match side {
        Side::Buy => a.spec_units() >= b.spec_units(),
        Side::Sell => a.spec_units() <= b.spec_units(),
    }
}

/// Whether a price is a level of a side and no level of that side is better.
pub open spec fn is_best(side: Side, queues: Map<Price, Seq<OrderKey>>, price: Price) -> bool {
    &&& queues.contains_key(price)
    &&& forall|other: Price| #[trigger]
        queues.contains_key(other) ==> at_least_as_good(side, price, other)
}

/// Whether a price is among the listed levels.
pub open spec fn shows_price(levels: Seq<LevelView>, price: Price) -> bool {
    exists|i: int| 0 <= i < levels.len() && (#[trigger] levels[i]).price == price
}

/// The quantity that a level shows.
pub open spec fn shown_quantity() -> spec_fn(LevelView) -> int {
    |level: LevelView| level.total_quantity as int
}

/// The quantity that an order shows.
pub open spec fn shown_remaining() -> spec_fn(OrderView) -> int {
    |order: OrderView| order.remaining_quantity as int
}

/// Price times quantity of what a level shows.
pub open spec fn shown_weighted() -> spec_fn(LevelView) -> int {
    |level: LevelView| level.price.spec_units() * level.total_quantity
}

/// The best price among the levels of a side.
pub open spec fn best_of(side: Side, queues: Map<Price, Seq<OrderKey>>) -> Option<Price> {
    if exists|price: Price| is_best(side, queues, price) {
        Some(choose|price: Price| is_best(side, queues, price))
    } else {
        None
    }
}

/// The remaining quantity of each order.
pub open spec fn remaining_of(orders: Map<OrderKey, OrderModel>) -> spec_fn(OrderKey) -> int {
    |key: OrderKey| orders[key].remaining_quantity as int
}

/// Which side error a trade reference gives.
pub open spec fn reference_side_error(reference: OrderReference, expected: Side) -> Option<
    BookError,
> {
    match reference {
        OrderReference::Absent => None,
        OrderReference::Unresolved { side, order_id } => if side == expected {
            None
        } else {
            Some(BookError::InvalidTradeReferenceSide { expected, actual: side })
        },
        OrderReference::Resolved(key) => if key.side == expected {
            None
        } else {
            Some(BookError::InvalidTradeReferenceSide { expected, actual: key.side })
        },
    }
}

/// Which overflow a further trade gives.
pub open spec fn statistics_error(
    statistics: TradeStatisticsView,
    price: Price,
    quantity: int,
) -> Option<BookError> {
    if statistics.total_quantity + quantity > u64::MAX {
        Some(BookError::ArithmeticOverflow("total trade quantity"))
    } else if statistics.total_turnover_units + price.spec_units() * quantity > u128::MAX {
        Some(BookError::ArithmeticOverflow("total trade turnover"))
    } else if statistics.trade_count == u64::MAX {
        Some(BookError::ArithmeticOverflow("trade count"))
    } else {
        None
    }
}

/// The statistics with one trade more.
pub open spec fn statistics_next(
    statistics: TradeStatisticsView,
    price: Price,
    quantity: int,
) -> TradeStatisticsView {
    TradeStatisticsView {
        last_price: Some(price),
        high_price: Some(
            match statistics.high_price {
                None => price,
                Some(high) => high.spec_max(price),
            },
        ),
        low_price: Some(
            match statistics.low_price {
                None => price,
                Some(low) => low.spec_min(price),
            },
        ),
        total_quantity: (statistics.total_quantity + quantity) as u64,
        total_turnover_units: (statistics.total_turnover_units + price.spec_units()
            * quantity) as u128,
        trade_count: (statistics.trade_count + 1) as u64,
    }
}

pub open spec fn revision_next(revision: u64) -> u64 {
    if revision == u64::MAX {
        u64::MAX
    } else {
        (revision + 1) as u64
    }
}

impl BookModel {
    /// A book before its first event.
    pub open spec fn empty() -> Self {
        BookModel {
            orders: Map::empty(),
            bids: SideModel::empty(),
            asks: SideModel::empty(),
            seen: Set::empty(),
            statistics: TradeStatisticsView::spec_default(),
            last_meta: None,
            revision: 0,
        }
    }

    pub open spec fn side(self, side: Side) -> SideModel {
        match side {
            Side::Buy => self.bids,
            Side::Sell => self.asks,
        }
    }

    pub open spec fn with_side(self, side: Side, state: SideModel) -> Self {
        match side {
            Side::Buy => BookModel { bids: state, ..self },
            Side::Sell => BookModel { asks: state, ..self },
        }
    }

    /// The best price among the levels of a side.
    pub open spec fn best_price(self, side: Side) -> Option<Price> {
        best_of(side, self.side(side).queues)
    }

    /// Whether an order of a side at a price would meet the other side's best level.
    pub open spec fn crosses(self, side: Side, price: Price) -> bool {
        match self.best_price(side.spec_opposite()) {
            None => false,
            Some(best) => at_least_as_good(side, price, best),
        }
    }

    /// The visible quantity at a price.
    pub open spec fn level_total(self, side: Side, price: Price) -> int {
        crate::sums::seq_sum(self.side(side).queue(price), remaining_of(self.orders))
    }

    /// What a level shows to a reader.
    pub open spec fn level_view(self, side: Side, price: Price) -> LevelView {
        LevelView {
            side,
            price,
            total_quantity: self.level_total(side, price) as u64,
            order_count: self.side(side).queue(price).len() as usize,
        }
    }

    /// What an order shows to a reader.
    pub open spec fn order_view(self, key: OrderKey) -> OrderView {
        let order = self.orders[key];
        OrderView {
            key,
            effective_price: order.effective_price,
            original_quantity: order.original_quantity,
            remaining_quantity: order.remaining_quantity,
            location: order.location,
        }
    }

    /// Whether a sequence of levels is the visible depth of a side: every level
    /// once, best price first.
    #[verifier::opaque]
    pub open spec fn is_depth(self, side: Side, levels: Seq<LevelView>) -> bool {
        &&& forall|i: int|
            0 <= i < levels.len() ==> self.side(side).queues.contains_key(
                (#[trigger] levels[i]).price,
            ) && levels[i] == self.level_view(side, levels[i].price)
        &&& forall|i: int, j: int|
            0 <= i < j < levels.len() ==> at_least_as_good(
                side,
                (#[trigger] levels[i]).price,
                (#[trigger] levels[j]).price,
            ) && levels[i].price != levels[j].price
        &&& forall|price: Price| #[trigger]
            self.side(side).queues.contains_key(price) ==> shows_price(levels, price)
    }

    /// The visible depth of a side, best price first.
    pub open spec fn depth_of(self, side: Side) -> Seq<LevelView> {
        choose|levels: Seq<LevelView>| self.is_depth(side, levels)
    }

    /// The orders waiting at a price, first come first.
    pub open spec fn orders_at(self, side: Side, price: Price) -> Seq<OrderView> {
        self.side(side).queue(price).map_values(|key: OrderKey| self.order_view(key))
    }

    /// What keeps a quantity from becoming visible at a price.
    pub open spec fn attach_error(self, side: Side, price: Price, quantity: int) -> Option<
        BookError,
    > {
        let state = self.side(side);
        if state.total_quantity + quantity > u64::MAX {
            Some(BookError::ArithmeticOverflow("side quantity"))
        } else if state.weighted_price_quantity + price.spec_units() * quantity > u128::MAX {
            Some(BookError::ArithmeticOverflow("side weighted price"))
        } else if state.queue(price).len() >= usize::MAX {
            Some(BookError::ArithmeticOverflow("price-level order count"))
        } else {
            None
        }
    }

    /// A new order that is not visible.
    pub open spec fn add_hidden(self, key: OrderKey, order: OrderModel) -> Self {
        BookModel { orders: self.orders.insert(key, order), seen: self.seen.insert(key), ..self }
    }

    /// A hidden order becomes visible at a price, behind the orders already there.
    pub open spec fn rest(self, key: OrderKey, price: Price) -> Self {
        let order = self.orders[key];
        let side = self.side(key.side).attach(price, key, order.remaining_quantity as int);
        BookModel {
            orders: self.orders.insert(
                key,
                OrderModel {
                    effective_price: Some(price),
                    location: OrderLocation::Resting,
                    ..order
                },
            ),
            ..self.with_side(key.side, side)
        }
    }

    /// An active order leaves the book.
    pub open spec fn remove(self, key: OrderKey) -> Self {
        let order = self.orders[key];
        let side = if order.location == OrderLocation::Resting {
            self.side(key.side).detach(
                order.effective_price->0,
                key,
                order.remaining_quantity as int,
            )
        } else {
            self.side(key.side)
        };
        BookModel { orders: self.orders.remove(key), ..self.with_side(key.side, side) }
    }

    /// An active order loses a part of its quantity, keeping its place in the queue. A
    /// hidden order that takes its price from trades gets the trade's price.
    pub open spec fn reduce(self, key: OrderKey, quantity: int, trade_price: Price) -> Self {
        let order = self.orders[key];
        let reduced = OrderModel {
            remaining_quantity: (order.remaining_quantity - quantity) as u64,
            effective_price: if order.location == OrderLocation::Aggressive
                && order.reprice_from_trade {
                Some(trade_price)
            } else {
                order.effective_price
            },
            ..order
        };
        let side = if order.location == OrderLocation::Resting {
            self.side(key.side).reduce(order.effective_price->0, quantity)
        } else {
            self.side(key.side)
        };
        BookModel { orders: self.orders.insert(key, reduced), ..self.with_side(key.side, side) }
    }

    /// A trade takes a quantity from an active order, which leaves the book once filled.
    pub open spec fn fill(self, key: OrderKey, quantity: int, trade_price: Price) -> Self {
        if self.orders[key].remaining_quantity == quantity {
            self.remove(key)
        } else {
            self.reduce(key, quantity, trade_price)
        }
    }

    pub open spec fn fill_known(
        self,
        key: Option<OrderKey>,
        quantity: int,
        trade_price: Price,
    ) -> Self {
        match key {
            None => self,
            Some(key) => self.fill(key, quantity, trade_price),
        }
    }

    /// Whether what is left of a hidden order becomes visible after a trade.
    pub open spec fn reenters(self, key: OrderKey) -> bool {
        let order = self.orders[key];
        &&& self.orders.contains_key(key)
        &&& order.location == OrderLocation::Aggressive
        &&& order.allow_reentry
        &&& order.effective_price is Some
        &&& !self.crosses(key.side, order.effective_price->0)
    }

    pub open spec fn reenter_known(self, key: Option<OrderKey>) -> Self {
        match key {
            Some(key) => if self.reenters(key) {
                self.rest(key, self.orders[key].effective_price->0)
            } else {
                self
            },
            None => self,
        }
    }

    pub open spec fn reentry_error(self, key: Option<OrderKey>) -> Option<BookError> {
        match key {
            Some(key) => if self.reenters(key) {
                self.attach_error(
                    key.side,
                    self.orders[key].effective_price->0,
                    self.orders[key].remaining_quantity as int,
                )
            } else {
                None
            },
            None => None,
        }
    }

    /// The price that a pricing instruction gives now, `None` where it gives an error.
    pub open spec fn resolved_price(self, side: Side, pricing: PricingInstruction) -> Option<
        Option<Price>,
    > {
        match pricing {
            PricingInstruction::Provided(price) => Some(Some(price)),
            PricingInstruction::SameSideBest => match self.best_price(side) {
                Some(price) => Some(Some(price)),
                None => None,
            },
            PricingInstruction::OppositeBest => match self.best_price(side.spec_opposite()) {
                Some(price) => Some(Some(price)),
                None => None,
            },
            PricingInstruction::Unpriced => Some(None),
        }
    }

    pub open spec fn pricing_error(side: Side, pricing: PricingInstruction) -> BookError {
        BookError::ReferencePriceUnavailable {
            side,
            instruction: if pricing == PricingInstruction::SameSideBest {
                "same-side best"
            } else {
                "opposite best"
            },
        }
    }

    /// Whether a new order stays out of the visible depth.
    pub open spec fn starts_hidden(
        self,
        side: Side,
        price: Option<Price>,
        crossing: CrossingBehavior,
    ) -> bool {
        match crossing {
            CrossingBehavior::Rest => false,
            CrossingBehavior::AlwaysHide => true,
            CrossingBehavior::RestAtLastTradePrice => true,
            CrossingBehavior::HideIfCrossing => price is Some && self.crosses(side, price->0),
        }
    }

    pub open spec fn new_order(
        price: Option<Price>,
        crossing: CrossingBehavior,
        quantity: Quantity,
    ) -> OrderModel {
        OrderModel {
            effective_price: price,
            original_quantity: quantity,
            remaining_quantity: quantity.spec_get(),
            location: OrderLocation::Aggressive,
            allow_reentry: crossing == CrossingBehavior::HideIfCrossing || crossing
                == CrossingBehavior::RestAtLastTradePrice,
            reprice_from_trade: crossing == CrossingBehavior::RestAtLastTradePrice,
        }
    }

    /// Why a new order is refused.
    pub open spec fn add_error(
        self,
        key: OrderKey,
        pricing: PricingInstruction,
        crossing: CrossingBehavior,
        quantity: Quantity,
    ) -> Option<BookError> {
        if self.seen.contains(key) {
            Some(BookError::DuplicateOrder(key))
        } else {
            match self.resolved_price(key.side, pricing) {
                None => Some(Self::pricing_error(key.side, pricing)),
                Some(price) => if self.starts_hidden(key.side, price, crossing) {
                    None
                } else {
                    match price {
                        None => Some(BookError::UnpricedVisibleOrder),
                        Some(price) => self.attach_error(
                            key.side,
                            price,
                            quantity.spec_get() as int,
                        ),
                    }
                },
            }
        }
    }

    /// The book with a new order.
    pub open spec fn add_next(
        self,
        key: OrderKey,
        pricing: PricingInstruction,
        crossing: CrossingBehavior,
        quantity: Quantity,
    ) -> Self {
        let price = self.resolved_price(key.side, pricing)->0;
        let added = self.add_hidden(key, Self::new_order(price, crossing, quantity));
        if self.starts_hidden(key.side, price, crossing) {
            added
        } else {
            added.rest(key, price->0)
        }
    }

    pub open spec fn add_outcome(
        self,
        key: OrderKey,
        pricing: PricingInstruction,
        crossing: CrossingBehavior,
        quantity: Quantity,
    ) -> ApplyOutcome {
        let price = self.resolved_price(key.side, pricing)->0;
        ApplyOutcome::Added {
            key,
            effective_price: price,
            quantity,
            location: if self.starts_hidden(key.side, price, crossing) {
                OrderLocation::Aggressive
            } else {
                OrderLocation::Resting
            },
        }
    }

    /// Why a cancellation is refused.
    pub open spec fn cancel_error(self, key: OrderKey) -> Option<BookError> {
        if self.orders.contains_key(key) {
            None
        } else {
            Some(BookError::UnknownCancellation(key))
        }
    }

    /// The active order that a trade reference names.
    pub open spec fn known(self, reference: OrderReference) -> Option<OrderKey> {
        match reference {
            OrderReference::Resolved(key) => if self.orders.contains_key(key) {
                Some(key)
            } else {
                None
            },
            _ => None,
        }
    }

    /// The order of a trade reference that names no active order.
    pub open spec fn unknown(self, reference: OrderReference) -> Option<(Side, OrderId)> {
        match reference {
            OrderReference::Absent => None,
            OrderReference::Unresolved { side, order_id } => Some((side, order_id)),
            OrderReference::Resolved(key) => if self.orders.contains_key(key) {
                None
            } else {
                Some((key.side, key.order_id))
            },
        }
    }

    pub open spec fn unknown_error(
        self,
        bid: OrderReference,
        ask: OrderReference,
        policy: UnknownTradePolicy,
    ) -> Option<BookError> {
        if policy == UnknownTradePolicy::Reject {
            match self.unknown(bid) {
                Some((side, order_id)) => Some(BookError::UnknownTradeReference { side, order_id }),
                None => match self.unknown(ask) {
                    Some((side, order_id)) => Some(
                        BookError::UnknownTradeReference { side, order_id },
                    ),
                    None => None,
                },
            }
        } else {
            None
        }
    }

    pub open spec fn overfill_error(self, key: Option<OrderKey>, quantity: u64) -> Option<
        BookError,
    > {
        match key {
            Some(key) => if quantity > self.orders[key].remaining_quantity {
                Some(
                    BookError::TradeOverfill {
                        key,
                        remaining: self.orders[key].remaining_quantity,
                        trade: quantity,
                    },
                )
            } else {
                None
            },
            None => None,
        }
    }

    /// The book with the quantities of a trade taken out, before hidden orders reenter.
    pub open spec fn traded(
        self,
        bid: OrderReference,
        ask: OrderReference,
        price: Price,
        quantity: Quantity,
    ) -> Self {
        BookModel {
            statistics: statistics_next(self.statistics, price, quantity.spec_get() as int),
            ..self
        }.fill_known(self.known(bid), quantity.spec_get() as int, price).fill_known(
            self.known(ask),
            quantity.spec_get() as int,
            price,
        )
    }

    /// Why a trade is refused.
    pub open spec fn trade_error(
        self,
        bid: OrderReference,
        ask: OrderReference,
        price: Price,
        quantity: Quantity,
        policy: UnknownTradePolicy,
    ) -> Option<BookError> {
        let known_bid = self.known(bid);
        let known_ask = self.known(ask);
        let traded = self.traded(bid, ask, price, quantity);
        if reference_side_error(bid, Side::Buy) is Some {
            reference_side_error(bid, Side::Buy)
        } else if reference_side_error(ask, Side::Sell) is Some {
            reference_side_error(ask, Side::Sell)
        } else if self.unknown_error(bid, ask, policy) is Some {
            self.unknown_error(bid, ask, policy)
        } else if self.overfill_error(known_bid, quantity.spec_get()) is Some {
            self.overfill_error(known_bid, quantity.spec_get())
        } else if self.overfill_error(known_ask, quantity.spec_get()) is Some {
            self.overfill_error(known_ask, quantity.spec_get())
        } else if statistics_error(self.statistics, price, quantity.spec_get() as int) is Some {
            statistics_error(self.statistics, price, quantity.spec_get() as int)
        } else if traded.reentry_error(known_bid) is Some {
            traded.reentry_error(known_bid)
        } else {
            traded.reenter_known(known_bid).reentry_error(known_ask)
        }
    }

    /// The book after a trade: the traded quantities leave, then what is left of a
    /// hidden bid and after it of a hidden ask becomes visible where it no longer crosses.
    pub open spec fn trade_next(
        self,
        bid: OrderReference,
        ask: OrderReference,
        price: Price,
        quantity: Quantity,
    ) -> Self {
        self.traded(bid, ask, price, quantity).reenter_known(self.known(bid)).reenter_known(
            self.known(ask),
        )
    }

    pub open spec fn trade_outcome(
        self,
        bid: OrderReference,
        ask: OrderReference,
        quantity: Quantity,
    ) -> ApplyOutcome {
        ApplyOutcome::Traded {
            bid_reduction: if self.known(bid) is Some {
                quantity.spec_get()
            } else {
                0
            },
            ask_reduction: if self.known(ask) is Some {
                quantity.spec_get()
            } else {
                0
            },
        }
    }

    /// The sequence that the next event has to carry.
    pub open spec fn next_sequence(self) -> int {
        match self.last_meta {
            None => 1,
            Some(meta) => meta.apply_sequence.spec_get() + 1,
        }
    }

    /// Why an event does not belong here, whatever it asks for.
    pub open spec fn meta_error(self, book_key: BookKey, meta: EventMeta) -> Option<BookError> {
        if !meta.book_key.spec_same(book_key) {
            Some(BookError::BookKeyMismatch { expected: book_key, actual: meta.book_key })
        } else if self.next_sequence() > u64::MAX {
            Some(BookError::ApplySequenceOverflow)
        } else if meta.apply_sequence.spec_get() != self.next_sequence() {
            Some(
                BookError::InvalidApplySequence {
                    expected: ApplySequence::spec_new(self.next_sequence() as u64),
                    actual: meta.apply_sequence,
                },
            )
        } else {
            None
        }
    }

    /// Why the book refuses an event.
    pub open spec fn apply_error(self, config: BookConfig, event: BookEvent) -> Option<BookError> {
        if self.meta_error(config.book_key, event.spec_meta()) is Some {
            self.meta_error(config.book_key, event.spec_meta())
        } else {
            match event {
                BookEvent::AddOrder(event) => self.add_error(
                    event.order_key,
                    event.pricing,
                    event.crossing,
                    event.quantity,
                ),
                BookEvent::OrderCancel(event) => self.cancel_error(event.order_key),
                BookEvent::Trade(event) => self.trade_error(
                    event.bid_order,
                    event.ask_order,
                    event.price,
                    event.quantity,
                    config.unknown_trade_policy,
                ),
            }
        }
    }

    /// The book after an accepted event whose effect on the orders is given.
    pub open spec fn stamped(self, next: BookModel, meta: MetaModel) -> Self {
        BookModel { last_meta: Some(meta), revision: revision_next(self.revision), ..next }
    }

    /// The book after an event that it accepts.
    pub open spec fn apply_next(self, event: BookEvent) -> Self {
        let next = match event {
            BookEvent::AddOrder(event) => self.add_next(
                event.order_key,
                event.pricing,
                event.crossing,
                event.quantity,
            ),
            BookEvent::OrderCancel(event) => self.remove(event.order_key),
            BookEvent::Trade(event) => self.trade_next(
                event.bid_order,
                event.ask_order,
                event.price,
                event.quantity,
            ),
        };
        self.stamped(next, meta_model(event.spec_meta()))
    }

    /// What the book answers to an event that it accepts.
    pub open spec fn apply_outcome(self, event: BookEvent) -> ApplyOutcome {
        match event {
            BookEvent::AddOrder(event) => self.add_outcome(
                event.order_key,
                event.pricing,
                event.crossing,
                event.quantity,
            ),
            BookEvent::OrderCancel(event) => ApplyOutcome::Cancelled {
                key: event.order_key,
                cancelled_quantity: self.orders[event.order_key].remaining_quantity,
            },
            BookEvent::Trade(event) => self.trade_outcome(
                event.bid_order,
                event.ask_order,
                event.quantity,
            ),
        }
    }

    /// Why a hidden order cannot be made visible at a price.
    pub open spec fn rest_error(self, key: OrderKey, price: Price) -> Option<BookError> {
        if !self.orders.contains_key(key) {
            Some(BookError::UnknownCancellation(key))
        } else if self.orders[key].location != OrderLocation::Aggressive
            || self.orders[key].allow_reentry {
            Some(BookError::InvariantViolation("order is not explicitly pending"))
        } else if self.crosses(key.side, price) {
            Some(BookError::InvariantViolation("pending remainder still crosses"))
        } else {
            self.attach_error(key.side, price, self.orders[key].remaining_quantity as int)
        }
    }

    /// The book after a hidden order was made visible outside of any event.
    pub open spec fn rest_next(self, key: OrderKey, price: Price) -> Self {
        BookModel { revision: revision_next(self.revision), ..self.rest(key, price) }
    }

    /// What holds of the orders and queues of every reachable book.
    #[verifier::opaque]
    pub open spec fn wf(self) -> bool {
        &&& self.orders.dom().finite()
        &&& forall|key: OrderKey| #[trigger]
            self.orders.contains_key(key) ==> {
                &&& self.seen.contains(key)
                &&& 0 < self.orders[key].remaining_quantity
                &&& self.orders[key].remaining_quantity
                    <= self.orders[key].original_quantity.spec_get()
                &&& self.orders[key].location == OrderLocation::Resting ==> {
                    &&& self.orders[key].effective_price is Some
                    &&& self.side(key.side).queue(self.orders[key].effective_price->0).contains(key)
                }
            }
        &&& self.side_wf(Side::Buy)
        &&& self.side_wf(Side::Sell)
    }

    /// What holds of the queues of one side: none is empty, and each holds visible
    /// orders of its side and price, each once.
    pub open spec fn side_wf(self, side: Side) -> bool {
        let queues = self.side(side).queues;
        &&& forall|price: Price| #[trigger]
            queues.contains_key(price) ==> queues[price].len() > 0
                && queues[price].no_duplicates()
        &&& forall|price: Price, i: int|
            queues.contains_key(price) && 0 <= i < queues[price].len()
                ==> self.queued_order_wf(side, price, #[trigger] queues[price][i])
    }

    pub open spec fn queued_order_wf(self, side: Side, price: Price, key: OrderKey) -> bool {
        &&& self.orders.contains_key(key)
        &&& key.side == side
        &&& self.orders[key].location == OrderLocation::Resting
        &&& self.orders[key].effective_price == Some(price)
    }
}

/// A side has one visible depth only.
pub proof fn depth_is_unique(m: BookModel, side: Side, a: Seq<LevelView>, b: Seq<LevelView>)
    requires
        m.is_depth(side, a),
        m.is_depth(side, b),
    ensures
        a == b,
{
    lemma_depth_prefix(m, side, a, b, a.len() as int);
    lemma_depth_prefix(m, side, b, a, b.len() as int);
    assert forall|i: int| 0 <= i < a.len() implies a[i] == b[i] by {
        assert(a[i].price == b[i].price);
        lemma_depth_entry(m, side, a, i);
        lemma_depth_entry(m, side, b, i);
    }
    assert(a =~= b);
}

/// A level of a depth shows its queue.
pub proof fn lemma_depth_entry(m: BookModel, side: Side, levels: Seq<LevelView>, i: int)
    requires
        m.is_depth(side, levels),
        0 <= i < levels.len(),
    ensures
        m.side(side).queues.contains_key(levels[i].price),
        levels[i] == m.level_view(side, levels[i].price),
{
    reveal(BookModel::is_depth);
}

/// The levels of a depth are in order.
pub proof fn lemma_depth_order(m: BookModel, side: Side, levels: Seq<LevelView>, i: int, j: int)
    requires
        m.is_depth(side, levels),
        0 <= i < j < levels.len(),
    ensures
        at_least_as_good(side, levels[i].price, levels[j].price),
        levels[i].price != levels[j].price,
{
    reveal(BookModel::is_depth);
}

/// The place of a level in a depth.
pub proof fn lemma_depth_place(m: BookModel, side: Side, levels: Seq<LevelView>, price: Price) -> (i:
    int)
    requires
        m.is_depth(side, levels),
        m.side(side).queues.contains_key(price),
    ensures
        0 <= i < levels.len(),
        levels[i].price == price,
{
    reveal(BookModel::is_depth);
    assert(shows_price(levels, price));
    choose|i: int| 0 <= i < levels.len() && (#[trigger] levels[i]).price == price
}

/// The first levels of two depths of a side are the same.
proof fn lemma_depth_prefix(
    m: BookModel,
    side: Side,
    a: Seq<LevelView>,
    b: Seq<LevelView>,
    n: int,
)
    requires
        m.is_depth(side, a),
        m.is_depth(side, b),
        0 <= n <= a.len(),
    ensures
        n <= b.len(),
        forall|i: int| 0 <= i < n ==> (#[trigger] a[i]).price == b[i].price,
    decreases n,
{
    if n > 0 {
        let i = n - 1;
        lemma_depth_prefix(m, side, a, b, i);
        lemma_depth_entry(m, side, a, i);
        let k = lemma_depth_place(m, side, b, a[i].price);
        if k < i {
            assert(a[k].price == b[k].price);
            lemma_depth_order(m, side, a, k, i);
        }
        assert(k >= i);
        lemma_depth_entry(m, side, b, i);
        let l = lemma_depth_place(m, side, a, b[i].price);
        if l < i {
            assert(a[l].price == b[l].price);
            lemma_depth_order(m, side, b, l, i);
        }
        assert(l >= i);
        if k > i {
            lemma_depth_order(m, side, b, i, k);
        }
        if l > i {
            lemma_depth_order(m, side, a, i, l);
        }
        if k > i && l > i {
            assert(a[i].price.spec_units() == b[i].price.spec_units());
            crate::market_data::price_is_its_units(a[i].price, b[i].price);
        }
        assert(a[i].price == b[i].price);
    }
}

} // verus!
