//! What the records of a recorded day are read as, and in which order they are applied.

use vstd::prelude::*;

use crate::market_data::{
    ApplySequence, BookEvent, CrossingBehavior, EventMeta, MarketDataRecord, OrderId, OrderKey,
    OrderRecord, OrderReference, PricingInstruction, RawEventTime, RawOrderSide, RawOrderType,
    RawTradeType, ScaledPrice, Side, TradeRecord,
};
use crate::order_book::{BookConfig, BookModel};

use super::normalization::{
    normalized, order_result, reference_result, target_result, trade_result, LegacyContext,
    NormalizeErrorModel,
};
use super::references::{ReferenceEntry, ReferenceIndexModel};
use super::replay::{
    order_records, sequence_kind, stream_error, takes_order, trade_records, LegacyReplayModel,
    ReplayKindModel, ReplaySource,
};
use super::rules::{shanghai_time_of_day, LegacyQtpRules};

verus! {

/// Orders that cross are hidden in continuous trading, from 9:30 until 14:57, and rest at all
/// other times.
pub proof fn crossing_orders_hide_in_continuous_trading(nanos: int)
    ensures
        ({
            let start = (9 * 60 + 30) * 60 * 1_000_000_000;
            let end = (14 * 60 + 57) * 60 * 1_000_000_000;
            let time = shanghai_time_of_day(nanos);
            &&& 0 <= time < 24 * 3600 * 1_000_000_000
            &&& start <= time && time < end ==> LegacyQtpRules::spec_crossing(nanos)
                == CrossingBehavior::HideIfCrossing
            &&& time < start || end <= time ==> LegacyQtpRules::spec_crossing(nanos)
                == CrossingBehavior::Rest
            &&& time == (nanos + 28_800_000_000_000) % 86_400_000_000_000int
        }),
{
}

/// Whether an event carries the sequences and the times of a record.
pub open spec fn carries(
    meta: EventMeta,
    context: LegacyContext,
    sequence: i64,
    apply_sequence: ApplySequence,
    time: RawEventTime,
) -> bool {
    &&& meta.book_key == context.book_key
    &&& meta.raw_sequence.spec_get() == sequence
    &&& meta.apply_sequence == apply_sequence
    &&& meta.local_time == time.local_time
    &&& meta.quote_time == time.quote_time
}

/// An order record becomes an addition on its side with its quantity, or the cancellation of
/// its own order. Limit orders and those at the best price of the other side come with their
/// price; market orders take the best price of the other side, the others that of their own.
pub proof fn order_records_become_their_event(
    order: OrderRecord,
    apply_sequence: ApplySequence,
    context: LegacyContext,
)
    requires
        order_result(order, apply_sequence, context) is Ok,
    ensures
        ({
            let event = order_result(order, apply_sequence, context)->Ok_0;
            let key = if event is AddOrder {
                event->AddOrder_0.order_key
            } else {
                event->OrderCancel_0.order_key
            };
            let meta = if event is AddOrder {
                event->AddOrder_0.meta
            } else {
                event->OrderCancel_0.meta
            };
            &&& order.symbol@ == context.book_key.symbol@
            &&& order.side == RawOrderSide::Buy || order.side == RawOrderSide::Sell
            &&& order.side == RawOrderSide::Buy <==> key.side == Side::Buy
            &&& order.channel_no > 0 && key.channel_id.spec_get() == order.channel_no
            &&& order.order_id > 0 && key.order_id.spec_get() == order.order_id
            &&& order.sequence > 0
            &&& carries(meta, context, order.sequence, apply_sequence, order.event_time)
            &&& event is OrderCancel <==> order.kind == RawOrderType::Cancelled
            &&& event is AddOrder <==> order.kind != RawOrderType::Cancelled
            &&& event matches BookEvent::AddOrder(add) ==> {
                &&& add.quantity.spec_get() == order.quantity
                &&& order.quantity > 0
                &&& order.kind == RawOrderType::MarketPrice ==> add.pricing
                    == PricingInstruction::OppositeBest
                &&& order.kind == RawOrderType::ForwardBestPrice ==> add.pricing
                    == PricingInstruction::SameSideBest
                &&& order.kind == RawOrderType::LimitPrice || order.kind
                    == RawOrderType::ReverseBestPrice ==> add.pricing is Provided
                    && order.price.scaled is Units && add.pricing->Provided_0.spec_units()
                    == order.price.scaled->Units_0
                &&& add.crossing == CrossingBehavior::HideIfCrossing || add.crossing
                    == CrossingBehavior::Rest
                &&& add.crossing == LegacyQtpRules::spec_crossing(
                    order.event_time.quote_time.spec_nanos() as int,
                )
            }
        }),
{
}

/// What keeps an order record from being read.
pub proof fn wrong_order_records_are_refused(
    order: OrderRecord,
    apply_sequence: ApplySequence,
    context: LegacyContext,
)
    ensures
        ({
            let priced = order.kind == RawOrderType::LimitPrice || order.kind
                == RawOrderType::ReverseBestPrice;
            let read = order_result(order, apply_sequence, context);
            &&& order.symbol@ != context.book_key.symbol@ ==> read is Err
            &&& order.side != RawOrderSide::Buy && order.side != RawOrderSide::Sell ==> read is Err
            &&& order.channel_no <= 0 || order.order_id <= 0 || order.sequence <= 0 ==> read is Err
            &&& priced && !(order.price.scaled is Units) ==> read is Err
            &&& priced ==> (order.price.scaled matches ScaledPrice::Units(units) ==> (units <= 0
                ==> read is Err))
            &&& order.kind != RawOrderType::Cancelled && order.quantity == 0 ==> read is Err
            &&& order.symbol@ == context.book_key.symbol@ && (order.side == RawOrderSide::Buy
                || order.side == RawOrderSide::Sell) && order.channel_no > 0 && order.order_id > 0
                && order.sequence > 0 && (priced ==> order.price.scaled is Units
                && order.price.scaled->Units_0 > 0) && (order.kind == RawOrderType::Cancelled
                || order.quantity > 0) ==> read is Ok
        }),
{
}

/// The order that an identifier names on a side: the one that was added under it; none where
/// the identifier is zero; an open reference where nothing was; an error where it stands for
/// more than one.
pub proof fn identifiers_name_their_order(
    raw_order_id: i64,
    side: Side,
    references: ReferenceIndexModel,
)
    ensures
        ({
            let named = reference_result(raw_order_id, side, references);
            let entries = match side {
                Side::Buy => references.buys,
                Side::Sell => references.sells,
            };
            let id = raw_order_id as u64;
            &&& raw_order_id == 0 ==> named == Ok::<OrderReference, NormalizeErrorModel>(
                OrderReference::Absent,
            )
            &&& raw_order_id < 0 ==> named is Err
            &&& raw_order_id > 0 && !entries.contains_key(id) ==> {
                &&& named is Ok
                &&& named->Ok_0 is Unresolved
                &&& named->Ok_0->side == side
                &&& named->Ok_0->order_id.spec_get() == raw_order_id
            }
            &&& raw_order_id > 0 && entries.contains_key(id) ==> match entries[id] {
                ReferenceEntry::Unique(key) => named == Ok::<OrderReference, NormalizeErrorModel>(
                    OrderReference::Resolved(key),
                ),
                ReferenceEntry::Ambiguous => named is Err,
            }
        }),
{
}

/// A trade record becomes a trade between the orders that its identifiers name, at its price
/// and with its quantity, or the cancellation of the one order that it names.
pub proof fn trade_records_become_their_event(
    trade: TradeRecord,
    apply_sequence: ApplySequence,
    context: LegacyContext,
    references: ReferenceIndexModel,
)
    requires
        trade_result(trade, apply_sequence, context, references) is Ok,
    ensures
        ({
            let event = trade_result(trade, apply_sequence, context, references)->Ok_0;
            let meta = if event is Trade {
                event->Trade_0.meta
            } else {
                event->OrderCancel_0.meta
            };
            &&& trade.symbol@ == context.book_key.symbol@
            &&& trade.channel_no > 0
            &&& trade.sequence > 0
            &&& carries(meta, context, trade.sequence, apply_sequence, trade.event_time)
            &&& event is OrderCancel <==> trade.kind == RawTradeType::Cancelled
            &&& event is Trade <==> trade.kind != RawTradeType::Cancelled
            &&& event matches BookEvent::Trade(done) ==> {
                &&& Ok::<OrderReference, NormalizeErrorModel>(done.bid_order) == reference_result(
                    trade.bid_order_id,
                    Side::Buy,
                    references,
                )
                &&& Ok::<OrderReference, NormalizeErrorModel>(done.ask_order) == reference_result(
                    trade.ask_order_id,
                    Side::Sell,
                    references,
                )
                &&& trade.price.scaled is Units
                &&& done.price.spec_units() == trade.price.scaled->Units_0
                &&& trade.price.scaled->Units_0 > 0
                &&& done.quantity.spec_get() == trade.quantity
                &&& trade.quantity > 0
            }
            &&& event matches BookEvent::OrderCancel(cancel) ==> {
                &&& trade.bid_order_id > 0 && trade.ask_order_id == 0 || trade.bid_order_id == 0
                    && trade.ask_order_id > 0
                &&& trade.ask_order_id == 0 ==> references.buys.contains_key(
                    trade.bid_order_id as u64,
                ) && references.buys[trade.bid_order_id as u64] == ReferenceEntry::Unique(
                    cancel.order_key,
                )
                &&& trade.bid_order_id == 0 ==> references.sells.contains_key(
                    trade.ask_order_id as u64,
                ) && references.sells[trade.ask_order_id as u64] == ReferenceEntry::Unique(
                    cancel.order_key,
                )
            }
        }),
{
}

/// A cancellation has to name one order that is known by its identifier.
pub proof fn cancellations_name_one_known_order(
    trade: TradeRecord,
    references: ReferenceIndexModel,
)
    ensures
        ({
            let target = target_result(trade, references);
            &&& trade.bid_order_id > 0 && trade.ask_order_id > 0 || trade.bid_order_id == 0
                && trade.ask_order_id == 0 ==> target == Err::<OrderKey, NormalizeErrorModel>(
                NormalizeErrorModel::AmbiguousCancellation,
            )
            &&& trade.bid_order_id > 0 && trade.ask_order_id == 0 && !references.buys.contains_key(
                trade.bid_order_id as u64,
            ) ==> target is Err
            &&& trade.bid_order_id == 0 && trade.ask_order_id > 0 && !references.sells.contains_key(
                trade.ask_order_id as u64,
            ) ==> target is Err
        }),
{
}

/// An order is registered on its own side under its own identifier; a second, other order under
/// the same one makes the identifier ambiguous. The other side is left alone.
pub proof fn orders_are_registered_on_their_side(index: ReferenceIndexModel, key: OrderKey)
    ensures
        ({
            let after = index.registered(key);
            let id = key.order_id.spec_get();
            let before = match key.side {
                Side::Buy => index.buys,
                Side::Sell => index.sells,
            };
            let entries = match key.side {
                Side::Buy => after.buys,
                Side::Sell => after.sells,
            };
            &&& key.side == Side::Buy ==> after.sells == index.sells
            &&& key.side == Side::Sell ==> after.buys == index.buys
            &&& entries.contains_key(id)
            &&& !before.contains_key(id) || before[id] == ReferenceEntry::Unique(key)
                ==> entries[id] == ReferenceEntry::Unique(key)
            &&& before.contains_key(id) && before[id] != ReferenceEntry::Unique(key) ==> entries[id]
                == ReferenceEntry::Ambiguous
            &&& forall|other: u64|
                other != id ==> (#[trigger] entries.contains_key(other) == before.contains_key(
                    other,
                )) && (before.contains_key(other) ==> entries[other] == before[other])
        }),
{
}

/// Sequences are positive and go up within a stream.
pub proof fn sequences_go_up(previous: Option<i64>, current: i64)
    ensures
        current <= 0 ==> sequence_kind(previous, current) == Some(
            (ReplayKindModel::InvalidRawSequence { value: current }),
        ),
        current > 0 ==> (previous matches Some(last) ==> (current <= last ==> sequence_kind(
            previous,
            current,
        ) == Some((ReplayKindModel::NonIncreasingSequence { previous: last, current })))),
        current > 0 && (previous matches Some(last) ==> last < current) ==> sequence_kind(
            previous,
            current,
        ) is None,
{
}

/// Of two records that wait, the one with the lower sequence comes first; where one stream is
/// at its end the other goes on.
pub proof fn lower_sequences_come_first(
    orders: Seq<OrderRecord>,
    trades: Seq<TradeRecord>,
    i: int,
    j: int,
)
    requires
        0 <= i <= orders.len(),
        0 <= j <= trades.len(),
    ensures
        i == orders.len() ==> !takes_order(orders, trades, i, j),
        i < orders.len() && j == trades.len() ==> takes_order(orders, trades, i, j),
        i < orders.len() && j < trades.len() && orders[i].sequence < trades[j].sequence
            ==> takes_order(orders, trades, i, j),
        i < orders.len() && j < trades.len() && trades[j].sequence < orders[i].sequence
            ==> !takes_order(orders, trades, i, j),
{
}

/// The same sequence in both streams is ambiguous and stops the run with both places; with
/// nothing left to read the run is at its end.
pub proof fn equal_sequences_are_ambiguous(
    replay: LegacyReplayModel,
    config: BookConfig,
    book: BookModel,
    orders: Seq<OrderRecord>,
    trades: Seq<TradeRecord>,
    i: int,
    j: int,
)
    requires
        0 <= i <= orders.len(),
        0 <= j <= trades.len(),
    ensures
        i < orders.len() && j < trades.len() && orders[i].sequence == trades[j].sequence ==> {
            let run = replay.merged(config, book, orders, trades, i, j);
            &&& run.book == book
            &&& run.replay == replay
            &&& run.error is Some
            &&& run.error->0.kind == (ReplayKindModel::AmbiguousSequence {
                sequence: orders[i].sequence,
            })
            &&& run.error->0.source == ReplaySource::Both
            &&& run.error->0.order_index == i
            &&& run.error->0.trade_index == j
        },
        i == orders.len() && j == trades.len() ==> {
            let run = replay.merged(config, book, orders, trades, i, j);
            run.error is None && run.book == book && run.replay == replay
        },
{
}

/// A record that is applied leaves its sequence as the last one of its stream; an addition is
/// registered, anything else leaves the register alone.
pub proof fn applied_records_are_remembered(
    replay: LegacyReplayModel,
    event: BookEvent,
    record: MarketDataRecord,
)
    ensures
        ({
            let sequence = match record {
                MarketDataRecord::Order(order) => order.sequence,
                MarketDataRecord::Trade(trade) => trade.sequence,
            };
            let ordered = replay.advanced(ReplaySource::Order, record);
            let traded = replay.advanced(ReplaySource::Trade, record);
            &&& ordered.last_order_sequence == Some(sequence)
            &&& ordered.last_trade_sequence == replay.last_trade_sequence
            &&& traded.last_trade_sequence == Some(sequence)
            &&& traded.last_order_sequence == replay.last_order_sequence
            &&& ordered.references == replay.references && traded.references == replay.references
            &&& event matches BookEvent::AddOrder(add) ==> replay.noted(event).references
                == replay.references.registered(add.order_key)
            &&& !(event is AddOrder) ==> replay.noted(event) == replay
        }),
{
}

/// A record that is accepted is read with the next number of the book and applied to it.
pub proof fn accepted_records_are_applied(
    replay: LegacyReplayModel,
    config: BookConfig,
    book: BookModel,
    source: ReplaySource,
    record: MarketDataRecord,
    order_index: int,
    trade_index: int,
)
    requires
        replay.applied(config, book, source, record, order_index, trade_index).error is None,
    ensures
        ({
            let run = replay.applied(config, book, source, record, order_index, trade_index);
            let number = match book.last_meta {
                None => 1,
                Some(meta) => meta.apply_sequence.spec_get() + 1,
            };
            exists|apply: ApplySequence|
                {
                    &&& apply.spec_get() == number
                    &&& #[trigger] normalized(record, apply, replay.context, replay.references)
                        is Ok
                    &&& book.apply_error(
                        config,
                        normalized(record, apply, replay.context, replay.references)->Ok_0,
                    ) is None
                    &&& run.book == book.apply_next(
                        normalized(record, apply, replay.context, replay.references)->Ok_0,
                    )
                }
        }),
{
    reveal(LegacyReplayModel::applied);
    let apply = super::replay::next_apply(book)->0;
    assert(normalized(record, apply, replay.context, replay.references) is Ok);
}

/// What keeps a trade record from being read: another symbol, a channel or a sequence that is
/// not positive; of a trade, that it has no quantity, names an order that cannot be told, or has
/// no positive price in whole units; of a cancellation, that it does not name one known order.
pub proof fn wrong_trade_records_are_refused(
    trade: TradeRecord,
    apply_sequence: ApplySequence,
    context: LegacyContext,
    references: ReferenceIndexModel,
)
    ensures
        ({
            let bid = OrderId::spec_new(trade.bid_order_id as u64);
            let ask = OrderId::spec_new(trade.ask_order_id as u64);
            trade_result(trade, apply_sequence, context, references) is Ok <==> {
                &&& trade.symbol@ == context.book_key.symbol@
                &&& trade.channel_no >= 1
                &&& trade.sequence >= 1
                &&& trade.kind == RawTradeType::Cancelled ==> {
                    ||| trade.bid_order_id >= 1 && trade.ask_order_id == 0 && references.resolution(
                        Side::Buy,
                        bid,
                    ) is Unique
                    ||| trade.bid_order_id == 0 && trade.ask_order_id >= 1 && references.resolution(
                        Side::Sell,
                        ask,
                    ) is Unique
                }
                &&& trade.kind != RawTradeType::Cancelled ==> {
                    &&& trade.quantity >= 1
                    &&& trade.bid_order_id >= 0
                    &&& trade.ask_order_id >= 0
                    &&& trade.bid_order_id >= 1 ==> !(references.resolution(Side::Buy, bid)
                        is Ambiguous)
                    &&& trade.ask_order_id >= 1 ==> !(references.resolution(Side::Sell, ask)
                        is Ambiguous)
                    &&& trade.price.scaled is Units
                    &&& trade.price.scaled->Units_0 >= 1
                }
            }
        }),
{
}

/// A stream is read where its sequences are positive, go up, and come behind the last one; what
/// is wrong is told with the place of the first record at which it is.
pub proof fn streams_go_up(
    records: Seq<MarketDataRecord>,
    previous: Option<i64>,
    source: ReplaySource,
    at: int,
)
    requires
        0 <= at <= records.len(),
        source == ReplaySource::Order || source == ReplaySource::Trade,
    ensures
        match stream_error(records, previous, source, at) {
            None => {
                &&& forall|k: int|
                    at <= k < records.len() ==> sequence_of(#[trigger] records[k]) >= 1
                &&& forall|k: int, l: int|
                    at <= k < l < records.len() ==> sequence_of(#[trigger] records[k])
                        < sequence_of(#[trigger] records[l])
                &&& previous is Some ==> forall|k: int|
                    at <= k < records.len() ==> previous->0 < sequence_of(#[trigger] records[k])
            },
            Some(error) => {
                let place = if source == ReplaySource::Order {
                    error.order_index
                } else {
                    error.trade_index
                };
                let last = if place == at {
                    previous
                } else {
                    Some(sequence_of(records[place - 1]))
                };
                let current = sequence_of(records[place]);
                &&& at <= place < records.len()
                &&& error.source == source
                &&& error.record == Some(records[place])
                &&& error.apply_sequence is None
                &&& source == ReplaySource::Order ==> error.trade_index == 0
                &&& source == ReplaySource::Trade ==> error.order_index == 0
                &&& current <= 0 || (last is Some && current <= last->0)
                &&& forall|k: int|
                    at <= k < place ==> sequence_of(#[trigger] records[k]) >= 1
                &&& forall|k: int, l: int|
                    at <= k < l < place ==> sequence_of(#[trigger] records[k]) < sequence_of(
                        #[trigger] records[l],
                    )
            },
        },
    decreases records.len() - at,
{
    if at < records.len() {
        let current = sequence_of(records[at]);
        if sequence_kind(previous, current) is None {
            streams_go_up(records, Some(current), source, at + 1);
        }
    }
}

/// The sequence of a record, whatever it is.
pub open spec fn sequence_of(record: MarketDataRecord) -> i64 {
    match record {
        MarketDataRecord::Order(order) => order.sequence,
        MarketDataRecord::Trade(trade) => trade.sequence,
    }
}

/// A replay goes into a book of its own instrument and scale, which has to be untouched where
/// the replay begins; else nothing is done, and the whole call is at fault.
pub proof fn replays_keep_to_their_book(
    replay: LegacyReplayModel,
    config: BookConfig,
    book: BookModel,
    orders: Seq<OrderRecord>,
    trades: Seq<TradeRecord>,
)
    ensures
        ({
            let own = config.book_key.spec_same(replay.context.book_key) && config.price_scale
                == replay.context.price_scale;
            let untouched = replay.started || book.last_meta is None;
            let run = replay.replayed(config, book, orders, trades);
            &&& replay.context_error(config, book) is None <==> own && untouched
            &&& !own || !untouched ==> {
                &&& run.replay == replay
                &&& run.book == book
                &&& run.error is Some
                &&& run.error->0.source == ReplaySource::Both
                &&& run.error->0.record is None
                &&& run.error->0.kind == if own {
                    ReplayKindModel::NonEmptyBook
                } else {
                    ReplayKindModel::ContextMismatch
                }
            }
        }),
{
}

/// Where a stream of records is out of order, nothing of the call is applied.
pub proof fn streams_are_checked_first(
    replay: LegacyReplayModel,
    config: BookConfig,
    book: BookModel,
    orders: Seq<OrderRecord>,
    trades: Seq<TradeRecord>,
)
    requires
        replay.context_error(config, book) is None,
    ensures
        ({
            let first = stream_error(
                order_records(orders),
                replay.last_order_sequence,
                ReplaySource::Order,
                0,
            );
            let second = stream_error(
                trade_records(trades),
                replay.last_trade_sequence,
                ReplaySource::Trade,
                0,
            );
            let run = replay.replayed(config, book, orders, trades);
            &&& first is Some ==> run.error == first
            &&& first is None && second is Some ==> run.error == second
            &&& first is Some || second is Some ==> run.book == book && run.replay == replay
            &&& order_records(orders).len() == orders.len()
            &&& trade_records(trades).len() == trades.len()
            &&& forall|k: int|
                0 <= k < orders.len() ==> sequence_of(#[trigger] order_records(orders)[k])
                    == orders[k].sequence
            &&& forall|k: int|
                0 <= k < trades.len() ==> sequence_of(#[trigger] trade_records(trades)[k])
                    == trades[k].sequence
        }),
{
}

} // verus!
