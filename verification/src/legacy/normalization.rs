use vstd::prelude::*;
use vstd::string::StringExecFns;

use crate::market_data::{
    AddOrder, ApplySequence, BookEvent, BookKey, ChannelId, EventMeta, LegacySteadyTimestampNs,
    MarketDataRecord, OrderCancel, OrderId, OrderKey, OrderRecord, OrderReference, Price, PriceScale,
    PricingInstruction, Quantity, RawEventTime, RawOrderSide, RawOrderType, RawPrice, RawSequence,
    RawTradeType, ScaledPrice, Side, Symbol, Trade, TradeRecord,
};

use super::references::{OrderReferenceIndex, ReferenceIndexModel, Resolution};
use super::rules::LegacyQtpRules;

verus! {

/// Context supplied by the caller rather than inferred from legacy records.
#[derive(Debug, PartialEq, Eq)]
pub struct LegacyContext {
    pub book_key: BookKey,
    pub price_scale: PriceScale,
}

impl Clone for LegacyContext {
    fn clone(&self) -> (r: Self)
        ensures
            r == *self,
    {
        LegacyContext { book_key: self.book_key.clone(), price_scale: self.price_scale }
    }
}

/// Why a record is no event of its book. Prices are given by the bits of their floating-point
/// number.
#[derive(Debug, PartialEq, Eq)]
#[allow(inconsistent_fields)]
pub enum NormalizeError {
    SymbolMismatch { expected: String, actual: String },
    UnsupportedOrderSide(RawOrderSide),
    NonPositiveSigned { field: &'static str, value: i64 },
    ZeroUnsigned { field: &'static str },
    InvalidPrice(u64),
    MisalignedPrice { price: u64 },
    PriceOverflow { price: u64 },
    AmbiguousCancellation,
    AmbiguousOrderReference { side: Side, order_id: OrderId },
    UnresolvedCancellation { side: Side, order_id: OrderId },
}

/// Why a record is no event of its book, with texts as sequences of characters.
#[allow(inconsistent_fields)]
pub enum NormalizeErrorModel {
    SymbolMismatch { expected: Seq<char>, actual: Seq<char> },
    UnsupportedOrderSide(RawOrderSide),
    NonPositiveSigned { field: Seq<char>, value: i64 },
    ZeroUnsigned { field: Seq<char> },
    InvalidPrice(u64),
    MisalignedPrice { price: u64 },
    PriceOverflow { price: u64 },
    AmbiguousCancellation,
    AmbiguousOrderReference { side: Side, order_id: OrderId },
    UnresolvedCancellation { side: Side, order_id: OrderId },
}

impl View for NormalizeError {
    type V = NormalizeErrorModel;

    open spec fn view(&self) -> NormalizeErrorModel {
        match *self {
            NormalizeError::SymbolMismatch { expected, actual } =>
                NormalizeErrorModel::SymbolMismatch { expected: expected@, actual: actual@ },
            NormalizeError::UnsupportedOrderSide(side) =>
                NormalizeErrorModel::UnsupportedOrderSide(side),
            NormalizeError::NonPositiveSigned { field, value } =>
                NormalizeErrorModel::NonPositiveSigned { field: field@, value },
            NormalizeError::ZeroUnsigned { field } => NormalizeErrorModel::ZeroUnsigned {
                field: field@,
            },
            NormalizeError::InvalidPrice(price) => NormalizeErrorModel::InvalidPrice(price),
            NormalizeError::MisalignedPrice { price } => NormalizeErrorModel::MisalignedPrice {
                price,
            },
            NormalizeError::PriceOverflow { price } => NormalizeErrorModel::PriceOverflow { price },
            NormalizeError::AmbiguousCancellation => NormalizeErrorModel::AmbiguousCancellation,
            NormalizeError::AmbiguousOrderReference { side, order_id } =>
                NormalizeErrorModel::AmbiguousOrderReference { side, order_id },
            NormalizeError::UnresolvedCancellation { side, order_id } =>
                NormalizeErrorModel::UnresolvedCancellation { side, order_id },
        }
    }
}

pub open spec fn symbol_error(actual: Symbol, context: LegacyContext) -> Option<
    NormalizeErrorModel,
> {
    if actual@ == context.book_key.symbol@ {
        None
    } else {
        Some(
            NormalizeErrorModel::SymbolMismatch {
                expected: context.book_key.symbol@,
                actual: actual@,
            },
        )
    }
}

pub open spec fn positive_error(field: Seq<char>, value: int) -> Option<NormalizeErrorModel> {
    if value > 0 {
        None
    } else {
        Some(NormalizeErrorModel::NonPositiveSigned { field, value: value as i64 })
    }
}

/// The side of an order.
pub open spec fn side_result(side: RawOrderSide) -> Result<Side, NormalizeErrorModel> {
    match side {
        RawOrderSide::Buy => Ok(Side::Buy),
        RawOrderSide::Sell => Ok(Side::Sell),
        _ => Err(NormalizeErrorModel::UnsupportedOrderSide(side)),
    }
}

/// The price of a record in units of its book.
pub open spec fn price_result(price: RawPrice) -> Result<Price, NormalizeErrorModel> {
    match price.scaled {
        ScaledPrice::Units(units) => if units > 0 {
            Ok(Price::spec_new(units))
        } else {
            Err(NormalizeErrorModel::InvalidPrice(price.bits))
        },
        ScaledPrice::Invalid => Err(NormalizeErrorModel::InvalidPrice(price.bits)),
        ScaledPrice::Overflow => Err(NormalizeErrorModel::PriceOverflow { price: price.bits }),
        ScaledPrice::Misaligned => Err(
            NormalizeErrorModel::MisalignedPrice { price: price.bits },
        ),
    }
}

pub open spec fn event_meta(
    context: LegacyContext,
    sequence: i64,
    apply_sequence: ApplySequence,
    time: RawEventTime,
) -> EventMeta {
    EventMeta {
        book_key: context.book_key,
        raw_sequence: RawSequence::spec_new(sequence as u64),
        apply_sequence,
        local_time: time.local_time,
        quote_time: time.quote_time,
    }
}

/// The price instruction of an order, which a cancellation does not have.
pub open spec fn pricing_result(order: OrderRecord) -> Result<
    Option<PricingInstruction>,
    NormalizeErrorModel,
> {
    match order.kind {
        RawOrderType::LimitPrice | RawOrderType::ReverseBestPrice => match price_result(
            order.price,
        ) {
            Ok(price) => Ok(Some(PricingInstruction::Provided(price))),
            Err(error) => Err(error),
        },
        RawOrderType::MarketPrice => Ok(Some(PricingInstruction::OppositeBest)),
        RawOrderType::ForwardBestPrice => Ok(Some(PricingInstruction::SameSideBest)),
        RawOrderType::Cancelled => Ok(None),
    }
}

/// The event of an order record.
pub open spec fn order_result(
    order: OrderRecord,
    apply_sequence: ApplySequence,
    context: LegacyContext,
) -> Result<BookEvent, NormalizeErrorModel> {
    let side = side_result(order.side);
    let channel = positive_error("channel_no"@, order.channel_no as int);
    let id = positive_error("order_id"@, order.order_id as int);
    let sequence = positive_error("sequence"@, order.sequence as int);
    let pricing = pricing_result(order);
    let order_key = OrderKey {
        channel_id: ChannelId::spec_new(order.channel_no as u32),
        side: side->Ok_0,
        order_id: OrderId::spec_new(order.order_id as u64),
    };
    let meta = event_meta(context, order.sequence, apply_sequence, order.event_time);
    if symbol_error(order.symbol, context) is Some {
        Err(symbol_error(order.symbol, context)->0)
    } else if side is Err {
        Err(side->Err_0)
    } else if channel is Some {
        Err(channel->0)
    } else if id is Some {
        Err(id->0)
    } else if sequence is Some {
        Err(sequence->0)
    } else if pricing is Err {
        Err(pricing->Err_0)
    } else if pricing->Ok_0 is None {
        Ok(BookEvent::OrderCancel(OrderCancel { meta, order_key }))
    } else if order.quantity == 0 {
        Err(NormalizeErrorModel::ZeroUnsigned { field: "quantity"@ })
    } else {
        Ok(
            BookEvent::AddOrder(
                AddOrder {
                    meta,
                    order_key,
                    pricing: pricing->Ok_0->0,
                    crossing: LegacyQtpRules::spec_crossing(
                        order.event_time.quote_time.spec_nanos() as int,
                    ),
                    quantity: Quantity::spec_new(order.quantity),
                },
            ),
        )
    }
}

/// One side of a trade.
pub open spec fn reference_result(
    raw_order_id: i64,
    side: Side,
    references: ReferenceIndexModel,
) -> Result<OrderReference, NormalizeErrorModel> {
    let order_id = OrderId::spec_new(raw_order_id as u64);
    if raw_order_id == 0 {
        Ok(OrderReference::Absent)
    } else if raw_order_id < 0 {
        Err(
            NormalizeErrorModel::NonPositiveSigned {
                field: "trade order reference"@,
                value: raw_order_id,
            },
        )
    } else {
        match references.resolution(side, order_id) {
            Resolution::Missing => Ok(OrderReference::Unresolved { side, order_id }),
            Resolution::Unique(key) => Ok(OrderReference::Resolved(key)),
            Resolution::Ambiguous => Err(
                NormalizeErrorModel::AmbiguousOrderReference { side, order_id },
            ),
        }
    }
}

/// The order that a cancellation takes back.
pub open spec fn target_result(trade: TradeRecord, references: ReferenceIndexModel) -> Result<
    OrderKey,
    NormalizeErrorModel,
> {
    let bid = trade.bid_order_id > 0 && trade.ask_order_id == 0;
    let ask = trade.bid_order_id == 0 && trade.ask_order_id > 0;
    let side = if bid {
        Side::Buy
    } else {
        Side::Sell
    };
    let order_id = OrderId::spec_new(
        if bid {
            trade.bid_order_id as u64
        } else {
            trade.ask_order_id as u64
        },
    );
    if !bid && !ask {
        Err(NormalizeErrorModel::AmbiguousCancellation)
    } else {
        match references.resolution(side, order_id) {
            Resolution::Unique(key) => Ok(key),
            Resolution::Missing => Err(
                NormalizeErrorModel::UnresolvedCancellation { side, order_id },
            ),
            Resolution::Ambiguous => Err(
                NormalizeErrorModel::AmbiguousOrderReference { side, order_id },
            ),
        }
    }
}

/// The event of a trade record.
pub open spec fn trade_result(
    trade: TradeRecord,
    apply_sequence: ApplySequence,
    context: LegacyContext,
    references: ReferenceIndexModel,
) -> Result<BookEvent, NormalizeErrorModel> {
    let channel = positive_error("channel_no"@, trade.channel_no as int);
    let sequence = positive_error("sequence"@, trade.sequence as int);
    let meta = event_meta(context, trade.sequence, apply_sequence, trade.event_time);
    let target = target_result(trade, references);
    let bid = reference_result(trade.bid_order_id, Side::Buy, references);
    let ask = reference_result(trade.ask_order_id, Side::Sell, references);
    let price = price_result(trade.price);
    if symbol_error(trade.symbol, context) is Some {
        Err(symbol_error(trade.symbol, context)->0)
    } else if channel is Some {
        Err(channel->0)
    } else if sequence is Some {
        Err(sequence->0)
    } else if trade.kind == RawTradeType::Cancelled {
        match target {
            Ok(order_key) => Ok(BookEvent::OrderCancel(OrderCancel { meta, order_key })),
            Err(error) => Err(error),
        }
    } else if trade.quantity == 0 {
        Err(NormalizeErrorModel::ZeroUnsigned { field: "quantity"@ })
    } else if bid is Err {
        Err(bid->Err_0)
    } else if ask is Err {
        Err(ask->Err_0)
    } else if price is Err {
        Err(price->Err_0)
    } else {
        Ok(
            BookEvent::Trade(
                Trade {
                    meta,
                    bid_order: bid->Ok_0,
                    ask_order: ask->Ok_0,
                    price: price->Ok_0,
                    quantity: Quantity::spec_new(trade.quantity),
                },
            ),
        )
    }
}

/// The event of a record.
pub open spec fn normalized(
    record: MarketDataRecord,
    apply_sequence: ApplySequence,
    context: LegacyContext,
    references: ReferenceIndexModel,
) -> Result<BookEvent, NormalizeErrorModel> {
    match record {
        MarketDataRecord::Order(order) => order_result(order, apply_sequence, context),
        MarketDataRecord::Trade(trade) => trade_result(trade, apply_sequence, context, references),
    }
}

fn validate_symbol(actual: &Symbol, context: &LegacyContext) -> (r: Result<(), NormalizeError>)
    ensures
        match symbol_error(*actual, *context) {
            Some(error) => r is Err && r->Err_0@ == error,
            None => r is Ok,
        },
{
    if actual.same(&context.book_key.symbol) {
        Ok(())
    } else {
        Err(
            NormalizeError::SymbolMismatch {
                expected: String::from_str(context.book_key.symbol.as_str()),
                actual: String::from_str(actual.as_str()),
            },
        )
    }
}

fn normalize_side(side: RawOrderSide) -> (r: Result<Side, NormalizeError>)
    ensures
        match side_result(side) {
            Ok(side) => r == Ok::<Side, NormalizeError>(side),
            Err(error) => r is Err && r->Err_0@ == error,
        },
{
    match side {
        RawOrderSide::Buy => Ok(Side::Buy),
        RawOrderSide::Sell => Ok(Side::Sell),
        RawOrderSide::Borrow | RawOrderSide::Loan => Err(
            NormalizeError::UnsupportedOrderSide(side),
        ),
    }
}

fn non_positive(field: &'static str, value: i64) -> (r: NormalizeError)
    ensures
        r@ == (NormalizeErrorModel::NonPositiveSigned { field: field@, value }),
{
    NormalizeError::NonPositiveSigned { field, value }
}

fn positive_channel(field: &'static str, value: i32) -> (r: Result<ChannelId, NormalizeError>)
    ensures
        match positive_error(field@, value as int) {
            Some(error) => r is Err && r->Err_0@ == error,
            None => r == Ok::<ChannelId, NormalizeError>(ChannelId::spec_new(value as u32)),
        },
{
    if value <= 0 {
        return Err(non_positive(field, value as i64));
    }
    match ChannelId::new(value as u32) {
        Some(channel) => Ok(channel),
        None => Err(non_positive(field, value as i64)),
    }
}

fn positive_order(field: &'static str, value: i64) -> (r: Result<OrderId, NormalizeError>)
    ensures
        match positive_error(field@, value as int) {
            Some(error) => r is Err && r->Err_0@ == error,
            None => r == Ok::<OrderId, NormalizeError>(OrderId::spec_new(value as u64)),
        },
{
    if value <= 0 {
        return Err(non_positive(field, value));
    }
    match OrderId::new(value as u64) {
        Some(id) => Ok(id),
        None => Err(non_positive(field, value)),
    }
}

fn positive_sequence(field: &'static str, value: i64) -> (r: Result<RawSequence, NormalizeError>)
    ensures
        match positive_error(field@, value as int) {
            Some(error) => r is Err && r->Err_0@ == error,
            None => r == Ok::<RawSequence, NormalizeError>(RawSequence::spec_new(value as u64)),
        },
{
    if value <= 0 {
        return Err(non_positive(field, value));
    }
    match RawSequence::new(value as u64) {
        Some(sequence) => Ok(sequence),
        None => Err(non_positive(field, value)),
    }
}

fn normalize_price(price: RawPrice) -> (r: Result<Price, NormalizeError>)
    ensures
        match price_result(price) {
            Ok(price) => r == Ok::<Price, NormalizeError>(price),
            Err(error) => r is Err && r->Err_0@ == error,
        },
{
    match price.scaled {
        ScaledPrice::Units(units) => match Price::from_units(units) {
            Some(price) => Ok(price),
            None => Err(NormalizeError::InvalidPrice(price.bits)),
        },
        ScaledPrice::Invalid => Err(NormalizeError::InvalidPrice(price.bits)),
        ScaledPrice::Overflow => Err(NormalizeError::PriceOverflow { price: price.bits }),
        ScaledPrice::Misaligned => Err(NormalizeError::MisalignedPrice { price: price.bits }),
    }
}

fn normalize_order(order: &OrderRecord, apply_sequence: ApplySequence, context: &LegacyContext) -> (r:
    Result<BookEvent, NormalizeError>)
    ensures
        match order_result(*order, apply_sequence, *context) {
            Ok(event) => r == Ok::<BookEvent, NormalizeError>(event),
            Err(error) => r is Err && r->Err_0@ == error,
        },
{
    match validate_symbol(&order.symbol, context) {
        Ok(()) => {},
        Err(error) => return Err(error),
    }
    let side = match normalize_side(order.side) {
        Ok(side) => side,
        Err(error) => return Err(error),
    };
    let channel_id = match positive_channel("channel_no", order.channel_no) {
        Ok(channel) => channel,
        Err(error) => return Err(error),
    };
    let order_id = match positive_order("order_id", order.order_id) {
        Ok(id) => id,
        Err(error) => return Err(error),
    };
    let raw_sequence = match positive_sequence("sequence", order.sequence) {
        Ok(sequence) => sequence,
        Err(error) => return Err(error),
    };
    let order_key = OrderKey { channel_id, side, order_id };
    let meta = EventMeta {
        book_key: context.book_key.clone(),
        raw_sequence,
        apply_sequence,
        local_time: order.event_time.local_time,
        quote_time: order.event_time.quote_time,
    };
    let pricing = match order.kind {
        RawOrderType::LimitPrice | RawOrderType::ReverseBestPrice => match normalize_price(
            order.price,
        ) {
            Ok(price) => PricingInstruction::Provided(price),
            Err(error) => return Err(error),
        },
        RawOrderType::MarketPrice => PricingInstruction::OppositeBest,
        RawOrderType::ForwardBestPrice => PricingInstruction::SameSideBest,
        RawOrderType::Cancelled => {
            return Ok(BookEvent::OrderCancel(OrderCancel { meta, order_key }));
        },
    };
    match Quantity::new(order.quantity) {
        Some(quantity) => Ok(
            BookEvent::AddOrder(
                AddOrder {
                    meta,
                    order_key,
                    pricing,
                    crossing: LegacyQtpRules::crossing_behavior(order.event_time.quote_time),
                    quantity,
                },
            ),
        ),
        None => Err(NormalizeError::ZeroUnsigned { field: "quantity" }),
    }
}

fn trade_reference(raw_order_id: i64, side: Side, references: &OrderReferenceIndex) -> (r: Result<
    OrderReference,
    NormalizeError,
>)
    ensures
        match reference_result(raw_order_id, side, references@) {
            Ok(reference) => r == Ok::<OrderReference, NormalizeError>(reference),
            Err(error) => r is Err && r->Err_0@ == error,
        },
{
    if raw_order_id == 0 {
        return Ok(OrderReference::Absent);
    }
    let order_id = match positive_order("trade order reference", raw_order_id) {
        Ok(id) => id,
        Err(error) => return Err(error),
    };
    match references.resolve(side, order_id) {
        Resolution::Missing => Ok(OrderReference::Unresolved { side, order_id }),
        Resolution::Unique(key) => Ok(OrderReference::Resolved(key)),
        Resolution::Ambiguous => Err(NormalizeError::AmbiguousOrderReference { side, order_id }),
    }
}

fn cancellation_target(trade: &TradeRecord, references: &OrderReferenceIndex) -> (r: Result<
    OrderKey,
    NormalizeError,
>)
    ensures
        match target_result(*trade, references@) {
            Ok(key) => r == Ok::<OrderKey, NormalizeError>(key),
            Err(error) => r is Err && r->Err_0@ == error,
        },
{
    let (side, raw_order_id) = if trade.bid_order_id > 0 && trade.ask_order_id == 0 {
        (Side::Buy, trade.bid_order_id)
    } else if trade.bid_order_id == 0 && trade.ask_order_id > 0 {
        (Side::Sell, trade.ask_order_id)
    } else {
        return Err(NormalizeError::AmbiguousCancellation);
    };
    let order_id = match positive_order("cancellation order reference", raw_order_id) {
        Ok(id) => id,
        Err(error) => return Err(error),
    };
    match references.resolve(side, order_id) {
        Resolution::Unique(key) => Ok(key),
        Resolution::Missing => Err(NormalizeError::UnresolvedCancellation { side, order_id }),
        Resolution::Ambiguous => Err(NormalizeError::AmbiguousOrderReference { side, order_id }),
    }
}

fn normalize_trade(
    trade: &TradeRecord,
    apply_sequence: ApplySequence,
    context: &LegacyContext,
    references: &OrderReferenceIndex,
) -> (r: Result<BookEvent, NormalizeError>)
    ensures
        match trade_result(*trade, apply_sequence, *context, references@) {
            Ok(event) => r == Ok::<BookEvent, NormalizeError>(event),
            Err(error) => r is Err && r->Err_0@ == error,
        },
{
    match validate_symbol(&trade.symbol, context) {
        Ok(()) => {},
        Err(error) => return Err(error),
    }
    match positive_channel("channel_no", trade.channel_no) {
        Ok(_) => {},
        Err(error) => return Err(error),
    }
    let raw_sequence = match positive_sequence("sequence", trade.sequence) {
        Ok(sequence) => sequence,
        Err(error) => return Err(error),
    };
    let meta = EventMeta {
        book_key: context.book_key.clone(),
        raw_sequence,
        apply_sequence,
        local_time: trade.event_time.local_time,
        quote_time: trade.event_time.quote_time,
    };
    if trade.kind == RawTradeType::Cancelled {
        return match cancellation_target(trade, references) {
            Ok(order_key) => Ok(BookEvent::OrderCancel(OrderCancel { meta, order_key })),
            Err(error) => Err(error),
        };
    }
    let quantity = match Quantity::new(trade.quantity) {
        Some(quantity) => quantity,
        None => return Err(NormalizeError::ZeroUnsigned { field: "quantity" }),
    };
    let bid_order = match trade_reference(trade.bid_order_id, Side::Buy, references) {
        Ok(reference) => reference,
        Err(error) => return Err(error),
    };
    let ask_order = match trade_reference(trade.ask_order_id, Side::Sell, references) {
        Ok(reference) => reference,
        Err(error) => return Err(error),
    };
    let price = match normalize_price(trade.price) {
        Ok(price) => price,
        Err(error) => return Err(error),
    };
    Ok(BookEvent::Trade(Trade { meta, bid_order, ask_order, price, quantity }))
}

/// Converts a raw QTP record into one deterministic book event.
pub fn normalize(
    record: &MarketDataRecord,
    apply_sequence: ApplySequence,
    context: &LegacyContext,
    references: &OrderReferenceIndex,
) -> (r: Result<BookEvent, NormalizeError>)
    ensures
        match normalized(*record, apply_sequence, *context, references@) {
            Ok(event) => r == Ok::<BookEvent, NormalizeError>(event),
            Err(error) => r is Err && r->Err_0@ == error,
        },
{
    match record {
        MarketDataRecord::Order(order) => normalize_order(order, apply_sequence, context),
        MarketDataRecord::Trade(trade) => normalize_trade(
            trade,
            apply_sequence,
            context,
            references,
        ),
    }
}

/// A record with another steady time.
pub open spec fn with_steady_time(
    record: MarketDataRecord,
    steady_time: Option<LegacySteadyTimestampNs>,
) -> MarketDataRecord {
    match record {
        MarketDataRecord::Order(order) => MarketDataRecord::Order(
            OrderRecord { event_time: RawEventTime { steady_time, ..order.event_time }, ..order },
        ),
        MarketDataRecord::Trade(trade) => MarketDataRecord::Trade(
            TradeRecord { event_time: RawEventTime { steady_time, ..trade.event_time }, ..trade },
        ),
    }
}

/// A steady time has no influence on the event of a record, be it an order or a trade.
pub proof fn steady_time_is_ignored(
    record: MarketDataRecord,
    steady_time: Option<LegacySteadyTimestampNs>,
    apply_sequence: ApplySequence,
    context: LegacyContext,
    references: ReferenceIndexModel,
)
    ensures
        normalized(
            with_steady_time(record, steady_time),
            apply_sequence,
            context,
            references,
        ) == normalized(record, apply_sequence, context, references),
{
}

} // verus!
