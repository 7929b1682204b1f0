use vstd::prelude::*;
use vstd::string::StringExecFns;

use crate::market_data::{ApplySequence, BookKey, Market, OrderId, OrderKey, Price, Side};
use crate::text::{i64_text, int_text, nat_text, quoted, quoted_text, u64_text};

verus! {

/// Why an event was refused. A refused event leaves the book as it was.
#[derive(Debug, PartialEq, Eq)]
#[allow(inconsistent_fields)]
pub enum BookError {
    BookKeyMismatch { expected: BookKey, actual: BookKey },
    InvalidApplySequence { expected: ApplySequence, actual: ApplySequence },
    ApplySequenceOverflow,
    DuplicateOrder(OrderKey),
    ReferencePriceUnavailable { side: Side, instruction: &'static str },
    /// An order that is to be visible has no price.
    UnpricedVisibleOrder,
    UnknownCancellation(OrderKey),
    InvalidTradeReferenceSide { expected: Side, actual: Side },
    UnknownTradeReference { side: Side, order_id: OrderId },
    TradeOverfill { key: OrderKey, remaining: u64, trade: u64 },
    ArithmeticOverflow(&'static str),
    ArithmeticUnderflow(&'static str),
    InvariantViolation(&'static str),
    MissingPriceLevel { side: Side, price: Price },
}

/// The name of a side.
pub open spec fn side_text(side: Side) -> Seq<char> {
    match side {
        Side::Buy => "Buy"@,
        Side::Sell => "Sell"@,
    }
}

/// The name of a side.
pub fn side_name(side: Side) -> (r: &'static str)
    ensures
        r@ == side_text(side),
{
    match side {
        Side::Buy => "Buy",
        Side::Sell => "Sell",
    }
}

/// The name of an exchange.
pub open spec fn market_text(market: Market) -> Seq<char> {
    match market {
        Market::Sse => "Sse"@,
        Market::Szse => "Szse"@,
    }
}

/// The name of an exchange.
pub fn market_name(market: Market) -> (r: &'static str)
    ensures
        r@ == market_text(market),
{
    match market {
        Market::Sse => "Sse",
        Market::Szse => "Szse",
    }
}

/// An order key spelled out.
pub open spec fn order_key_text(key: OrderKey) -> Seq<char> {
    "OrderKey { channel_id: ChannelId("@ + nat_text(key.channel_id.spec_get() as nat)
        + "), side: "@ + side_text(key.side) + ", order_id: OrderId("@ + nat_text(
        key.order_id.spec_get() as nat,
    ) + ") }"@
}

/// An order key spelled out.
pub fn order_key_name(key: OrderKey) -> (r: String)
    ensures
        r@ == order_key_text(key),
{
    let mut r = String::from_str("OrderKey { channel_id: ChannelId(");
    r.append(u64_text(key.channel_id.get() as u64).as_str());
    r.append("), side: ");
    r.append(side_name(key.side));
    r.append(", order_id: OrderId(");
    r.append(u64_text(key.order_id.get()).as_str());
    r.append(") }");
    r
}

/// A book key spelled out.
pub open spec fn book_key_text(key: BookKey) -> Seq<char> {
    "BookKey { market: "@ + market_text(key.market) + ", trading_day: TradingDay("@ + nat_text(
        key.trading_day.spec_value() as nat,
    ) + "), symbol: Symbol("@ + quoted_text(key.symbol@) + ") }"@
}

/// A book key spelled out.
pub fn book_key_name(key: &BookKey) -> (r: String)
    ensures
        r@ == book_key_text(*key),
{
    let mut r = String::from_str("BookKey { market: ");
    r.append(market_name(key.market));
    r.append(", trading_day: TradingDay(");
    r.append(u64_text(key.trading_day.as_yyyymmdd() as u64).as_str());
    r.append("), symbol: Symbol(");
    r.append(quoted(key.symbol.as_str()).as_str());
    r.append(") }");
    r
}

impl BookError {
    /// What the error says.
    pub open spec fn text(self) -> Seq<char> {
        match self {
            BookError::BookKeyMismatch { expected, actual } => "event belongs to "@
                + book_key_text(actual) + ", expected "@ + book_key_text(expected),
            BookError::InvalidApplySequence { expected, actual } =>
                "expected apply sequence ApplySequence("@ + nat_text(expected.spec_get() as nat)
                + "), got ApplySequence("@ + nat_text(actual.spec_get() as nat) + ")"@,
            BookError::ApplySequenceOverflow => "apply sequence overflow"@,
            BookError::DuplicateOrder(key) => "order key has already been used: "@
                + order_key_text(key),
            BookError::ReferencePriceUnavailable { side, instruction } =>
                "reference price is unavailable for "@ + side_text(side) + " "@ + instruction@,
            BookError::UnpricedVisibleOrder => "a visible order has no effective price"@,
            BookError::UnknownCancellation(key) => "unknown cancellation target: "@
                + order_key_text(key),
            BookError::InvalidTradeReferenceSide { expected, actual } =>
                "trade reference side "@ + side_text(actual) + " does not match expected side "@
                + side_text(expected),
            BookError::UnknownTradeReference { side, order_id } => "unknown trade reference for "@
                + side_text(side) + " order OrderId("@ + nat_text(order_id.spec_get() as nat)
                + ")"@,
            BookError::TradeOverfill { key, remaining, trade } =>
                "trade quantity exceeds remaining quantity for "@ + order_key_text(key)
                + ": remaining="@ + nat_text(remaining as nat) + ", trade="@ + nat_text(
                trade as nat,
            ),
            BookError::ArithmeticOverflow(what) => "arithmetic overflow while updating "@ + what@,
            BookError::ArithmeticUnderflow(what) => "arithmetic underflow while updating "@
                + what@,
            BookError::InvariantViolation(what) => "internal order-book invariant failed: "@
                + what@,
            BookError::MissingPriceLevel { side, price } => "price level does not exist: "@
                + side_text(side) + " Price("@ + int_text(price.spec_units() as int) + ")"@,
        }
    }

    /// What the error says.
    pub fn message(&self) -> (r: String)
        ensures
            r@ == self.text(),
    {
        match self {
            BookError::BookKeyMismatch { expected, actual } => {
                let mut r = String::from_str("event belongs to ");
                r.append(book_key_name(actual).as_str());
                r.append(", expected ");
                r.append(book_key_name(expected).as_str());
                r
            },
            BookError::InvalidApplySequence { expected, actual } => {
                let mut r = String::from_str("expected apply sequence ApplySequence(");
                r.append(u64_text(expected.get()).as_str());
                r.append("), got ApplySequence(");
                r.append(u64_text(actual.get()).as_str());
                r.append(")");
                r
            },
            BookError::ApplySequenceOverflow => String::from_str("apply sequence overflow"),
            BookError::DuplicateOrder(key) => {
                let mut r = String::from_str("order key has already been used: ");
                r.append(order_key_name(*key).as_str());
                r
            },
            BookError::ReferencePriceUnavailable { side, instruction } => {
                let mut r = String::from_str("reference price is unavailable for ");
                r.append(side_name(*side));
                r.append(" ");
                r.append(*instruction);
                r
            },
            BookError::UnpricedVisibleOrder => String::from_str(
                "a visible order has no effective price",
            ),
            BookError::UnknownCancellation(key) => {
                let mut r = String::from_str("unknown cancellation target: ");
                r.append(order_key_name(*key).as_str());
                r
            },
            BookError::InvalidTradeReferenceSide { expected, actual } => {
                let mut r = String::from_str("trade reference side ");
                r.append(side_name(*actual));
                r.append(" does not match expected side ");
                r.append(side_name(*expected));
                r
            },
            BookError::UnknownTradeReference { side, order_id } => {
                let mut r = String::from_str("unknown trade reference for ");
                r.append(side_name(*side));
                r.append(" order OrderId(");
                r.append(u64_text(order_id.get()).as_str());
                r.append(")");
                r
            },
            BookError::TradeOverfill { key, remaining, trade } => {
                let mut r = String::from_str("trade quantity exceeds remaining quantity for ");
                r.append(order_key_name(*key).as_str());
                r.append(": remaining=");
                r.append(u64_text(*remaining).as_str());
                r.append(", trade=");
                r.append(u64_text(*trade).as_str());
                r
            },
            BookError::ArithmeticOverflow(what) => {
                let mut r = String::from_str("arithmetic overflow while updating ");
                r.append(*what);
                r
            },
            BookError::ArithmeticUnderflow(what) => {
                let mut r = String::from_str("arithmetic underflow while updating ");
                r.append(*what);
                r
            },
            BookError::InvariantViolation(what) => {
                let mut r = String::from_str("internal order-book invariant failed: ");
                r.append(*what);
                r
            },
            BookError::MissingPriceLevel { side, price } => {
                let mut r = String::from_str("price level does not exist: ");
                r.append(side_name(*side));
                r.append(" Price(");
                r.append(i64_text(price.units()).as_str());
                r.append(")");
                r
            },
        }
    }
}

} // verus!
