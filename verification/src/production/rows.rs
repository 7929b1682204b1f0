//! Rows of the channel streams.

use vstd::prelude::*;

verus! {

#[derive(Clone, Copy, Debug, PartialEq, Eq, Structural)]
pub enum SseKind {
    Add,
    Delete,
    Trade,
    Status,
}

#[derive(Clone, Copy, Debug, PartialEq, Eq, Structural)]
pub enum Aggressor {
    Buy,
    Sell,
    Neutral,
    Other,
}

/// One Shanghai tick: an order, a deletion, a trade or a status.
#[derive(Debug, PartialEq, Eq)]
pub struct SseRow {
    pub source_row: u64,
    pub sequence: u64,
    pub channel: u32,
    pub symbol: String,
    pub quote_time_ns: i64,
    pub local_time_ns: i64,
    pub kind: SseKind,
    pub buy_order_no: u64,
    pub sell_order_no: u64,
    pub price_units: i64,
    pub quantity: u64,
    pub flag: Aggressor,
    pub status: u8,
}

impl Clone for SseRow {
    fn clone(&self) -> (r: Self)
        ensures
            r == *self,
    {
        SseRow {
            source_row: self.source_row,
            sequence: self.sequence,
            channel: self.channel,
            symbol: self.symbol.clone(),
            quote_time_ns: self.quote_time_ns,
            local_time_ns: self.local_time_ns,
            kind: self.kind,
            buy_order_no: self.buy_order_no,
            sell_order_no: self.sell_order_no,
            price_units: self.price_units,
            quantity: self.quantity,
            flag: self.flag,
            status: self.status,
        }
    }
}

#[derive(Clone, Copy, Debug, PartialEq, Eq, Structural)]
pub enum SzOrderKind {
    Market,
    Limit,
    SameSideBest,
}

#[derive(Clone, Copy, Debug, PartialEq, Eq, Structural)]
pub enum SzSide {
    Buy,
    Sell,
}

/// One Shenzhen order.
#[derive(Debug, PartialEq, Eq)]
pub struct SzOrderRow {
    pub source_row: u64,
    pub sequence: u64,
    pub channel: u32,
    pub symbol: String,
    pub quote_time_ns: i64,
    pub local_time_ns: i64,
    pub price_units: i64,
    pub quantity: u64,
    pub side: SzSide,
    pub kind: SzOrderKind,
}

impl Clone for SzOrderRow {
    fn clone(&self) -> (r: Self)
        ensures
            r == *self,
    {
        SzOrderRow {
            source_row: self.source_row,
            sequence: self.sequence,
            channel: self.channel,
            symbol: self.symbol.clone(),
            quote_time_ns: self.quote_time_ns,
            local_time_ns: self.local_time_ns,
            price_units: self.price_units,
            quantity: self.quantity,
            side: self.side,
            kind: self.kind,
        }
    }
}

#[derive(Clone, Copy, Debug, PartialEq, Eq, Structural)]
pub enum SzExecutionKind {
    Trade,
    Cancel,
}

/// One Shenzhen trade or cancellation.
#[derive(Debug, PartialEq, Eq)]
pub struct SzExecutionRow {
    pub source_row: u64,
    pub sequence: u64,
    pub channel: u32,
    pub symbol: String,
    pub quote_time_ns: i64,
    pub local_time_ns: i64,
    pub bid_order_no: u64,
    pub ask_order_no: u64,
    pub price_units: i64,
    pub quantity: u64,
    pub kind: SzExecutionKind,
}

impl Clone for SzExecutionRow {
    fn clone(&self) -> (r: Self)
        ensures
            r == *self,
    {
        SzExecutionRow {
            source_row: self.source_row,
            sequence: self.sequence,
            channel: self.channel,
            symbol: self.symbol.clone(),
            quote_time_ns: self.quote_time_ns,
            local_time_ns: self.local_time_ns,
            bid_order_no: self.bid_order_no,
            ask_order_no: self.ask_order_no,
            price_units: self.price_units,
            quantity: self.quantity,
            kind: self.kind,
        }
    }
}

/// The fields of a row, with its symbol as a sequence of characters.
pub struct SseModel {
    pub source_row: u64,
    pub sequence: u64,
    pub channel: u32,
    pub symbol: Seq<char>,
    pub quote_time_ns: i64,
    pub local_time_ns: i64,
    pub kind: SseKind,
    pub buy_order_no: u64,
    pub sell_order_no: u64,
    pub price_units: i64,
    pub quantity: u64,
    pub flag: Aggressor,
    pub status: u8,
}

impl View for SseRow {
    type V = SseModel;

    open spec fn view(&self) -> SseModel {
        SseModel {
            source_row: self.source_row,
            sequence: self.sequence,
            channel: self.channel,
            symbol: self.symbol@,
            quote_time_ns: self.quote_time_ns,
            local_time_ns: self.local_time_ns,
            kind: self.kind,
            buy_order_no: self.buy_order_no,
            sell_order_no: self.sell_order_no,
            price_units: self.price_units,
            quantity: self.quantity,
            flag: self.flag,
            status: self.status,
        }
    }
}

/// The fields of a row, with its symbol as a sequence of characters.
pub struct SzOrderModel {
    pub source_row: u64,
    pub sequence: u64,
    pub channel: u32,
    pub symbol: Seq<char>,
    pub quote_time_ns: i64,
    pub local_time_ns: i64,
    pub price_units: i64,
    pub quantity: u64,
    pub side: SzSide,
    pub kind: SzOrderKind,
}

impl View for SzOrderRow {
    type V = SzOrderModel;

    open spec fn view(&self) -> SzOrderModel {
        SzOrderModel {
            source_row: self.source_row,
            sequence: self.sequence,
            channel: self.channel,
            symbol: self.symbol@,
            quote_time_ns: self.quote_time_ns,
            local_time_ns: self.local_time_ns,
            price_units: self.price_units,
            quantity: self.quantity,
            side: self.side,
            kind: self.kind,
        }
    }
}

/// The fields of a row, with its symbol as a sequence of characters.
pub struct SzExecutionModel {
    pub source_row: u64,
    pub sequence: u64,
    pub channel: u32,
    pub symbol: Seq<char>,
    pub quote_time_ns: i64,
    pub local_time_ns: i64,
    pub bid_order_no: u64,
    pub ask_order_no: u64,
    pub price_units: i64,
    pub quantity: u64,
    pub kind: SzExecutionKind,
}

impl View for SzExecutionRow {
    type V = SzExecutionModel;

    open spec fn view(&self) -> SzExecutionModel {
        SzExecutionModel {
            source_row: self.source_row,
            sequence: self.sequence,
            channel: self.channel,
            symbol: self.symbol@,
            quote_time_ns: self.quote_time_ns,
            local_time_ns: self.local_time_ns,
            bid_order_no: self.bid_order_no,
            ask_order_no: self.ask_order_no,
            price_units: self.price_units,
            quantity: self.quantity,
            kind: self.kind,
        }
    }
}

} // verus!
