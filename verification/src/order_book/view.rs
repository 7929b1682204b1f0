use vstd::prelude::*;

use crate::market_data::{
    ApplySequence, BookKey, LocalTimestampNs, OrderKey, Price, Quantity, QuoteTimestampNs,
    RawSequence, Side,
};

use super::state::OrderLocation;

verus! {

#[derive(Clone, Copy, Debug, PartialEq, Eq, Structural)]
pub struct LevelView {
    pub side: Side,
    pub price: Price,
    pub total_quantity: u64,
    pub order_count: usize,
}

#[derive(Clone, Copy, Debug, PartialEq, Eq, Structural)]
pub struct OrderView {
    pub key: OrderKey,
    pub effective_price: Option<Price>,
    pub original_quantity: Quantity,
    pub remaining_quantity: u64,
    pub location: OrderLocation,
}

#[derive(Clone, Debug, PartialEq, Eq)]
pub struct DepthView {
    pub bids: Vec<LevelView>,
    pub asks: Vec<LevelView>,
}

impl Default for DepthView {
    fn default() -> (r: Self)
        ensures
            r.bids@ == Seq::<LevelView>::empty(),
            r.asks@ == Seq::<LevelView>::empty(),
    {
        DepthView { bids: Vec::new(), asks: Vec::new() }
    }
}

#[derive(Clone, Copy, Debug, PartialEq, Eq, Structural)]
pub struct TradeStatisticsView {
    pub last_price: Option<Price>,
    pub high_price: Option<Price>,
    pub low_price: Option<Price>,
    pub total_quantity: u64,
    pub total_turnover_units: u128,
    pub trade_count: u64,
}

impl TradeStatisticsView {
    /// Statistics before the first trade.
    pub open spec fn spec_default() -> Self {
        TradeStatisticsView {
            last_price: None,
            high_price: None,
            low_price: None,
            total_quantity: 0,
            total_turnover_units: 0,
            trade_count: 0,
        }
    }
}

impl Default for TradeStatisticsView {
    fn default() -> (r: Self)
        ensures
            r == Self::spec_default(),
    {
        TradeStatisticsView {
            last_price: None,
            high_price: None,
            low_price: None,
            total_quantity: 0,
            total_turnover_units: 0,
            trade_count: 0,
        }
    }
}

#[derive(Clone, Debug, PartialEq, Eq)]
pub struct BookSummary {
    pub book_key: BookKey,
    pub last_raw_sequence: Option<RawSequence>,
    pub last_apply_sequence: Option<ApplySequence>,
    pub last_local_time: Option<LocalTimestampNs>,
    pub last_quote_time: Option<QuoteTimestampNs>,
    pub best_bid: Option<LevelView>,
    pub best_ask: Option<LevelView>,
    pub active_order_count: usize,
    pub statistics: TradeStatisticsView,
}

#[derive(Clone, Copy, Debug, PartialEq, Eq, Structural)]
pub enum ApplyOutcome {
    Added {
        key: OrderKey,
        effective_price: Option<Price>,
        quantity: Quantity,
        location: OrderLocation,
    },
    Cancelled { key: OrderKey, cancelled_quantity: u64 },
    Traded { bid_reduction: u64, ask_reduction: u64 },
}

} // verus!
