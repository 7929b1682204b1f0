//! Compact storage for millions of reference frames; public snapshot types stay unchanged.

use vstd::prelude::*;
use vstd::string::StringExecFns;

use super::super::error::{ErrorModel, ProductionError};
use super::super::snapshot::{SnapshotBookModel, SnapshotBookView, SnapshotLevel, SnapshotLevels};

verus! {

/// At most ten levels of one side.
#[derive(Clone, Copy, Debug, PartialEq, Eq)]
pub struct ReferenceLevels {
    prices: [i64; 10],
    quantities: [u64; 10],
    counts: [u32; 10],
    len: u8,
}

/// Why levels cannot be stored.
pub open spec fn levels_error(levels: Seq<SnapshotLevel>) -> Option<ErrorModel> {
    if levels.len() > 10 {
        Some(ErrorModel::Validation("reference depth exceeds ten"@))
    } else if !counts_fit(levels) {
        Some(ErrorModel::Arithmetic("reference order count"@))
    } else {
        None
    }
}

pub open spec fn counts_fit(levels: Seq<SnapshotLevel>) -> bool {
    forall|i: int| 0 <= i < levels.len() ==> (#[trigger] levels[i]).order_count <= u32::MAX
}

impl View for ReferenceLevels {
    type V = Seq<SnapshotLevel>;

    /// The levels that were stored.
    closed spec fn view(&self) -> Seq<SnapshotLevel> {
        Seq::new(
            self.len as nat,
            |i: int|
                SnapshotLevel {
                    price_units: self.prices@[i],
                    quantity: self.quantities@[i],
                    order_count: self.counts@[i] as u64,
                },
        )
    }
}

impl ReferenceLevels {
    #[verifier::type_invariant]
    closed spec fn inv(self) -> bool {
        self.len <= 10
    }

    pub fn from_levels(levels: &SnapshotLevels) -> (r: Result<Self, ProductionError>)
        ensures
            match levels_error(levels@) {
                Some(error) => r is Err && r->Err_0@ == error,
                None => r is Ok && r->Ok_0@ == levels@,
            },
    {
        let items = levels.as_slice();
        if items.len() > 10 {
            return Err(
                ProductionError::Validation(String::from_str("reference depth exceeds ten")),
            );
        }
        let mut prices: [i64; 10] = [0, 0, 0, 0, 0, 0, 0, 0, 0, 0];
        let mut quantities: [u64; 10] = [0, 0, 0, 0, 0, 0, 0, 0, 0, 0];
        let mut counts: [u32; 10] = [0, 0, 0, 0, 0, 0, 0, 0, 0, 0];
        let mut at: usize = 0;
        while at < items.len()
            invariant
                items@ == levels@,
                at <= items@.len() <= 10,
                forall|i: int|
                    0 <= i < at ==> {
                        &&& #[trigger] prices@[i] == items@[i].price_units
                        &&& quantities@[i] == items@[i].quantity
                        &&& counts@[i] == items@[i].order_count
                    },
                forall|i: int| 0 <= i < at ==> (#[trigger] items@[i]).order_count <= u32::MAX,
            decreases items@.len() - at,
        {
            let level = items[at];
            if level.order_count > 0xffff_ffff {
                return Err(ProductionError::Arithmetic("reference order count"));
            }
            prices[at] = level.price_units;
            quantities[at] = level.quantity;
            counts[at] = level.order_count as u32;
            at = at + 1;
        }
        let r = ReferenceLevels { prices, quantities, counts, len: items.len() as u8 };
        assert(r@ =~= levels@) by {
            assert forall|i: int| 0 <= i < levels@.len() implies r@[i] == levels@[i] by {
                assert(prices@[i] == items@[i].price_units);
                assert(items@[i].order_count <= u32::MAX);
            }
        }
        Ok(r)
    }

    pub fn expand(&self) -> (r: SnapshotLevels)
        ensures
            r@ == self@,
    {
        proof {
            use_type_invariant(self);
        }
        let mut r = SnapshotLevels::new();
        let mut at: usize = 0;
        while at < self.len as usize
            invariant
                at <= self.len <= 10,
                r@ == self@.take(at as int),
                self@.len() == self.len,
            decreases self.len - at,
        {
            r.push(
                SnapshotLevel {
                    price_units: self.prices[at],
                    quantity: self.quantities[at],
                    order_count: self.counts[at] as u64,
                },
            );
            assert(r@ =~= self@.take(at + 1));
            at = at + 1;
        }
        assert(self@.take(at as int) =~= self@);
        r
    }

    /// Whether the levels are others than these.
    pub fn differs(&self, levels: &SnapshotLevels) -> (r: bool)
        ensures
            r == (self@ != levels@),
    {
        proof {
            use_type_invariant(self);
        }
        let items = levels.as_slice();
        if items.len() != self.len as usize {
            assert(self@.len() != levels@.len());
            return true;
        }
        let mut at: usize = 0;
        while at < items.len()
            invariant
                items@ == levels@,
                items@.len() == self.len,
                self.len <= 10,
                at <= items@.len(),
                self@.len() == self.len,
                forall|i: int| 0 <= i < at ==> #[trigger] self@[i] == levels@[i],
            decreases items@.len() - at,
        {
            let level = items[at];
            if level.price_units != self.prices[at] || level.quantity != self.quantities[at]
                || level.order_count != self.counts[at] as u64 {
                assert(self@[at as int] != levels@[at as int]);
                return true;
            }
            at = at + 1;
        }
        assert(self@ =~= levels@);
        false
    }
}

/// What a reference shows of a book.
#[derive(Clone, Copy, Debug, PartialEq, Eq)]
pub struct ReferenceBookView {
    pub bids: ReferenceLevels,
    pub asks: ReferenceLevels,
    pub total_bid_quantity: u64,
    pub weighted_bid_price_units: Option<i64>,
    pub total_ask_quantity: u64,
    pub weighted_ask_price_units: Option<i64>,
    pub last_price_units: Option<i64>,
    pub high_price_units: Option<i64>,
    pub low_price_units: Option<i64>,
    pub trade_count: u64,
    pub trade_quantity: u64,
    pub turnover_units: u128,
}

impl View for ReferenceBookView {
    type V = SnapshotBookModel;

    open spec fn view(&self) -> SnapshotBookModel {
        SnapshotBookModel {
            bids: self.bids@,
            asks: self.asks@,
            total_bid_quantity: self.total_bid_quantity,
            weighted_bid_price_units: self.weighted_bid_price_units,
            total_ask_quantity: self.total_ask_quantity,
            weighted_ask_price_units: self.weighted_ask_price_units,
            last_price_units: self.last_price_units,
            high_price_units: self.high_price_units,
            low_price_units: self.low_price_units,
            trade_count: self.trade_count,
            trade_quantity: self.trade_quantity,
            turnover_units: self.turnover_units,
        }
    }
}

/// Why a view cannot be stored.
pub open spec fn compact_error(view: SnapshotBookModel) -> Option<ErrorModel> {
    if levels_error(view.bids) is Some {
        levels_error(view.bids)
    } else {
        levels_error(view.asks)
    }
}

impl ReferenceBookView {
    /// The view in compact form: expanding it gives the same view back.
    pub fn try_from_view(view: &SnapshotBookView) -> (r: Result<Self, ProductionError>)
        ensures
            match compact_error(view@) {
                Some(error) => r is Err && r->Err_0@ == error,
                None => r is Ok && r->Ok_0@ == view@,
            },
    {
        let bids = match ReferenceLevels::from_levels(&view.bids) {
            Ok(levels) => levels,
            Err(error) => return Err(error),
        };
        let asks = match ReferenceLevels::from_levels(&view.asks) {
            Ok(levels) => levels,
            Err(error) => return Err(error),
        };
        Ok(
            Self {
                bids,
                asks,
                total_bid_quantity: view.total_bid_quantity,
                weighted_bid_price_units: view.weighted_bid_price_units,
                total_ask_quantity: view.total_ask_quantity,
                weighted_ask_price_units: view.weighted_ask_price_units,
                last_price_units: view.last_price_units,
                high_price_units: view.high_price_units,
                low_price_units: view.low_price_units,
                trade_count: view.trade_count,
                trade_quantity: view.trade_quantity,
                turnover_units: view.turnover_units,
            },
        )
    }

    pub fn expand(&self) -> (r: SnapshotBookView)
        ensures
            r@ == self@,
    {
        SnapshotBookView {
            bids: self.bids.expand(),
            asks: self.asks.expand(),
            total_bid_quantity: self.total_bid_quantity,
            weighted_bid_price_units: self.weighted_bid_price_units,
            total_ask_quantity: self.total_ask_quantity,
            weighted_ask_price_units: self.weighted_ask_price_units,
            last_price_units: self.last_price_units,
            high_price_units: self.high_price_units,
            low_price_units: self.low_price_units,
            trade_count: self.trade_count,
            trade_quantity: self.trade_quantity,
            turnover_units: self.turnover_units,
        }
    }
}

} // verus!
