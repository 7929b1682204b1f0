use std::collections::HashMap;

use vstd::prelude::*;

use crate::market_data::{
    BookKey, Market, OrderId, OrderKey, OrderReference, PriceScale, Side, Symbol, TradingDay,
};
use crate::order_book::{
    BookConfig, BookModel, OrderBook, UnknownTradePolicy,
};

use super::super::error::{ErrorModel, ProductionError};
use super::super::snapshot::{day_grid, BookSnapshot, SnapshotCursor, SnapshotModel};
use super::super::types::{MarketDayRequest, SnapshotSchedule, PRODUCTION_PRICE_DECIMAL_PLACES};

verus! {

/// Recorded snapshots, where snapshots are recorded at all.
pub struct SnapshotOutput {
    pub enabled: bool,
    pub rows: Vec<BookSnapshot>,
}

/// Snapshots as sequences and texts.
pub open spec fn snapshot_views(rows: Seq<BookSnapshot>) -> Seq<SnapshotModel> {
    rows.map_values(|row: BookSnapshot| row@)
}

impl View for SnapshotOutput {
    type V = Option<Seq<SnapshotModel>>;

    open spec fn view(&self) -> Option<Seq<SnapshotModel>> {
        if self.enabled {
            Some(snapshot_views(self.rows@))
        } else {
            None
        }
    }
}

impl SnapshotOutput {
    /// An output without rows, which takes rows or not.
    #[must_use]
    pub fn new(enabled: bool) -> (r: Self)
        ensures
            r@ == if enabled {
                Some(Seq::<SnapshotModel>::empty())
            } else {
                None
            },
    {
        let r = SnapshotOutput { enabled, rows: Vec::new() };
        assert(snapshot_views(r.rows@) =~= Seq::<SnapshotModel>::empty());
        r
    }

    /// Records a snapshot where snapshots are recorded.
    pub fn push(&mut self, row: BookSnapshot)
        requires
            old(self)@ is Some,
        ensures
            final(self)@ == Some(old(self)@->0.push(row@)),
    {
        let ghost before = snapshot_views(self.rows@);
        self.rows.push(row);
        assert(snapshot_views(self.rows@) =~= before.push(row@));
    }
}

/// The book of one symbol in a replay, and what the replay knows around it.
pub struct BookRuntime {
    pub book: OrderBook,
    /// Orders by the integer form of side and number.
    pub references: HashMap<u128, OrderKey>,
    pub cursor: Option<SnapshotCursor>,
    // Product-status timestamps do not establish a business-event watermark.
    pub last_business_quote_time_ns: Option<i64>,
    pub market_close_emitted: bool,
    // Capture SH close at its native position, write after EOF drains Scheduled.
    pub pending_close_snapshot: Option<BookSnapshot>,
}

/// The state of a symbol in a replay.
#[verifier::ext_equal]
pub struct RuntimeModel {
    pub symbol: Seq<char>,
    pub policy: UnknownTradePolicy,
    pub book: BookModel,
    pub references: Map<(Side, u64), OrderKey>,
    pub cursor: Option<Seq<i64>>,
    pub last_time: Option<i64>,
    pub close_emitted: bool,
    pub pending_close: Option<SnapshotModel>,
}

/// A side and an order number as one integer.
pub open spec fn reference_code(side: Side, order_no: u64) -> u128 {
    (order_no + if side == Side::Sell {
        0x1_0000_0000_0000_0000int
    } else {
        0
    }) as u128
}

/// Orders by side and number.
pub open spec fn reference_map(codes: Map<u128, OrderKey>) -> Map<(Side, u64), OrderKey> {
    Map::new(
        |reference: (Side, u64)| codes.contains_key(reference_code(reference.0, reference.1)),
        |reference: (Side, u64)| codes[reference_code(reference.0, reference.1)],
    )
}

fn pack_reference(side: Side, order_no: u64) -> (r: u128)
    ensures
        r == reference_code(side, order_no),
{
    match side {
        Side::Buy => order_no as u128,
        Side::Sell => order_no as u128 + 0x1_0000_0000_0000_0000u128,
    }
}

/// The policy of a market for trades of unknown orders.
pub open spec fn market_policy(market: Market) -> UnknownTradePolicy {
    match market {
        Market::Sse => UnknownTradePolicy::UpdateKnownAndStatistics,
        Market::Szse => UnknownTradePolicy::Reject,
    }
}

impl RuntimeModel {
    /// The state of a symbol before its first row, or why there is none.
    pub open spec fn fresh(
        market: Market,
        day: TradingDay,
        symbol: Seq<char>,
        schedule: Option<SnapshotSchedule>,
    ) -> Result<RuntimeModel, ErrorModel> {
        let runtime = RuntimeModel {
            symbol,
            policy: market_policy(market),
            book: BookModel::empty(),
            references: Map::empty(),
            cursor: None,
            last_time: None,
            close_emitted: false,
            pending_close: None,
        };
        match schedule {
            None => Ok(runtime),
            Some(schedule) => match day_grid(day, schedule) {
                Ok(times) => Ok(RuntimeModel { cursor: Some(times), ..runtime }),
                Err(error) => Err(error),
            },
        }
    }

    /// The order that once had a number on a side and is still active.
    pub open spec fn active(self, side: Side, order_no: u64) -> Option<OrderKey> {
        if self.references.contains_key((side, order_no)) && self.book.orders.contains_key(
            self.references[(side, order_no)],
        ) {
            Some(self.references[(side, order_no)])
        } else {
            None
        }
    }

    /// The reference of a Shenzhen execution.
    pub open spec fn sz_reference(self, side: Side, order_no: u64) -> OrderReference {
        if order_no == 0 {
            OrderReference::Absent
        } else if self.references.contains_key((side, order_no)) {
            OrderReference::Resolved(self.references[(side, order_no)])
        } else {
            OrderReference::Unresolved { side, order_id: OrderId::spec_new(order_no) }
        }
    }
}

impl View for BookRuntime {
    type V = RuntimeModel;

    open spec fn view(&self) -> RuntimeModel {
        RuntimeModel {
            symbol: self.book.spec_config().book_key.symbol@,
            policy: self.book.spec_config().unknown_trade_policy,
            book: self.book@,
            references: reference_map(self.references@),
            cursor: match self.cursor {
                Some(cursor) => Some(cursor.remaining()),
                None => None,
            },
            last_time: self.last_business_quote_time_ns,
            close_emitted: self.market_close_emitted,
            pending_close: match self.pending_close_snapshot {
                Some(snapshot) => Some(snapshot@),
                None => None,
            },
        }
    }
}

/// Whether a quote time may go back: within the same second, where no snapshots are taken.
pub open spec fn regression_allowed(previous: i64, current: i64, has_cursor: bool) -> bool {
    &&& !has_cursor
    &&& current < previous
    &&& (previous as int) / 1_000_000_000 == (current as int) / 1_000_000_000
}

pub fn same_second_regression_is_allowed(
    previous_time_ns: i64,
    current_time_ns: i64,
    has_snapshot_cursor: bool,
) -> (r: bool)
    ensures
        r == regression_allowed(previous_time_ns, current_time_ns, has_snapshot_cursor),
{
    !has_snapshot_cursor && current_time_ns < previous_time_ns
        && previous_time_ns.checked_div_euclid(1_000_000_000)
        == current_time_ns.checked_div_euclid(1_000_000_000)
}

impl BookRuntime {
    pub open spec fn wf(self) -> bool {
        self.book.wf()
    }

    pub fn new(request: &MarketDayRequest, symbol: &str, schedule: Option<SnapshotSchedule>) -> (r:
        Result<Self, ProductionError>)
        requires
            schedule is Some ==> schedule->0.interval.spec_nanos() > 0,
        ensures
            match RuntimeModel::fresh(request.market, request.trading_day, symbol@, schedule) {
                Ok(runtime) => {
                    &&& r is Ok
                    &&& r->Ok_0.wf()
                    &&& r->Ok_0@ == runtime
                    &&& r->Ok_0.book.spec_config().book_key.market == request.market
                    &&& r->Ok_0.book.spec_config().book_key.trading_day == request.trading_day
                    &&& r->Ok_0.book.spec_config().price_scale.spec_decimal_places()
                        == PRODUCTION_PRICE_DECIMAL_PLACES
                    &&& r->Ok_0.book.spec_config().price_scale.spec_decimal_places() == 4
                },
                Err(error) => r is Err && r->Err_0@ == error,
            },
    {
        broadcast use vstd::std_specs::hash::group_hash_axioms;

        let book_key = BookKey {
            market: request.market,
            trading_day: request.trading_day,
            symbol: Symbol::from(symbol),
        };
        let price_scale = match PriceScale::from_decimal_places(PRODUCTION_PRICE_DECIMAL_PLACES) {
            Some(scale) => scale,
            None => return Err(ProductionError::Arithmetic("price scale")),
        };
        let policy = match request.market {
            Market::Sse => UnknownTradePolicy::UpdateKnownAndStatistics,
            Market::Szse => UnknownTradePolicy::Reject,
        };
        let cursor = match schedule {
            Some(schedule) => match SnapshotCursor::new(request.trading_day, &schedule) {
                Ok(cursor) => Some(cursor),
                Err(error) => return Err(error),
            },
            None => None,
        };
        let r = Self {
            book: OrderBook::new(
                BookConfig::new(book_key, price_scale).with_unknown_trade_policy(policy),
            ),
            references: HashMap::new(),
            cursor,
            last_business_quote_time_ns: None,
            market_close_emitted: false,
            pending_close_snapshot: None,
        };
        assert(r@.references =~= Map::<(Side, u64), OrderKey>::empty());
        Ok(r)
    }

    /// The order that once had a number on a side.
    pub fn resolve_history(&self, side: Side, order_no: u64) -> (r: Option<OrderKey>)
        ensures
            r == if self@.references.contains_key((side, order_no)) {
                Some(self@.references[(side, order_no)])
            } else {
                None
            },
    {
        broadcast use vstd::std_specs::hash::group_hash_axioms;

        match self.references.get(&pack_reference(side, order_no)) {
            Some(key) => Some(*key),
            None => None,
        }
    }

    /// Remembers which order a number stands for.
    pub fn remember(&mut self, side: Side, order_no: u64, key: OrderKey)
        requires
            old(self).wf(),
        ensures
            final(self).wf(),
            final(self)@ == (RuntimeModel {
                references: old(self)@.references.insert((side, order_no), key),
                ..old(self)@
            }),
    {
        broadcast use vstd::std_specs::hash::group_hash_axioms;

        let ghost before = self@;
        self.references.insert(pack_reference(side, order_no), key);
        assert(self@.references =~= before.references.insert((side, order_no), key));
    }

    /// The active order of a number.
    pub fn active_reference(&self, side: Side, order_no: u64) -> (r: Option<OrderKey>)
        requires
            self.wf(),
        ensures
            r == self@.active(side, order_no),
    {
        match self.resolve_history(side, order_no) {
            Some(key) => if self.book.order(&key).is_some() {
                Some(key)
            } else {
                None
            },
            None => None,
        }
    }

    /// The active order of a number and what is left of it.
    pub fn active_reference_with_remaining(&self, side: Side, order_no: u64) -> (r: Option<
        (OrderKey, u64),
    >)
        requires
            self.wf(),
        ensures
            r == match self@.active(side, order_no) {
                Some(key) => Some((key, self@.book.orders[key].remaining_quantity)),
                None => None,
            },
    {
        match self.resolve_history(side, order_no) {
            Some(key) => match self.book.order(&key) {
                Some(order) => Some((key, order.remaining_quantity)),
                None => None,
            },
            None => None,
        }
    }

    pub fn sz_reference(&self, side: Side, order_no: u64) -> (r: OrderReference)
        ensures
            r == self@.sz_reference(side, order_no),
    {
        if order_no == 0 {
            return OrderReference::Absent;
        }
        match self.resolve_history(side, order_no) {
            Some(key) => OrderReference::Resolved(key),
            None => match OrderId::new(order_no) {
                Some(order_id) => OrderReference::Unresolved { side, order_id },
                None => OrderReference::Absent,
            },
        }
    }

    /// Moves the business clock on. Says whether it went back within an allowed second.
    pub fn check_business_quote_time(&mut self, symbol: &str, quote_time_ns: i64) -> (r: Result<
        bool,
        ProductionError,
    >)
        requires
            old(self).wf(),
        ensures
            final(self).wf(),
            ({
                let back = old(self)@.last_time matches Some(previous) && quote_time_ns < previous;
                if !back {
                    &&& r == Ok::<bool, ProductionError>(false)
                    &&& final(self)@ == (RuntimeModel {
                        last_time: Some(quote_time_ns),
                        ..old(self)@
                    })
                } else {
                    &&& final(self)@ == old(self)@
                    &&& if regression_allowed(
                        old(self)@.last_time->0,
                        quote_time_ns,
                        old(self)@.cursor is Some,
                    ) {
                        r == Ok::<bool, ProductionError>(true)
                    } else {
                        r is Err && r->Err_0@ == ErrorModel::QuoteTimeRegression {
                            symbol: symbol@,
                            previous: old(self)@.last_time->0,
                            current: quote_time_ns,
                        }
                    }
                }
            }),
    {
        if let Some(previous) = self.last_business_quote_time_ns {
            if quote_time_ns < previous {
                if !same_second_regression_is_allowed(
                    previous,
                    quote_time_ns,
                    self.cursor.is_some(),
                ) {
                    return Err(
                        ProductionError::QuoteTimeRegression {
                            symbol: Symbol::from(symbol),
                            previous,
                            current: quote_time_ns,
                        },
                    );
                }
                return Ok(true);
            }
        }
        self.last_business_quote_time_ns = Some(quote_time_ns);
        Ok(false)
    }
}

} // verus!
