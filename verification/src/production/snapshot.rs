//! Book snapshots and the grid of times at which they are taken.

use smallvec::SmallVec;
use vstd::prelude::*;
use vstd::string::StringExecFns;
use vstd::utf8::encode_utf8;

use crate::market_data::{Price, Side, TradingDay};
use crate::order_book::{BookModel, LevelView, OrderBook, SideModel};

use super::error::{ErrorModel, ProductionError};
use super::time::{
    clock_millis, clock_result, parse_market_timestamp, shanghai_midnight, timestamp_result,
};
use super::types::{SnapshotKind, SnapshotSchedule};

verus! {

#[derive(Clone, Copy, Debug, PartialEq, Eq, Structural)]
pub struct SnapshotLevel {
    pub price_units: i64,
    pub quantity: u64,
    pub order_count: u64,
}

impl Default for SnapshotLevel {
    fn default() -> (r: Self)
        ensures
            r == (SnapshotLevel { price_units: 0, quantity: 0, order_count: 0 }),
    {
        SnapshotLevel { price_units: 0, quantity: 0, order_count: 0 }
    }
}

/// Levels of one side: a small vector of the `smallvec` crate, held as an opaque value.
#[verifier::external_body]
#[derive(Debug, PartialEq, Eq)]
pub struct SnapshotLevels {
    items: SmallVec<[SnapshotLevel; 10]>,
}

/// The levels, in their order.
pub uninterp spec fn level_items(levels: SnapshotLevels) -> Seq<SnapshotLevel>;

impl View for SnapshotLevels {
    type V = Seq<SnapshotLevel>;

    open spec fn view(&self) -> Seq<SnapshotLevel> {
        level_items(*self)
    }
}

impl SnapshotLevels {
    /// `smallvec::SmallVec::new`: no levels.
    #[verifier::external_body]
    fn empty() -> (r: Self)
        ensures
            level_items(r).len() == 0,
    {
        SnapshotLevels { items: SmallVec::new() }
    }

    /// `smallvec::SmallVec::push`: one level more, at the end.
    #[verifier::external_body]
    fn append(&mut self, level: SnapshotLevel)
        ensures
            level_items(*final(self)) == level_items(*old(self)).push(level),
    {
        self.items.push(level);
    }

    /// `smallvec::SmallVec::as_slice`: the levels in their order.
    #[verifier::external_body]
    fn slice(&self) -> (r: &[SnapshotLevel])
        ensures
            r@ == level_items(*self),
    {
        self.items.as_slice()
    }

    #[must_use]
    pub fn new() -> (r: Self)
        ensures
            r@ == Seq::<SnapshotLevel>::empty(),
    {
        let r = Self::empty();
        assert(r@ =~= Seq::<SnapshotLevel>::empty());
        r
    }

    pub fn push(&mut self, level: SnapshotLevel)
        ensures
            final(self)@ == old(self)@.push(level),
    {
        self.append(level);
    }

    #[must_use]
    pub fn as_slice(&self) -> (r: &[SnapshotLevel])
        ensures
            r@ == self@,
    {
        self.slice()
    }

    #[must_use]
    pub fn len(&self) -> (r: usize)
        ensures
            r == self@.len(),
    {
        self.slice().len()
    }

    #[must_use]
    pub fn is_empty(&self) -> (r: bool)
        ensures
            r == (self@.len() == 0),
    {
        self.slice().len() == 0
    }

    /// The levels of a slice, in its order.
    #[must_use]
    pub fn from_slice(levels: &[SnapshotLevel]) -> (r: Self)
        ensures
            r@ == levels@,
    {
        let mut r = Self::new();
        let mut at: usize = 0;
        while at < levels.len()
            invariant
                at <= levels@.len(),
                r@ =~= levels@.take(at as int),
            decreases levels@.len() - at,
        {
            r.push(levels[at]);
            at = at + 1;
        }
        assert(levels@.take(at as int) =~= levels@);
        r
    }
}

impl Clone for SnapshotLevels {
    fn clone(&self) -> (r: Self)
        ensures
            r@ == self@,
    {
        Self::from_slice(self.slice())
    }
}

/// What a snapshot shows of a book.
#[derive(Debug, PartialEq, Eq)]
pub struct SnapshotBookView {
    pub bids: SnapshotLevels,
    pub asks: SnapshotLevels,
    pub total_bid_quantity: u64,
    pub weighted_bid_price_units: Option<i64>,
    pub total_ask_quantity: u64,
    pub weighted_ask_price_units: Option<i64>,
    pub last_price_units: Option<i64>,
    pub high_price_units: Option<i64>,
    pub low_price_units: Option<i64>,
    pub trade_count: u64,
    pub trade_quantity: u64,
    pub turnover_units: u128,
}

/// What a snapshot shows of a book, with levels as sequences.
#[verifier::ext_equal]
pub struct SnapshotBookModel {
    pub bids: Seq<SnapshotLevel>,
    pub asks: Seq<SnapshotLevel>,
    pub total_bid_quantity: u64,
    pub weighted_bid_price_units: Option<i64>,
    pub total_ask_quantity: u64,
    pub weighted_ask_price_units: Option<i64>,
    pub last_price_units: Option<i64>,
    pub high_price_units: Option<i64>,
    pub low_price_units: Option<i64>,
    pub trade_count: u64,
    pub trade_quantity: u64,
    pub turnover_units: u128,
}

impl View for SnapshotBookView {
    type V = SnapshotBookModel;

    open spec fn view(&self) -> SnapshotBookModel {
        SnapshotBookModel {
            bids: self.bids@,
            asks: self.asks@,
            total_bid_quantity: self.total_bid_quantity,
            weighted_bid_price_units: self.weighted_bid_price_units,
            total_ask_quantity: self.total_ask_quantity,
            weighted_ask_price_units: self.weighted_ask_price_units,
            last_price_units: self.last_price_units,
            high_price_units: self.high_price_units,
            low_price_units: self.low_price_units,
            trade_count: self.trade_count,
            trade_quantity: self.trade_quantity,
            turnover_units: self.turnover_units,
        }
    }
}

impl Clone for SnapshotBookView {
    fn clone(&self) -> (r: Self)
        ensures
            r@ == self@,
    {
        SnapshotBookView {
            bids: self.bids.clone(),
            asks: self.asks.clone(),
            total_bid_quantity: self.total_bid_quantity,
            weighted_bid_price_units: self.weighted_bid_price_units,
            total_ask_quantity: self.total_ask_quantity,
            weighted_ask_price_units: self.weighted_ask_price_units,
            last_price_units: self.last_price_units,
            high_price_units: self.high_price_units,
            low_price_units: self.low_price_units,
            trade_count: self.trade_count,
            trade_quantity: self.trade_quantity,
            turnover_units: self.turnover_units,
        }
    }
}

/// A level of a book as a snapshot shows it.
pub open spec fn snapshot_level(level: LevelView) -> SnapshotLevel {
    SnapshotLevel {
        price_units: level.price.spec_units(),
        quantity: level.total_quantity,
        order_count: level.order_count as u64,
    }
}

/// The best levels of a side as a snapshot shows them.
pub open spec fn shown_levels(m: BookModel, side: Side, depth: int) -> Seq<SnapshotLevel> {
    let levels = m.depth_of(side);
    let shown = if depth < levels.len() {
        depth
    } else {
        levels.len() as int
    };
    levels.take(shown).map_values(|level: LevelView| snapshot_level(level))
}

/// The average price of a side's visible quantity, rounded half up.
pub open spec fn average_price(side: SideModel) -> Option<i64> {
    if side.total_quantity == 0 {
        None
    } else {
        Some(
            ((side.weighted_price_quantity + side.total_quantity / 2)
                / side.total_quantity) as i64,
        )
    }
}

pub open spec fn price_units(price: Option<Price>) -> Option<i64> {
    match price {
        Some(price) => Some(price.spec_units()),
        None => None,
    }
}

impl SnapshotBookModel {
    /// What a snapshot of a depth shows of a book.
    pub open spec fn of(m: BookModel, depth: usize) -> Self {
        SnapshotBookModel {
            bids: shown_levels(m, Side::Buy, depth as int),
            asks: shown_levels(m, Side::Sell, depth as int),
            total_bid_quantity: m.bids.total_quantity as u64,
            weighted_bid_price_units: average_price(m.bids),
            total_ask_quantity: m.asks.total_quantity as u64,
            weighted_ask_price_units: average_price(m.asks),
            last_price_units: price_units(m.statistics.last_price),
            high_price_units: price_units(m.statistics.high_price),
            low_price_units: price_units(m.statistics.low_price),
            trade_count: m.statistics.trade_count,
            trade_quantity: m.statistics.total_quantity,
            turnover_units: m.statistics.total_turnover_units,
        }
    }
}

pub(crate) fn optional_units(price: Option<Price>) -> (r: Option<i64>)
    ensures
        r == price_units(price),
{
    match price {
        Some(price) => Some(price.units()),
        None => None,
    }
}

/// The best levels of a side, no more than the given number.
pub fn snapshot_levels(book: &OrderBook, side: Side, depth: usize) -> (r: SnapshotLevels)
    requires
        book.wf(),
    ensures
        r@ == shown_levels(book@, side, depth as int),
{
    let mut result = SnapshotLevels::new();
    let mut rank: usize = 0;
    let ghost levels = book@.depth_of(side);
    while rank < depth
        invariant
            book.wf(),
            levels == book@.depth_of(side),
            rank <= depth,
            rank <= levels.len(),
            result@ =~= levels.take(rank as int).map_values(
                |level: LevelView| snapshot_level(level),
            ),
        decreases depth - rank,
    {
        match book.level_at_rank(side, rank) {
            Some(level) => {
                result.push(
                    SnapshotLevel {
                        price_units: level.price.units(),
                        quantity: level.total_quantity,
                        order_count: level.order_count as u64,
                    },
                );
                rank = rank + 1;
            },
            None => {
                return result;
            },
        }
    }
    result
}

/// Total quantity and average price of a side.
fn aggregate_side(book: &OrderBook, side: Side) -> (r: (u64, Option<i64>))
    requires
        book.wf(),
    ensures
        r.0 == book@.side(side).total_quantity,
        r.1 == average_price(book@.side(side)),
{
    let (total, weighted) = book.visible_aggregate(side);
    if total == 0 {
        return (0, None);
    }
    let divisor: u128 = total as u128;
    proof {
        let t = total as int;
        let w = weighted as int;
        let limit = i64::MAX as int;
        assert(w <= limit * t);
        assert(limit * t <= 0x7fff_ffff_ffff_ffff * 0xffff_ffff_ffff_ffff) by (nonlinear_arith)
            requires
                limit == 0x7fff_ffff_ffff_ffff,
                0 <= t <= 0xffff_ffff_ffff_ffff,
        ;
        assert((w + t / 2) / t <= limit) by (nonlinear_arith)
            requires
                t > 0,
                0 <= w <= limit * t,
        ;
    }
    let rounded: u128 = (weighted + divisor / 2) / divisor;
    (total, Some(rounded as i64))
}

impl SnapshotBookView {
    pub fn from_book(book: &OrderBook, depth: usize) -> (r: Self)
        requires
            book.wf(),
        ensures
            r@ == SnapshotBookModel::of(book@, depth),
    {
        let (total_bid_quantity, weighted_bid_price_units) = aggregate_side(book, Side::Buy);
        let (total_ask_quantity, weighted_ask_price_units) = aggregate_side(book, Side::Sell);
        let statistics = book.statistics();
        Self {
            bids: snapshot_levels(book, Side::Buy, depth),
            asks: snapshot_levels(book, Side::Sell, depth),
            total_bid_quantity,
            weighted_bid_price_units,
            total_ask_quantity,
            weighted_ask_price_units,
            last_price_units: optional_units(statistics.last_price),
            high_price_units: optional_units(statistics.high_price),
            low_price_units: optional_units(statistics.low_price),
            trade_count: statistics.trade_count,
            trade_quantity: statistics.total_quantity,
            turnover_units: statistics.total_turnover_units,
        }
    }
}

impl SnapshotBookView {
    /// Takes the best levels of both sides from a book.
    pub fn fill_depth(&mut self, book: &OrderBook, depth: usize)
        requires
            book.wf(),
        ensures
            final(self)@ == (SnapshotBookModel {
                bids: shown_levels(book@, Side::Buy, depth as int),
                asks: shown_levels(book@, Side::Sell, depth as int),
                ..old(self)@
            }),
    {
        self.bids = snapshot_levels(book, Side::Buy, depth);
        self.asks = snapshot_levels(book, Side::Sell, depth);
    }
}

/// A book at one moment.
#[derive(Debug, PartialEq, Eq)]
pub struct BookSnapshot {
    pub symbol: String,
    pub channel: u32,
    pub kind: SnapshotKind,
    pub boundary_time_ns: i64,
    pub last_local_time_ns: Option<i64>,
    pub last_quote_time_ns: Option<i64>,
    pub book: SnapshotBookView,
}

/// A book at one moment, with its texts and levels as sequences.
#[verifier::ext_equal]
pub struct SnapshotModel {
    pub symbol: Seq<char>,
    pub channel: u32,
    pub kind: SnapshotKind,
    pub boundary_time_ns: i64,
    pub last_local_time_ns: Option<i64>,
    pub last_quote_time_ns: Option<i64>,
    pub book: SnapshotBookModel,
}

impl View for BookSnapshot {
    type V = SnapshotModel;

    open spec fn view(&self) -> SnapshotModel {
        SnapshotModel {
            symbol: self.symbol@,
            channel: self.channel,
            kind: self.kind,
            boundary_time_ns: self.boundary_time_ns,
            last_local_time_ns: self.last_local_time_ns,
            last_quote_time_ns: self.last_quote_time_ns,
            book: self.book@,
        }
    }
}

impl SnapshotModel {
    /// The snapshot of a book.
    pub open spec fn of(
        m: BookModel,
        symbol: Seq<char>,
        channel: u32,
        kind: SnapshotKind,
        boundary_time_ns: i64,
        depth: usize,
    ) -> Self {
        SnapshotModel {
            symbol,
            channel,
            kind,
            boundary_time_ns,
            last_local_time_ns: match m.last_meta {
                Some(meta) => Some(meta.local_time.spec_nanos()),
                None => None,
            },
            last_quote_time_ns: match m.last_meta {
                Some(meta) => Some(meta.quote_time.spec_nanos()),
                None => None,
            },
            book: SnapshotBookModel::of(m, depth),
        }
    }
}

impl BookSnapshot {
    pub fn capture(
        book: &OrderBook,
        channel: u32,
        kind: SnapshotKind,
        boundary_time_ns: i64,
        depth: usize,
    ) -> (r: Self)
        requires
            book.wf(),
        ensures
            r@ == SnapshotModel::of(
                book@,
                book.spec_config().book_key.symbol@,
                channel,
                kind,
                boundary_time_ns,
                depth,
            ),
    {
        let summary = book.summary();
        Self {
            symbol: String::from_str(summary.book_key.symbol.as_str()),
            channel,
            kind,
            boundary_time_ns,
            last_local_time_ns: match summary.last_local_time {
                Some(time) => Some(time.as_nanos()),
                None => None,
            },
            last_quote_time_ns: match summary.last_quote_time {
                Some(time) => Some(time.as_nanos()),
                None => None,
            },
            book: SnapshotBookView::from_book(book, depth),
        }
    }
}

/// The times of a session at which snapshots are taken: every interval after the start,
/// up to the end.
pub open spec fn session_grid(start: int, end: int, interval: int) -> Seq<i64> {
    if end < start + interval {
        Seq::empty()
    } else {
        Seq::new(((end - start) / interval) as nat, |i: int| (start + (i + 1) * interval) as i64)
    }
}

/// Walks the grid of snapshot times of a trading day, which skips the lunch break.
pub struct SnapshotCursor {
    sessions: [(i64, i64); 2],
    interval_ns: i64,
    session: usize,
    next: Option<i64>,
}

/// A time of a day, given as a literal.
pub open spec fn day_time(day: TradingDay, text: &'static str) -> Result<i64, ErrorModel> {
    timestamp_result(day, text@)
}

/// All snapshot times of a day, or why there are none.
pub open spec fn day_grid(day: TradingDay, schedule: SnapshotSchedule) -> Result<
    Seq<i64>,
    ErrorModel,
> {
    match (
        day_time(day, "09:15:00.000"),
        day_time(day, "11:30:00.000"),
        day_time(day, "13:00:00.000"),
        day_time(day, "15:00:00.000"),
    ) {
        (Err(error), _, _, _) => Err(error),
        (_, Err(error), _, _) => Err(error),
        (_, _, Err(error), _) => Err(error),
        (_, _, _, Err(error)) => Err(error),
        (Ok(start), Ok(noon), Ok(resumed), Ok(close)) => {
            let interval = schedule.interval.spec_nanos() as int;
            if interval > i64::MAX {
                Err(ErrorModel::Arithmetic("snapshot interval"@))
            } else if start + interval > i64::MAX || (start + interval > noon && resumed
                + interval > i64::MAX) {
                Err(ErrorModel::Arithmetic("snapshot boundary"@))
            } else {
                Ok(
                    session_grid(start as int, noon as int, interval) + session_grid(
                        resumed as int,
                        close as int,
                        interval,
                    ),
                )
            }
        },
    }
}

/// How many times at the front are due.
pub open spec fn leading_due(times: Seq<i64>, now: i64) -> nat
    decreases times.len(),
{
    if times.len() > 0 && times[0] <= now {
        1 + leading_due(times.drop_first(), now)
    } else {
        0
    }
}

proof fn lemma_leading_due(times: Seq<i64>, now: i64, n: int)
    requires
        0 <= n <= times.len(),
        forall|i: int| 0 <= i < n ==> #[trigger] times[i] <= now,
        n < times.len() ==> times[n] > now,
    ensures
        leading_due(times, now) == n,
    decreases n,
{
    if n > 0 {
        let rest = times.drop_first();
        assert forall|i: int| 0 <= i < n - 1 implies #[trigger] rest[i] <= now by {
            assert(rest[i] == times[i + 1]);
        }
        lemma_leading_due(rest, now, n - 1);
        assert(times[0] <= now);
    }
}

/// Past its first time a grid goes on as the grid from there.
proof fn lemma_grid_step(first: int, end: int, interval: int)
    requires
        interval > 0,
        first <= end,
    ensures
        session_grid(first - interval, end, interval).len() > 0,
        session_grid(first - interval, end, interval)[0] == first as i64,
        session_grid(first - interval, end, interval).drop_first() == session_grid(
            first,
            end,
            interval,
        ),
{
    let whole = session_grid(first - interval, end, interval);
    let rest = session_grid(first, end, interval);
    vstd::arithmetic::div_mod::lemma_div_plus_one(end - first, interval);
    vstd::arithmetic::div_mod::lemma_div_pos_is_pos(end - first, interval);
    assert(whole.len() == 1 + (end - first) / interval);
    assert(1 * interval == interval);
    if end < first + interval {
        vstd::arithmetic::div_mod::lemma_basic_div(end - first, interval);
        assert(whole.drop_first() =~= rest);
    } else {
        assert forall|i: int| 0 <= i < rest.len() implies whole.drop_first()[i] == rest[i] by {
            assert(first - interval + (i + 2) * interval == first + (i + 1) * interval)
                by (nonlinear_arith);
        }
        assert(whole.drop_first() =~= rest);
    }
}

impl SnapshotCursor {
    /// The snapshot times still to come.
    pub closed spec fn remaining(self) -> Seq<i64> {
        match self.next {
            None => Seq::empty(),
            Some(next) => {
                let interval = self.interval_ns as int;
                let (_, end) = self.sessions[self.session as int];
                let (resumed, close) = self.sessions[1];
                session_grid(next - interval, end as int, interval) + if self.session == 0 {
                    session_grid(resumed as int, close as int, interval)
                } else {
                    Seq::empty()
                }
            },
        }
    }

    #[verifier::type_invariant]
    closed spec fn inv(self) -> bool {
        &&& self.interval_ns > 0
        &&& self.next matches Some(next) ==> self.session < 2 && next
            <= self.sessions[self.session as int].1
    }

    pub fn new(trading_day: TradingDay, schedule: &SnapshotSchedule) -> (r: Result<
        Self,
        ProductionError,
    >)
        requires
            schedule.interval.spec_nanos() > 0,
        ensures
            match day_grid(trading_day, *schedule) {
                Ok(times) => r is Ok && r->Ok_0.remaining() == times,
                Err(error) => r is Err && r->Err_0@ == error,
            },
    {
        let start: i64 = match parse_market_timestamp(trading_day, "09:15:00.000") {
            Ok(time) => time,
            Err(error) => return Err(error),
        };
        let noon: i64 = match parse_market_timestamp(trading_day, "11:30:00.000") {
            Ok(time) => time,
            Err(error) => return Err(error),
        };
        let resumed: i64 = match parse_market_timestamp(trading_day, "13:00:00.000") {
            Ok(time) => time,
            Err(error) => return Err(error),
        };
        let close: i64 = match parse_market_timestamp(trading_day, "15:00:00.000") {
            Ok(time) => time,
            Err(error) => return Err(error),
        };
        if schedule.interval.as_nanos() > i64::MAX as u128 {
            return Err(ProductionError::Arithmetic("snapshot interval"));
        }
        let interval_ns: i64 = schedule.interval.as_nanos() as i64;
        let sessions = [(start, noon), (resumed, close)];
        let first: i64 = match start.checked_add(interval_ns) {
            Some(first) => first,
            None => return Err(ProductionError::Arithmetic("snapshot boundary")),
        };
        let ghost iv = interval_ns as int;
        let ghost morning = session_grid(start as int, noon as int, iv);
        let ghost afternoon = session_grid(resumed as int, close as int, iv);
        if first <= noon {
            let cursor = Self { sessions, interval_ns, session: 0, next: Some(first) };
            assert(cursor.remaining() =~= morning + afternoon);
            return Ok(cursor);
        }
        let second: i64 = match resumed.checked_add(interval_ns) {
            Some(second) => second,
            None => return Err(ProductionError::Arithmetic("snapshot boundary")),
        };
        let cursor = if second <= close {
            Self { sessions, interval_ns, session: 1, next: Some(second) }
        } else {
            Self { sessions, interval_ns, session: 2, next: None }
        };
        assert(cursor.remaining() =~= morning + afternoon);
        Ok(cursor)
    }

    /// Steps past the next snapshot time.
    fn advance(&self) -> (r: SnapshotCursor)
        requires
            self.next is Some,
        ensures
            self.remaining().len() > 0,
            self.remaining()[0] == self.next->0,
            r.remaining() == self.remaining().drop_first(),
    {
        proof {
            use_type_invariant(self);
        }
        let current: i64 = match self.next {
            Some(current) => current,
            None => return SnapshotCursor {
                sessions: self.sessions,
                interval_ns: self.interval_ns,
                session: self.session,
                next: None,
            },
        };
        let end: i64 = self.sessions[self.session].1;
        let interval: i128 = self.interval_ns as i128;
        let ghost iv = self.interval_ns as int;
        proof {
            lemma_grid_step(current as int, end as int, iv);
        }
        let ghost here = session_grid(current - iv, end as int, iv);
        let ghost rest = session_grid(current as int, end as int, iv);
        if end as i128 - current as i128 >= interval {
            let r = SnapshotCursor {
                sessions: self.sessions,
                interval_ns: self.interval_ns,
                session: self.session,
                next: Some(current + self.interval_ns),
            };
            assert(r.remaining() =~= self.remaining().drop_first());
            return r;
        }
        assert(rest.len() == 0);
        let (resumed, close) = self.sessions[1];
        let ghost afternoon = session_grid(resumed as int, close as int, iv);
        if self.session == 0 && close as i128 - resumed as i128 >= interval {
            let r = SnapshotCursor {
                sessions: self.sessions,
                interval_ns: self.interval_ns,
                session: 1,
                next: Some(resumed + self.interval_ns),
            };
            assert(r.remaining() =~= afternoon);
            assert(self.remaining().drop_first() =~= afternoon);
            return r;
        }
        let r = SnapshotCursor {
            sessions: self.sessions,
            interval_ns: self.interval_ns,
            session: 2,
            next: None,
        };
        assert(r.remaining() =~= self.remaining().drop_first());
        r
    }

    /// Takes the snapshot times up to and including the given time.
    pub fn drain_due(&mut self, quote_time_ns: i64) -> (r: Vec<i64>)
        ensures
            r@ == old(self).remaining().take(
                leading_due(old(self).remaining(), quote_time_ns) as int,
            ),
            final(self).remaining() == old(self).remaining().skip(
                leading_due(old(self).remaining(), quote_time_ns) as int,
            ),
    {
        let mut due: Vec<i64> = Vec::new();
        let ghost all = self.remaining();
        assert(all.skip(0) =~= all);
        loop
            invariant_except_break
                due@.len() <= all.len(),
                self.remaining() == all.skip(due@.len() as int),
                due@ =~= all.take(due@.len() as int),
                forall|i: int| 0 <= i < due@.len() ==> #[trigger] all[i] <= quote_time_ns,
            ensures
                due@.len() <= all.len(),
                self.remaining() == all.skip(due@.len() as int),
                due@ =~= all.take(due@.len() as int),
                forall|i: int| 0 <= i < due@.len() ==> #[trigger] all[i] <= quote_time_ns,
                due@.len() < all.len() ==> all[due@.len() as int] > quote_time_ns,
            decreases all.len() - due@.len(),
        {
            if self.next.is_none() {
                assert(all.skip(due@.len() as int).len() == 0);
                break;
            }
            let following = self.advance();
            let next: i64 = match self.next {
                Some(next) => next,
                None => 0,
            };
            assert(self.remaining()[0] == all[due@.len() as int]);
            if next > quote_time_ns {
                break;
            }
            assert(self.remaining().drop_first() =~= all.skip(due@.len() as int + 1));
            due.push(next);
            *self = following;
        }
        proof {
            lemma_leading_due(all, quote_time_ns, due@.len() as int);
        }
        due
    }

    /// Takes all snapshot times still to come.
    pub fn finish(&mut self) -> (r: Vec<i64>)
        ensures
            r@ == old(self).remaining(),
            final(self).remaining().len() == 0,
    {
        let ghost all = self.remaining();
        proof {
            lemma_leading_due(all, i64::MAX, all.len() as int);
            assert(all.take(all.len() as int) =~= all);
        }
        self.drain_due(i64::MAX)
    }
}

/// Whether times go up.
pub open spec fn strictly_ascend(times: Seq<i64>) -> bool {
    forall|i: int, j: int| 0 <= i < j < times.len() ==> #[trigger] times[i] < #[trigger] times[j]
}

/// The times of a session go up, from after its start to its end at most.
proof fn lemma_session_grid(start: int, end: int, interval: int)
    requires
        interval > 0,
        i64::MIN <= start,
        end <= i64::MAX,
    ensures
        strictly_ascend(session_grid(start, end, interval)),
        forall|i: int|
            0 <= i < session_grid(start, end, interval).len() ==> start < #[trigger] session_grid(
                start,
                end,
                interval,
            )[i] <= end,
{
    let times = session_grid(start, end, interval);
    if end >= start + interval {
        let count = (end - start) / interval;
        assert(count * interval <= end - start) by (nonlinear_arith)
            requires
                interval > 0,
                count == (end - start) / interval,
        ;
        assert forall|i: int| 0 <= i < times.len() implies start < #[trigger] times[i] <= end
            && times[i] == start + (i + 1) * interval by {
            assert((i + 1) * interval <= count * interval) by (nonlinear_arith)
                requires
                    i + 1 <= count,
                    interval > 0,
            ;
            assert((i + 1) * interval >= interval) by (nonlinear_arith)
                requires
                    i >= 0,
                    interval > 0,
            ;
        }
        assert forall|i: int, j: int| 0 <= i < j < times.len() implies #[trigger] times[i]
            < #[trigger] times[j] by {
            assert((i + 1) * interval < (j + 1) * interval) by (nonlinear_arith)
                requires
                    i < j,
                    interval > 0,
            ;
        }
    }
}

/// What a literal time of a day comes to.
pub(crate) proof fn lemma_literal_time(midnight: int, text: Seq<char>, millis: int)
    requires
        vstd::utf8::is_ascii_chars(text),
        text.len() == 12,
        text[2] == ':',
        text[5] == ':',
        text[8] == '.',
        clock_millis(Seq::new(12, |i: int| text[i] as u8)) == Some(millis),
        clock_result(midnight, text) is Ok,
    ensures
        clock_result(midnight, text)->Ok_0 == (midnight + millis) * 1_000_000,
{
    vstd::utf8::is_ascii_chars_encode_utf8(text);
    assert(encode_utf8(text) =~= Seq::new(12, |i: int| text[i] as u8));
}

/// The start and the end of the morning and of the afternoon come one after the other.
pub(crate) proof fn lemma_sessions(day: TradingDay)
    requires
        day_time(day, "09:15:00.000") is Ok,
        day_time(day, "11:30:00.000") is Ok,
        day_time(day, "13:00:00.000") is Ok,
        day_time(day, "15:00:00.000") is Ok,
    ensures
        day_time(day, "09:15:00.000")->Ok_0 < day_time(day, "11:30:00.000")->Ok_0,
        day_time(day, "11:30:00.000")->Ok_0 < day_time(day, "13:00:00.000")->Ok_0,
        day_time(day, "13:00:00.000")->Ok_0 < day_time(day, "15:00:00.000")->Ok_0,
        day_time(day, "09:15:00.000")->Ok_0 == (shanghai_midnight(day) + 33_300_000) * 1_000_000,
        day_time(day, "11:30:00.000")->Ok_0 == (shanghai_midnight(day) + 41_400_000) * 1_000_000,
        day_time(day, "13:00:00.000")->Ok_0 == (shanghai_midnight(day) + 46_800_000) * 1_000_000,
        day_time(day, "15:00:00.000")->Ok_0 == (shanghai_midnight(day) + 54_000_000) * 1_000_000,
{
    let midnight = shanghai_midnight(day);
    reveal_strlit("09:15:00.000");
    reveal_strlit("11:30:00.000");
    reveal_strlit("13:00:00.000");
    reveal_strlit("15:00:00.000");
    lemma_literal_time(midnight, "09:15:00.000"@, 33_300_000);
    lemma_literal_time(midnight, "11:30:00.000"@, 41_400_000);
    lemma_literal_time(midnight, "13:00:00.000"@, 46_800_000);
    lemma_literal_time(midnight, "15:00:00.000"@, 54_000_000);
}

/// The snapshot times of a day go up, and none lies in the lunch break.
pub proof fn snapshot_times_skip_the_lunch_break(day: TradingDay, schedule: SnapshotSchedule)
    requires
        schedule.interval.spec_nanos() > 0,
        day_grid(day, schedule) is Ok,
    ensures
        strictly_ascend(day_grid(day, schedule)->Ok_0),
        forall|i: int|
            0 <= i < day_grid(day, schedule)->Ok_0.len() ==> {
                let time = #[trigger] day_grid(day, schedule)->Ok_0[i];
                ||| day_time(day, "09:15:00.000")->Ok_0 < time <= day_time(
                    day,
                    "11:30:00.000",
                )->Ok_0
                ||| day_time(day, "13:00:00.000")->Ok_0 < time <= day_time(
                    day,
                    "15:00:00.000",
                )->Ok_0
            },
{
    let start = day_time(day, "09:15:00.000")->Ok_0;
    let noon = day_time(day, "11:30:00.000")->Ok_0;
    let resumed = day_time(day, "13:00:00.000")->Ok_0;
    let close = day_time(day, "15:00:00.000")->Ok_0;
    let interval = schedule.interval.spec_nanos() as int;
    lemma_sessions(day);
    lemma_session_grid(start as int, noon as int, interval);
    lemma_session_grid(resumed as int, close as int, interval);
    let morning = session_grid(start as int, noon as int, interval);
    let afternoon = session_grid(resumed as int, close as int, interval);
    let times = morning + afternoon;
    assert forall|i: int| 0 <= i < times.len() implies {
        let time = #[trigger] times[i];
        (start < time <= noon && i < morning.len()) || (resumed < time <= close && i
            >= morning.len())
    } by {
        if i < morning.len() {
            assert(times[i] == morning[i]);
        } else {
            assert(times[i] == afternoon[i - morning.len()]);
        }
    }
    assert forall|i: int, j: int| 0 <= i < j < times.len() implies #[trigger] times[i]
        < #[trigger] times[j] by {
        if j < morning.len() {
            assert(times[i] == morning[i] && times[j] == morning[j]);
        } else if i >= morning.len() {
            assert(times[i] == afternoon[i - morning.len()] && times[j] == afternoon[j
                - morning.len()]);
        }
    }
}

/// Of ascending times, those that are due are those up to the present.
pub proof fn due_times_are_those_that_have_come(times: Seq<i64>, now: i64, i: int)
    requires
        strictly_ascend(times),
        0 <= i < times.len(),
    ensures
        leading_due(times, now) <= times.len(),
        i < leading_due(times, now) <==> times[i] <= now,
    decreases times.len(),
{
    if times[0] <= now {
        let rest = times.drop_first();
        assert forall|a: int, b: int| 0 <= a < b < rest.len() implies #[trigger] rest[a]
            < #[trigger] rest[b] by {
            assert(times[a + 1] < times[b + 1]);
        }
        if i > 0 {
            assert(rest[i - 1] == times[i]);
            due_times_are_those_that_have_come(rest, now, i - 1);
        } else if rest.len() > 0 {
            due_times_are_those_that_have_come(rest, now, 0);
        }
    } else if i > 0 {
        assert(times[0] < times[i]);
    }
}

/// What a cursor over times hands out when it is drained up to each of several quotes, and
/// the times that are left.
pub open spec fn drains(times: Seq<i64>, quotes: Seq<i64>) -> (Seq<Seq<i64>>, Seq<i64>)
    decreases quotes.len(),
{
    if quotes.len() == 0 {
        (Seq::empty(), times)
    } else {
        let (given, left) = drains(times, quotes.drop_last());
        let due = leading_due(left, quotes.last()) as int;
        (given.push(left.take(due)), left.skip(due))
    }
}

proof fn lemma_drains(times: Seq<i64>, quotes: Seq<i64>)
    requires
        strictly_ascend(times),
    ensures
        ({
            let (given, left) = drains(times, quotes);
            &&& given.len() == quotes.len()
            &&& given.flatten() + left == times
            &&& strictly_ascend(left)
            &&& forall|k: int, i: int|
                0 <= k < given.len() && 0 <= i < given[k].len() ==> #[trigger] given[k][i]
                    <= quotes[k]
            &&& forall|k: int, i: int|
                #![trigger quotes[k], left[i]]
                0 <= k < quotes.len() && 0 <= i < left.len() ==> quotes[k] < left[i]
        }),
    decreases quotes.len(),
{
    let (given, left) = drains(times, quotes);
    if quotes.len() == 0 {
        assert(given.flatten() =~= Seq::<i64>::empty());
        assert(given.flatten() + left =~= times);
    } else {
        let (earlier, rest) = drains(times, quotes.drop_last());
        let now = quotes.last();
        lemma_drains(times, quotes.drop_last());
        let due = leading_due(rest, now) as int;
        if rest.len() > 0 {
            due_times_are_those_that_have_come(rest, now, 0);
        }
        assert(given == earlier.push(rest.take(due)));
        assert(left == rest.skip(due));
        assert(given.flatten() == earlier.flatten() + rest.take(due)) by {
            given.lemma_flatten_and_flatten_alt_are_equivalent();
            earlier.lemma_flatten_and_flatten_alt_are_equivalent();
            assert(given.drop_last() =~= earlier);
            assert(given.last() == rest.take(due));
        }
        assert(given.flatten() + left =~= earlier.flatten() + rest);
        assert(given.flatten() + left =~= times);
        assert forall|k: int, i: int|
            0 <= k < given.len() && 0 <= i < given[k].len() implies #[trigger] given[k][i]
            <= quotes[k] by {
            if k < earlier.len() {
                assert(given[k] == earlier[k]);
                assert(earlier[k][i] <= quotes.drop_last()[k]);
            } else {
                assert(given[k] == rest.take(due));
                due_times_are_those_that_have_come(rest, now, i);
            }
        }
        assert forall|k: int, i: int|
            #![trigger quotes[k], left[i]]
            0 <= k < quotes.len() && 0 <= i < left.len() implies quotes[k] < left[i] by {
            assert(left[i] == rest[due + i]);
            if k < quotes.len() - 1 {
                assert(quotes.drop_last()[k] < rest[due + i]);
            } else {
                due_times_are_those_that_have_come(rest, now, due + i);
            }
        }
        assert forall|a: int, b: int| 0 <= a < b < left.len() implies #[trigger] left[a]
            < #[trigger] left[b] by {
            assert(rest[due + a] < rest[due + b]);
        }
    }
}

/// However the quotes come, draining a day hands every snapshot time out once and in order:
/// what was handed out and what is left together are the grid of the day, no time is handed
/// out before a quote has reached it, and none is left that a quote has reached.
pub proof fn drained_times_come_once_and_in_order(
    day: TradingDay,
    schedule: SnapshotSchedule,
    quotes: Seq<i64>,
)
    requires
        schedule.interval.spec_nanos() > 0,
        day_grid(day, schedule) is Ok,
    ensures
        ({
            let grid = day_grid(day, schedule)->Ok_0;
            let (given, left) = drains(grid, quotes);
            &&& strictly_ascend(grid)
            &&& given.len() == quotes.len()
            &&& given.flatten() + left == grid
            &&& forall|k: int, i: int|
                0 <= k < given.len() && 0 <= i < given[k].len() ==> #[trigger] given[k][i]
                    <= quotes[k]
            &&& forall|k: int, i: int|
                #![trigger quotes[k], left[i]]
                0 <= k < quotes.len() && 0 <= i < left.len() ==> quotes[k] < left[i]
        }),
{
    snapshot_times_skip_the_lunch_break(day, schedule);
    lemma_drains(day_grid(day, schedule)->Ok_0, quotes);
}

} // verus!
