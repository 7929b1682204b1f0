use vstd::prelude::*;

use crate::market_data::{
    ApplySequence, BookEvent, MarketDataRecord, OrderKey, OrderRecord, TradeRecord,
};
use crate::order_book::{BookConfig, BookError, BookModel, OrderBook, MAX_STORED_ORDERS};
use crate::order_book::laws::orders_come_one_at_a_time;

use super::normalization::{
    normalize, normalized, LegacyContext, NormalizeError, NormalizeErrorModel,
};
use super::references::{OrderReferenceIndex, ReferenceIndexModel};

verus! {

#[derive(Clone, Copy, Debug, PartialEq, Eq, Structural)]
pub enum ReplaySource {
    Order,
    Trade,
    Both,
}

#[derive(Debug, PartialEq, Eq)]
#[allow(inconsistent_fields)]
pub enum ReplayErrorKind {
    ContextMismatch,
    NonEmptyBook,
    InvalidRawSequence { value: i64 },
    NonIncreasingSequence { previous: i64, current: i64 },
    AmbiguousSequence { sequence: i64 },
    Normalize(NormalizeError),
    Apply(BookError),
}

/// Why a replay failed, with texts as sequences of characters.
#[allow(inconsistent_fields)]
pub enum ReplayKindModel {
    ContextMismatch,
    NonEmptyBook,
    InvalidRawSequence { value: i64 },
    NonIncreasingSequence { previous: i64, current: i64 },
    AmbiguousSequence { sequence: i64 },
    Normalize(NormalizeErrorModel),
    Apply(BookError),
}

impl View for ReplayErrorKind {
    type V = ReplayKindModel;

    open spec fn view(&self) -> ReplayKindModel {
        match *self {
            ReplayErrorKind::ContextMismatch => ReplayKindModel::ContextMismatch,
            ReplayErrorKind::NonEmptyBook => ReplayKindModel::NonEmptyBook,
            ReplayErrorKind::InvalidRawSequence { value } => ReplayKindModel::InvalidRawSequence {
                value,
            },
            ReplayErrorKind::NonIncreasingSequence { previous, current } =>
                ReplayKindModel::NonIncreasingSequence { previous, current },
            ReplayErrorKind::AmbiguousSequence { sequence } => ReplayKindModel::AmbiguousSequence {
                sequence,
            },
            ReplayErrorKind::Normalize(error) => ReplayKindModel::Normalize(error@),
            ReplayErrorKind::Apply(error) => ReplayKindModel::Apply(error),
        }
    }
}

/// Fail-fast replay error. Indices point at the unconsumed record in the lists passed to the
/// failed call.
#[derive(Debug, PartialEq, Eq)]
pub struct ReplayError {
    pub kind: ReplayErrorKind,
    pub source: ReplaySource,
    pub order_index: usize,
    pub trade_index: usize,
    pub apply_sequence: Option<ApplySequence>,
    pub record: Option<MarketDataRecord>,
}

/// A replay error, with texts as sequences of characters.
pub struct ReplayErrorModel {
    pub kind: ReplayKindModel,
    pub source: ReplaySource,
    pub order_index: int,
    pub trade_index: int,
    pub apply_sequence: Option<ApplySequence>,
    pub record: Option<MarketDataRecord>,
}

impl View for ReplayError {
    type V = ReplayErrorModel;

    open spec fn view(&self) -> ReplayErrorModel {
        ReplayErrorModel {
            kind: self.kind@,
            source: self.source,
            order_index: self.order_index as int,
            trade_index: self.trade_index as int,
            apply_sequence: self.apply_sequence,
            record: self.record,
        }
    }
}

/// Stateful legacy replayer.
///
/// After a failure, call `replay` again on lists beginning at the returned indices. The failed
/// record was not applied and did not update the historical reference index or the next
/// application sequence.
pub struct LegacyReplay {
    context: LegacyContext,
    references: OrderReferenceIndex,
    started: bool,
    last_order_sequence: Option<i64>,
    last_trade_sequence: Option<i64>,
}

/// What a replayer knows.
#[verifier::ext_equal]
pub struct LegacyReplayModel {
    pub context: LegacyContext,
    pub references: ReferenceIndexModel,
    pub started: bool,
    pub last_order_sequence: Option<i64>,
    pub last_trade_sequence: Option<i64>,
}

impl View for LegacyReplay {
    type V = LegacyReplayModel;

    closed spec fn view(&self) -> LegacyReplayModel {
        LegacyReplayModel {
            context: self.context,
            references: self.references@,
            started: self.started,
            last_order_sequence: self.last_order_sequence,
            last_trade_sequence: self.last_trade_sequence,
        }
    }
}

/// What a replay leaves: the replayer, the book and why it stopped, if it did.
#[verifier::ext_equal]
pub struct LegacyRun {
    pub replay: LegacyReplayModel,
    pub book: BookModel,
    pub error: Option<ReplayErrorModel>,
}

/// An error of the whole call.
pub open spec fn call_error(kind: ReplayKindModel) -> ReplayErrorModel {
    ReplayErrorModel {
        kind,
        source: ReplaySource::Both,
        order_index: 0,
        trade_index: 0,
        apply_sequence: None,
        record: None,
    }
}

/// What is wrong with a sequence that follows another.
pub open spec fn sequence_kind(previous: Option<i64>, current: i64) -> Option<ReplayKindModel> {
    if current <= 0 {
        Some(ReplayKindModel::InvalidRawSequence { value: current })
    } else if previous is Some && current <= previous->0 {
        Some(ReplayKindModel::NonIncreasingSequence { previous: previous->0, current })
    } else {
        None
    }
}

/// What is wrong with the sequences of records, from a place on.
pub open spec fn stream_error(
    records: Seq<MarketDataRecord>,
    previous: Option<i64>,
    source: ReplaySource,
    at: int,
) -> Option<ReplayErrorModel>
    decreases records.len() - at,
{
    if at < 0 || at >= records.len() {
        None
    } else {
        let current = record_sequence(records[at]);
        match sequence_kind(previous, current) {
            Some(kind) => Some(
                ReplayErrorModel {
                    kind,
                    source,
                    order_index: if source == ReplaySource::Order {
                        at
                    } else {
                        0
                    },
                    trade_index: if source == ReplaySource::Trade {
                        at
                    } else {
                        0
                    },
                    apply_sequence: None,
                    record: Some(records[at]),
                },
            ),
            None => stream_error(records, Some(current), source, at + 1),
        }
    }
}

pub open spec fn record_sequence(record: MarketDataRecord) -> i64 {
    match record {
        MarketDataRecord::Order(order) => order.sequence,
        MarketDataRecord::Trade(trade) => trade.sequence,
    }
}

pub open spec fn order_records(orders: Seq<OrderRecord>) -> Seq<MarketDataRecord> {
    orders.map_values(|order: OrderRecord| MarketDataRecord::Order(order))
}

pub open spec fn trade_records(trades: Seq<TradeRecord>) -> Seq<MarketDataRecord> {
    trades.map_values(|trade: TradeRecord| MarketDataRecord::Trade(trade))
}

/// The next application sequence of a book.
pub open spec fn next_apply(book: BookModel) -> Option<ApplySequence> {
    if book.next_sequence() > u64::MAX {
        None
    } else {
        Some(ApplySequence::spec_new(book.next_sequence() as u64))
    }
}

impl LegacyReplayModel {
    /// What is wrong with a book for this replayer.
    pub open spec fn context_error(self, config: BookConfig, book: BookModel) -> Option<
        ReplayErrorModel,
    > {
        if !config.book_key.spec_same(self.context.book_key) || config.price_scale
            != self.context.price_scale {
            Some(call_error(ReplayKindModel::ContextMismatch))
        } else if !self.started && book.last_meta is Some {
            Some(call_error(ReplayKindModel::NonEmptyBook))
        } else {
            None
        }
    }

    /// What one record does.
    #[verifier::opaque]
    pub open spec fn applied(
        self,
        config: BookConfig,
        book: BookModel,
        source: ReplaySource,
        record: MarketDataRecord,
        order_index: int,
        trade_index: int,
    ) -> LegacyRun {
        let refused = ReplayErrorModel {
            kind: ReplayKindModel::Apply(BookError::ApplySequenceOverflow),
            source,
            order_index,
            trade_index,
            apply_sequence: next_apply(book),
            record: Some(record),
        };
        if next_apply(book) is None {
            LegacyRun { replay: self, book, error: Some(refused) }
        } else {
            match normalized(record, next_apply(book)->0, self.context, self.references) {
                Err(error) => LegacyRun {
                    replay: self,
                    book,
                    error: Some(
                        ReplayErrorModel { kind: ReplayKindModel::Normalize(error), ..refused },
                    ),
                },
                Ok(event) => match book.apply_error(config, event) {
                    Some(error) => LegacyRun {
                        replay: self,
                        book,
                        error: Some(
                            ReplayErrorModel { kind: ReplayKindModel::Apply(error), ..refused },
                        ),
                    },
                    None => LegacyRun {
                        replay: self.noted(event).advanced(source, record),
                        book: book.apply_next(event),
                        error: None,
                    },
                },
            }
        }
    }

    /// The replayer once an event was applied.
    pub open spec fn noted(self, event: BookEvent) -> Self {
        match event {
            BookEvent::AddOrder(add) => LegacyReplayModel {
                references: self.references.registered(add.order_key),
                ..self
            },
            _ => self,
        }
    }

    /// The replayer once a record was consumed.
    pub open spec fn advanced(self, source: ReplaySource, record: MarketDataRecord) -> Self {
        if source == ReplaySource::Order {
            LegacyReplayModel { last_order_sequence: Some(record_sequence(record)), ..self }
        } else {
            LegacyReplayModel { last_trade_sequence: Some(record_sequence(record)), ..self }
        }
    }

    /// What the records from given places on do, in the order of their sequences.
    pub open spec fn merged(
        self,
        config: BookConfig,
        book: BookModel,
        orders: Seq<OrderRecord>,
        trades: Seq<TradeRecord>,
        i: int,
        j: int,
    ) -> LegacyRun
        decreases (orders.len() - i) + (trades.len() - j),
    {
        if i < 0 || j < 0 || i > orders.len() || j > trades.len() || (i == orders.len() && j
            == trades.len()) {
            LegacyRun { replay: self, book, error: None }
        } else if i < orders.len() && j < trades.len() && orders[i].sequence
            == trades[j].sequence {
            LegacyRun {
                replay: self,
                book,
                error: Some(
                    ReplayErrorModel {
                        kind: ReplayKindModel::AmbiguousSequence { sequence: orders[i].sequence },
                        source: ReplaySource::Both,
                        order_index: i,
                        trade_index: j,
                        apply_sequence: next_apply(book),
                        record: None,
                    },
                ),
            }
        } else if takes_order(orders, trades, i, j) {
            let run = self.applied(
                config,
                book,
                ReplaySource::Order,
                MarketDataRecord::Order(orders[i]),
                i,
                j,
            );
            if run.error is Some {
                run
            } else {
                run.replay.merged(config, run.book, orders, trades, i + 1, j)
            }
        } else {
            let run = self.applied(
                config,
                book,
                ReplaySource::Trade,
                MarketDataRecord::Trade(trades[j]),
                i,
                j,
            );
            if run.error is Some {
                run
            } else {
                run.replay.merged(config, run.book, orders, trades, i, j + 1)
            }
        }
    }

    /// What a call does.
    pub open spec fn replayed(
        self,
        config: BookConfig,
        book: BookModel,
        orders: Seq<OrderRecord>,
        trades: Seq<TradeRecord>,
    ) -> LegacyRun {
        let order_error = stream_error(
            order_records(orders),
            self.last_order_sequence,
            ReplaySource::Order,
            0,
        );
        let trade_error = stream_error(
            trade_records(trades),
            self.last_trade_sequence,
            ReplaySource::Trade,
            0,
        );
        if self.context_error(config, book) is Some {
            LegacyRun { replay: self, book, error: self.context_error(config, book) }
        } else if order_error is Some {
            LegacyRun { replay: self, book, error: order_error }
        } else if trade_error is Some {
            LegacyRun { replay: self, book, error: trade_error }
        } else {
            LegacyReplayModel { started: true, ..self }.merged(config, book, orders, trades, 0, 0)
        }
    }
}

/// Whether the next record is an order.
pub open spec fn takes_order(
    orders: Seq<OrderRecord>,
    trades: Seq<TradeRecord>,
    i: int,
    j: int,
) -> bool {
    i < orders.len() && (j >= trades.len() || orders[i].sequence < trades[j].sequence)
}

fn failed(kind: ReplayErrorKind) -> (r: ReplayError)
    ensures
        r@ == call_error(kind@),
{
    ReplayError {
        kind,
        source: ReplaySource::Both,
        order_index: 0,
        trade_index: 0,
        apply_sequence: None,
        record: None,
    }
}

/// What is wrong with a sequence that follows another.
fn check_sequence(previous: Option<i64>, current: i64) -> (r: Option<ReplayErrorKind>)
    ensures
        match sequence_kind(previous, current) {
            Some(kind) => r is Some && r->0@ == kind,
            None => r is None,
        },
{
    if current <= 0 {
        return Some(ReplayErrorKind::InvalidRawSequence { value: current });
    }
    if let Some(value) = previous {
        if current <= value {
            return Some(ReplayErrorKind::NonIncreasingSequence { previous: value, current });
        }
    }
    None
}

fn validate_orders(orders: &Vec<OrderRecord>, last: Option<i64>) -> (r: Result<(), ReplayError>)
    ensures
        match stream_error(order_records(orders@), last, ReplaySource::Order, 0) {
            Some(error) => r is Err && r->Err_0@ == error,
            None => r is Ok,
        },
{
    let ghost records = order_records(orders@);
    let mut previous = last;
    let mut at: usize = 0;
    while at < orders.len()
        invariant
            records == order_records(orders@),
            at <= orders@.len(),
            stream_error(records, last, ReplaySource::Order, 0) == stream_error(
                records,
                previous,
                ReplaySource::Order,
                at as int,
            ),
        decreases orders@.len() - at,
    {
        let current: i64 = orders[at].sequence;
        assert(records[at as int] == MarketDataRecord::Order(orders@[at as int]));
        if let Some(kind) = check_sequence(previous, current) {
            return Err(
                ReplayError {
                    kind,
                    source: ReplaySource::Order,
                    order_index: at,
                    trade_index: 0,
                    apply_sequence: None,
                    record: Some(MarketDataRecord::Order(orders[at].clone())),
                },
            );
        }
        previous = Some(current);
        at = at + 1;
    }
    Ok(())
}

fn validate_trades(trades: &Vec<TradeRecord>, last: Option<i64>) -> (r: Result<(), ReplayError>)
    ensures
        match stream_error(trade_records(trades@), last, ReplaySource::Trade, 0) {
            Some(error) => r is Err && r->Err_0@ == error,
            None => r is Ok,
        },
{
    let ghost records = trade_records(trades@);
    let mut previous = last;
    let mut at: usize = 0;
    while at < trades.len()
        invariant
            records == trade_records(trades@),
            at <= trades@.len(),
            stream_error(records, last, ReplaySource::Trade, 0) == stream_error(
                records,
                previous,
                ReplaySource::Trade,
                at as int,
            ),
        decreases trades@.len() - at,
    {
        let current: i64 = trades[at].sequence;
        assert(records[at as int] == MarketDataRecord::Trade(trades@[at as int]));
        if let Some(kind) = check_sequence(previous, current) {
            return Err(
                ReplayError {
                    kind,
                    source: ReplaySource::Trade,
                    order_index: 0,
                    trade_index: at,
                    apply_sequence: None,
                    record: Some(MarketDataRecord::Trade(trades[at].clone())),
                },
            );
        }
        previous = Some(current);
        at = at + 1;
    }
    Ok(())
}

impl LegacyReplay {
    #[must_use]
    pub fn new(context: LegacyContext) -> (r: Self)
        ensures
            r@ == (LegacyReplayModel {
                context,
                references: ReferenceIndexModel::empty(),
                started: false,
                last_order_sequence: None,
                last_trade_sequence: None,
            }),
    {
        Self {
            context,
            references: OrderReferenceIndex::new(),
            started: false,
            last_order_sequence: None,
            last_trade_sequence: None,
        }
    }

    #[must_use]
    pub fn context(&self) -> (r: &LegacyContext)
        ensures
            *r == self@.context,
    {
        &self.context
    }

    fn validate_context(&self, book: &OrderBook) -> (r: Result<(), ReplayError>)
        requires
            book.wf(),
        ensures
            match self@.context_error(book.spec_config(), book@) {
                Some(error) => r is Err && r->Err_0@ == error,
                None => r is Ok,
            },
    {
        let config = book.config();
        if !config.book_key.same(&self.context.book_key) || config.price_scale
            != self.context.price_scale {
            return Err(failed(ReplayErrorKind::ContextMismatch));
        }
        if !self.started && book.last_applied_meta().is_some() {
            return Err(failed(ReplayErrorKind::NonEmptyBook));
        }
        Ok(())
    }

    /// Applies one record.
    fn apply_record(
        &mut self,
        book: &mut OrderBook,
        source: ReplaySource,
        record: MarketDataRecord,
        order_index: usize,
        trade_index: usize,
    ) -> (r: Result<(), ReplayError>)
        requires
            old(book).wf(),
            record is Order ==> old(book)@.orders.len() < MAX_STORED_ORDERS,
            source == ReplaySource::Order <==> record is Order,
        ensures
            final(book).wf(),
            final(book).spec_config() == old(book).spec_config(),
            final(book)@.orders.len() <= old(book)@.orders.len() + if record is Order {
                1int
            } else {
                0
            },
            ({
                let run = old(self)@.applied(
                    old(book).spec_config(),
                    old(book)@,
                    source,
                    record,
                    order_index as int,
                    trade_index as int,
                );
                &&& final(self)@ == run.replay
                &&& final(book)@ == run.book
                &&& match run.error {
                    Some(error) => r is Err && r->Err_0@ == error,
                    None => r is Ok,
                }
            }),
    {
        let ghost start = book@;
        let ghost config = book.spec_config();
        proof {
            reveal(LegacyReplayModel::applied);
            book.orders_are_finite();
        }
        let apply_sequence = match book.next_apply_sequence() {
            Ok(sequence) => sequence,
            Err(error) => return Err(
                ReplayError {
                    kind: ReplayErrorKind::Apply(error),
                    source,
                    order_index,
                    trade_index,
                    apply_sequence: None,
                    record: Some(record),
                },
            ),
        };
        let event = match normalize(&record, apply_sequence, &self.context, &self.references) {
            Ok(event) => event,
            Err(error) => return Err(
                ReplayError {
                    kind: ReplayErrorKind::Normalize(error),
                    source,
                    order_index,
                    trade_index,
                    apply_sequence: Some(apply_sequence),
                    record: Some(record),
                },
            ),
        };
        let added: Option<OrderKey> = match &event {
            BookEvent::AddOrder(add) => Some(add.order_key),
            _ => None,
        };
        proof {
            if start.apply_error(config, event) is None {
                orders_come_one_at_a_time(start, config, event);
            }
        }
        match book.apply(event) {
            Ok(_) => {},
            Err(error) => return Err(
                ReplayError {
                    kind: ReplayErrorKind::Apply(error),
                    source,
                    order_index,
                    trade_index,
                    apply_sequence: Some(apply_sequence),
                    record: Some(record),
                },
            ),
        }
        if let Some(key) = added {
            self.references.register(key);
        }
        match record {
            MarketDataRecord::Order(order) => {
                self.last_order_sequence = Some(order.sequence);
            },
            MarketDataRecord::Trade(trade) => {
                self.last_trade_sequence = Some(trade.sequence);
            },
        }
        Ok(())
    }

    /// Replays orders and trades in the order of their sequences.
    pub fn replay(&mut self, book: &mut OrderBook, orders: &Vec<OrderRecord>, trades: &Vec<TradeRecord>)
        -> (r: Result<(), ReplayError>)
        requires
            old(book).wf(),
            old(book)@.orders.len() + orders@.len() <= MAX_STORED_ORDERS,
        ensures
            final(book).wf(),
            final(book).spec_config() == old(book).spec_config(),
            ({
                let run = old(self)@.replayed(
                    old(book).spec_config(),
                    old(book)@,
                    orders@,
                    trades@,
                );
                &&& final(self)@ == run.replay
                &&& final(book)@ == run.book
                &&& match run.error {
                    Some(error) => r is Err && r->Err_0@ == error,
                    None => r is Ok,
                }
            }),
    {
        match self.validate_context(book) {
            Ok(()) => {},
            Err(error) => return Err(error),
        }
        match validate_orders(orders, self.last_order_sequence) {
            Ok(()) => {},
            Err(error) => return Err(error),
        }
        match validate_trades(trades, self.last_trade_sequence) {
            Ok(()) => {},
            Err(error) => return Err(error),
        }
        self.started = true;
        let ghost started = self@;
        let ghost first = book@;
        let ghost config = book.spec_config();
        let mut i: usize = 0;
        let mut j: usize = 0;
        while i < orders.len() || j < trades.len()
            invariant
                i <= orders@.len(),
                j <= trades@.len(),
                book.wf(),
                book.spec_config() == config,
                config == old(book).spec_config(),
                book@.orders.len() + (orders@.len() - i) <= MAX_STORED_ORDERS,
                old(self)@.replayed(config, old(book)@, orders@, trades@) == self@.merged(
                    config,
                    book@,
                    orders@,
                    trades@,
                    i as int,
                    j as int,
                ),
            decreases (orders@.len() - i) + (trades@.len() - j),
        {
            let mut take_order = i < orders.len();
            if i < orders.len() && j < trades.len() {
                let order_sequence: i64 = orders[i].sequence;
                let trade_sequence: i64 = trades[j].sequence;
                if order_sequence == trade_sequence {
                    let apply_sequence = match book.next_apply_sequence() {
                        Ok(sequence) => Some(sequence),
                        Err(_) => None,
                    };
                    return Err(
                        ReplayError {
                            kind: ReplayErrorKind::AmbiguousSequence { sequence: order_sequence },
                            source: ReplaySource::Both,
                            order_index: i,
                            trade_index: j,
                            apply_sequence,
                            record: None,
                        },
                    );
                }
                take_order = order_sequence < trade_sequence;
            }
            if take_order {
                let record = MarketDataRecord::Order(orders[i].clone());
                match self.apply_record(book, ReplaySource::Order, record, i, j) {
                    Ok(()) => {},
                    Err(error) => return Err(error),
                }
                i = i + 1;
            } else {
                let record = MarketDataRecord::Trade(trades[j].clone());
                match self.apply_record(book, ReplaySource::Trade, record, i, j) {
                    Ok(()) => {},
                    Err(error) => return Err(error),
                }
                j = j + 1;
            }
        }
        Ok(())
    }
}

/// A record that fails leaves nothing and tells its place; what else it does has nothing to do
/// with its place.
proof fn lemma_applied(
    replay: LegacyReplayModel,
    config: BookConfig,
    book: BookModel,
    source: ReplaySource,
    record: MarketDataRecord,
    i: int,
    j: int,
    a: int,
    b: int,
)
    ensures
        ({
            let run = replay.applied(config, book, source, record, i, j);
            &&& run.error matches Some(error) ==> {
                &&& run.replay == replay
                &&& run.book == book
                &&& error.order_index == i
                &&& error.trade_index == j
            }
            &&& replay.applied(config, book, source, record, i - a, j - b) == run.counted_from(a, b)
        }),
{
    reveal(LegacyReplayModel::applied);
}

/// A replay that fails at given places has done what the records before those places do, and
/// nothing else: the failed record left no trace.
pub proof fn failures_keep_what_came_before(
    replay: LegacyReplayModel,
    config: BookConfig,
    book: BookModel,
    orders: Seq<OrderRecord>,
    trades: Seq<TradeRecord>,
    i: int,
    j: int,
)
    requires
        0 <= i <= orders.len(),
        0 <= j <= trades.len(),
    ensures
        ({
            let run = replay.merged(config, book, orders, trades, i, j);
            run.error matches Some(error) ==> {
                &&& i <= error.order_index <= orders.len()
                &&& j <= error.trade_index <= trades.len()
                &&& replay.merged(
                    config,
                    book,
                    orders.take(error.order_index),
                    trades.take(error.trade_index),
                    i,
                    j,
                ) == (LegacyRun { error: None, ..run })
            }
        }),
    decreases (orders.len() - i) + (trades.len() - j),
{
    let run = replay.merged(config, book, orders, trades, i, j);
    if run.error is Some {
        let same = i < orders.len() && j < trades.len() && orders[i].sequence
            == trades[j].sequence;
        let order = takes_order(orders, trades, i, j);
        let step = if order {
            replay.applied(
                config,
                book,
                ReplaySource::Order,
                MarketDataRecord::Order(orders[i]),
                i,
                j,
            )
        } else {
            replay.applied(
                config,
                book,
                ReplaySource::Trade,
                MarketDataRecord::Trade(trades[j]),
                i,
                j,
            )
        };
        if order {
            let record = MarketDataRecord::Order(orders[i]);
            lemma_applied(replay, config, book, ReplaySource::Order, record, i, j, 0, 0);
        } else if j < trades.len() {
            let record = MarketDataRecord::Trade(trades[j]);
            lemma_applied(replay, config, book, ReplaySource::Trade, record, i, j, 0, 0);
        }
        if !same && step.error is None {
            if order {
                failures_keep_what_came_before(
                    step.replay,
                    config,
                    step.book,
                    orders,
                    trades,
                    i + 1,
                    j,
                );
            } else {
                failures_keep_what_came_before(
                    step.replay,
                    config,
                    step.book,
                    orders,
                    trades,
                    i,
                    j + 1,
                );
            }
            let a = run.error->0.order_index;
            let b = run.error->0.trade_index;
            assert(takes_order(orders.take(a), trades.take(b), i, j) == order);
        }
    }
}

impl LegacyRun {
    /// The run with the places of its error counted from others.
    pub open spec fn counted_from(self, order_index: int, trade_index: int) -> Self {
        LegacyRun {
            error: match self.error {
                Some(error) => Some(
                    ReplayErrorModel {
                        order_index: error.order_index - order_index,
                        trade_index: error.trade_index - trade_index,
                        ..error
                    },
                ),
                None => None,
            },
            ..self
        }
    }
}

proof fn lemma_slices_do_the_same(
    replay: LegacyReplayModel,
    config: BookConfig,
    book: BookModel,
    orders: Seq<OrderRecord>,
    trades: Seq<TradeRecord>,
    a: int,
    b: int,
    i: int,
    j: int,
)
    requires
        0 <= a <= i <= orders.len(),
        0 <= b <= j <= trades.len(),
    ensures
        replay.merged(config, book, orders.skip(a), trades.skip(b), i - a, j - b) == replay.merged(
            config,
            book,
            orders,
            trades,
            i,
            j,
        ).counted_from(a, b),
    decreases (orders.len() - i) + (trades.len() - j),
{
    let rest = orders.skip(a);
    let others = trades.skip(b);
    if i < orders.len() {
        assert(rest[i - a] == orders[i]);
    }
    if j < trades.len() {
        assert(others[j - b] == trades[j]);
    }
    let done = i == orders.len() && j == trades.len();
    let same = i < orders.len() && j < trades.len() && orders[i].sequence == trades[j].sequence;
    if !done && !same {
        assert(takes_order(rest, others, i - a, j - b) == takes_order(orders, trades, i, j));
        if takes_order(orders, trades, i, j) {
            let record = MarketDataRecord::Order(orders[i]);
            let run = replay.applied(config, book, ReplaySource::Order, record, i, j);
            lemma_applied(replay, config, book, ReplaySource::Order, record, i, j, a, b);
            if run.error is None {
                lemma_slices_do_the_same(
                    run.replay,
                    config,
                    run.book,
                    orders,
                    trades,
                    a,
                    b,
                    i + 1,
                    j,
                );
            }
        } else {
            let record = MarketDataRecord::Trade(trades[j]);
            let run = replay.applied(config, book, ReplaySource::Trade, record, i, j);
            lemma_applied(replay, config, book, ReplaySource::Trade, record, i, j, a, b);
            if run.error is None {
                lemma_slices_do_the_same(
                    run.replay,
                    config,
                    run.book,
                    orders,
                    trades,
                    a,
                    b,
                    i,
                    j + 1,
                );
            }
        }
    }
}

/// A replay can be resumed: records from given places on do the same on slices that begin
/// there, and an error counts its places from the beginnings of the slices.
pub proof fn replays_can_be_resumed(
    replay: LegacyReplayModel,
    config: BookConfig,
    book: BookModel,
    orders: Seq<OrderRecord>,
    trades: Seq<TradeRecord>,
    i: int,
    j: int,
)
    requires
        0 <= i <= orders.len(),
        0 <= j <= trades.len(),
    ensures
        replay.merged(config, book, orders.skip(i), trades.skip(j), 0, 0) == replay.merged(
            config,
            book,
            orders,
            trades,
            i,
            j,
        ).counted_from(i, j),
{
    lemma_slices_do_the_same(replay, config, book, orders, trades, i, j, i, j);
}

/// Sequences that are in order are so up to any place.
proof fn lemma_stream_prefix(
    records: Seq<MarketDataRecord>,
    previous: Option<i64>,
    source: ReplaySource,
    at: int,
    end: int,
)
    requires
        0 <= at <= end <= records.len(),
        stream_error(records, previous, source, at) is None,
    ensures
        stream_error(records.take(end), previous, source, at) is None,
    decreases end - at,
{
    if at < end {
        let current = record_sequence(records[at]);
        lemma_stream_prefix(records, Some(current), source, at + 1, end);
    }
}

/// Sequences that are in order are so from any place on.
proof fn lemma_stream_suffix(
    records: Seq<MarketDataRecord>,
    previous: Option<i64>,
    source: ReplaySource,
    start: int,
    at: int,
)
    requires
        0 <= start,
        0 <= at,
        start + at <= records.len(),
        stream_error(records, previous, source, start + at) is None,
    ensures
        stream_error(records.skip(start), previous, source, at) is None,
    decreases records.len() - start - at,
{
    if start + at < records.len() {
        assert(records.skip(start)[at] == records[start + at]);
        let current = record_sequence(records[start + at]);
        lemma_stream_suffix(records, Some(current), source, start, at + 1);
    }
}

/// The sequence of the last record before a place, or what came before all of them.
pub open spec fn last_before(
    records: Seq<MarketDataRecord>,
    previous: Option<i64>,
    place: int,
) -> Option<i64> {
    if place > 0 {
        Some(record_sequence(records[place - 1]))
    } else {
        previous
    }
}

proof fn lemma_stream_from(
    records: Seq<MarketDataRecord>,
    previous: Option<i64>,
    source: ReplaySource,
    place: int,
)
    requires
        0 <= place <= records.len(),
        stream_error(records, previous, source, 0) is None,
    ensures
        stream_error(records, last_before(records, previous, place), source, place) is None,
    decreases place,
{
    if place > 0 {
        lemma_stream_from(records, previous, source, place - 1);
    }
}

/// Faults of sequences have kinds of their own.
proof fn lemma_stream_kinds(
    records: Seq<MarketDataRecord>,
    previous: Option<i64>,
    source: ReplaySource,
    at: int,
)
    ensures
        stream_error(records, previous, source, at) matches Some(error) ==> error.kind
            is InvalidRawSequence || error.kind is NonIncreasingSequence,
    decreases records.len() - at,
{
    if 0 <= at < records.len() {
        lemma_stream_kinds(records, Some(record_sequence(records[at])), source, at + 1);
    }
}

/// What a run that fails leaves of the replayer, and that it fails there again.
proof fn lemma_failed_run(
    replay: LegacyReplayModel,
    config: BookConfig,
    book: BookModel,
    orders: Seq<OrderRecord>,
    trades: Seq<TradeRecord>,
    i: int,
    j: int,
)
    requires
        0 <= i <= orders.len(),
        0 <= j <= trades.len(),
    ensures
        ({
            let run = replay.merged(config, book, orders, trades, i, j);
            run.error matches Some(error) ==> {
                &&& i <= error.order_index <= orders.len()
                &&& j <= error.trade_index <= trades.len()
                &&& run.replay.context == replay.context
                &&& run.replay.started == replay.started
                &&& run.replay.last_order_sequence == if error.order_index > i {
                    Some(orders[error.order_index - 1].sequence)
                } else {
                    replay.last_order_sequence
                }
                &&& run.replay.last_trade_sequence == if error.trade_index > j {
                    Some(trades[error.trade_index - 1].sequence)
                } else {
                    replay.last_trade_sequence
                }
                &&& run.replay.merged(
                    config,
                    run.book,
                    orders,
                    trades,
                    error.order_index,
                    error.trade_index,
                ) == run
            }
        }),
    decreases (orders.len() - i) + (trades.len() - j),
{
    let done = i == orders.len() && j == trades.len();
    let same = i < orders.len() && j < trades.len() && orders[i].sequence == trades[j].sequence;
    if !done && !same {
        if takes_order(orders, trades, i, j) {
            let record = MarketDataRecord::Order(orders[i]);
            lemma_applied(replay, config, book, ReplaySource::Order, record, i, j, 0, 0);
            lemma_taken(replay, config, book, ReplaySource::Order, record, i, j);
            let step = replay.applied(config, book, ReplaySource::Order, record, i, j);
            if step.error is None {
                lemma_failed_run(step.replay, config, step.book, orders, trades, i + 1, j);
            }
        } else {
            let record = MarketDataRecord::Trade(trades[j]);
            lemma_applied(replay, config, book, ReplaySource::Trade, record, i, j, 0, 0);
            lemma_taken(replay, config, book, ReplaySource::Trade, record, i, j);
            let step = replay.applied(config, book, ReplaySource::Trade, record, i, j);
            if step.error is None {
                lemma_failed_run(step.replay, config, step.book, orders, trades, i, j + 1);
            }
        }
    }
}

/// What a record that is taken leaves of the replayer.
proof fn lemma_taken(
    replay: LegacyReplayModel,
    config: BookConfig,
    book: BookModel,
    source: ReplaySource,
    record: MarketDataRecord,
    i: int,
    j: int,
)
    ensures
        ({
            let run = replay.applied(config, book, source, record, i, j);
            run.error is None ==> {
                &&& run.replay.context == replay.context
                &&& run.replay.started == replay.started
                &&& run.replay.last_order_sequence == if source == ReplaySource::Order {
                    Some(record_sequence(record))
                } else {
                    replay.last_order_sequence
                }
                &&& run.replay.last_trade_sequence == if source == ReplaySource::Order {
                    replay.last_trade_sequence
                } else {
                    Some(record_sequence(record))
                }
            }
        }),
{
    reveal(LegacyReplayModel::applied);
}

/// A call that fails at a record, or at two of the same sequence, leaves replayer and book as a
/// call with exactly the records before the places it tells leaves them. A further call with the
/// records from those places on is accepted and goes on there: with nothing else changed it
/// fails at once, at the first of them, and again leaves everything as it was.
pub proof fn failed_calls_can_be_resumed(
    replay: LegacyReplayModel,
    config: BookConfig,
    book: BookModel,
    orders: Seq<OrderRecord>,
    trades: Seq<TradeRecord>,
)
    requires
        replay.replayed(config, book, orders, trades).error matches Some(error) && (error.kind
            is AmbiguousSequence || error.kind is Normalize || error.kind is Apply),
    ensures
        ({
            let run = replay.replayed(config, book, orders, trades);
            let error = run.error->0;
            let (a, b) = (error.order_index, error.trade_index);
            &&& 0 <= a <= orders.len()
            &&& 0 <= b <= trades.len()
            &&& replay.replayed(config, book, orders.take(a), trades.take(b)) == (LegacyRun {
                error: None,
                ..run
            })
            &&& run.replay.replayed(config, run.book, orders.skip(a), trades.skip(b))
                == run.counted_from(a, b)
            &&& run.replay.replayed(config, run.book, orders.skip(a), trades.skip(b))
                == run.replay.merged(config, run.book, orders.skip(a), trades.skip(b), 0, 0)
        }),
{
    let all = order_records(orders);
    let others = trade_records(trades);
    lemma_stream_kinds(all, replay.last_order_sequence, ReplaySource::Order, 0);
    lemma_stream_kinds(others, replay.last_trade_sequence, ReplaySource::Trade, 0);
    let started = LegacyReplayModel { started: true, ..replay };
    let run = started.merged(config, book, orders, trades, 0, 0);
    assert(run == replay.replayed(config, book, orders, trades));
    let a = run.error->0.order_index;
    let b = run.error->0.trade_index;
    failures_keep_what_came_before(started, config, book, orders, trades, 0, 0);
    lemma_failed_run(started, config, book, orders, trades, 0, 0);
    replays_can_be_resumed(run.replay, config, run.book, orders, trades, a, b);
    lemma_stream_prefix(all, replay.last_order_sequence, ReplaySource::Order, 0, a);
    lemma_stream_prefix(others, replay.last_trade_sequence, ReplaySource::Trade, 0, b);
    assert(order_records(orders.take(a)) =~= all.take(a));
    assert(trade_records(trades.take(b)) =~= others.take(b));
    lemma_stream_from(all, replay.last_order_sequence, ReplaySource::Order, a);
    lemma_stream_from(others, replay.last_trade_sequence, ReplaySource::Trade, b);
    lemma_stream_suffix(all, run.replay.last_order_sequence, ReplaySource::Order, a, 0);
    lemma_stream_suffix(others, run.replay.last_trade_sequence, ReplaySource::Trade, b, 0);
    assert(order_records(orders.skip(a)) =~= all.skip(a));
    assert(trade_records(trades.skip(b)) =~= others.skip(b));
    assert(LegacyReplayModel { started: true, ..run.replay } == run.replay);
}

} // verus!
