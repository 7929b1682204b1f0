//! What each row of a channel stream does to the books and around them.

use vstd::prelude::*;

use crate::market_data::{
    ApplySequence, ChannelId, CrossingBehavior, LocalTimestampNs, Market, OrderId, OrderKey,
    OrderReference, Price, PricingInstruction, Quantity, QuoteTimestampNs, RawSequence, Side,
};
use crate::order_book::{side_text, BookError, BookModel, MetaModel};
use crate::text::{int_text, nat_text};

use super::super::error::ErrorModel;
use super::super::rows::{
    Aggressor, SseKind, SseRow, SzExecutionKind, SzExecutionRow, SzOrderKind, SzOrderRow, SzSide,
};
use super::super::snapshot::{
    due_times_are_those_that_have_come, leading_due, strictly_ascend, SnapshotModel,
};
use super::super::sz_pending::Disposition;
use super::super::types::{MarketDayRequest, SnapshotKind, SzMarketOrderPolicy};
use super::observe::{ObservationPoint, Observed};
use super::report::ReportModel;
use super::runtime::{regression_allowed, RuntimeModel};

verus! {

/// What a row of one symbol works on: the symbol's state, the recorded snapshots, what the
/// observer was shown, and the counts.
#[verifier::ext_equal]
pub struct StepState {
    pub runtime: RuntimeModel,
    pub output: Option<Seq<SnapshotModel>>,
    pub log: Seq<Observed>,
    pub report: ReportModel,
}

/// What came of a row: the state it leaves, and why it went no further.
#[verifier::ext_equal]
pub struct Step {
    pub state: StepState,
    pub error: Option<ErrorModel>,
}

/// How many levels snapshots show.
pub open spec fn snapshot_depth(request: MarketDayRequest) -> usize {
    match request.snapshots {
        Some(schedule) => schedule.depth,
        None => 10,
    }
}

pub open spec fn normalize(symbol: Seq<char>, sequence: u64, detail: Seq<char>) -> ErrorModel {
    ErrorModel::Normalize { symbol, sequence, detail }
}

/// Why there is no order key.
pub open spec fn order_key_error(
    channel: u32,
    order_no: u64,
    symbol: Seq<char>,
    sequence: u64,
) -> Option<ErrorModel> {
    if channel == 0 {
        Some(normalize(symbol, sequence, "channel must be positive"@))
    } else if order_no == 0 {
        Some(normalize(symbol, sequence, "order id must be positive"@))
    } else {
        None
    }
}

pub open spec fn key_of(channel: u32, side: Side, order_no: u64) -> OrderKey {
    OrderKey {
        channel_id: ChannelId::spec_new(channel),
        side,
        order_id: OrderId::spec_new(order_no),
    }
}

/// Why there is no price.
pub open spec fn price_error(units: i64, symbol: Seq<char>, sequence: u64) -> Option<ErrorModel> {
    if units <= 0 {
        Some(normalize(symbol, sequence, "price must be positive: "@ + int_text(units as int)))
    } else {
        None
    }
}

/// Why there is no quantity.
pub open spec fn quantity_error(value: u64, symbol: Seq<char>, sequence: u64) -> Option<
    ErrorModel,
> {
    if value == 0 {
        Some(normalize(symbol, sequence, "quantity must be positive"@))
    } else {
        None
    }
}

/// The one side and number that a row names.
pub open spec fn one_sided(bid: u64, ask: u64) -> Option<(Side, u64)> {
    if bid > 0 && ask == 0 {
        Some((Side::Buy, bid))
    } else if bid == 0 && ask > 0 {
        Some((Side::Sell, ask))
    } else {
        None
    }
}

pub open spec fn one_sided_error(symbol: Seq<char>, sequence: u64) -> ErrorModel {
    normalize(symbol, sequence, "expected exactly one nonzero order reference"@)
}

pub open spec fn book_side(side: SzSide) -> Side {
    match side {
        SzSide::Buy => Side::Buy,
        SzSide::Sell => Side::Sell,
    }
}

impl RuntimeModel {
    /// Why an event cannot be numbered.
    pub open spec fn meta_error(self, raw_sequence: u64) -> Option<ErrorModel> {
        if raw_sequence == 0 {
            Some(normalize(self.symbol, raw_sequence, "raw sequence must be positive"@))
        } else if self.book.next_sequence() > u64::MAX {
            Some(
                ErrorModel::Apply {
                    symbol: self.symbol,
                    sequence: raw_sequence,
                    source: BookError::ApplySequenceOverflow,
                },
            )
        } else {
            None
        }
    }

    pub open spec fn meta(self, raw_sequence: u64, local_time_ns: i64, quote_time_ns: i64) -> MetaModel {
        MetaModel {
            raw_sequence: RawSequence::spec_new(raw_sequence),
            apply_sequence: ApplySequence::spec_new(self.book.next_sequence() as u64),
            local_time: LocalTimestampNs::spec_new(local_time_ns),
            quote_time: QuoteTimestampNs::spec_new(quote_time_ns),
        }
    }
}

impl StepState {
    pub open spec fn done(self) -> Step {
        Step { state: self, error: None }
    }

    pub open spec fn failed(self, error: ErrorModel) -> Step {
        Step { state: self, error: Some(error) }
    }

    pub open spec fn with_book(self, book: BookModel) -> Self {
        StepState { runtime: RuntimeModel { book, ..self.runtime }, ..self }
    }

    pub open spec fn with_report(self, report: ReportModel) -> Self {
        StepState { report, ..self }
    }

    /// The observer is shown the book.
    pub open spec fn shown(self, channel: u32, symbol: Seq<char>, point: ObservationPoint) -> Self {
        StepState {
            log: self.log.push(
                Observed::State { channel, symbol, book: self.runtime.book, point },
            ),
            ..self
        }
    }

    /// The observer is shown a trade.
    pub open spec fn shown_trade(self, channel: u32, symbol: Seq<char>, row: SzExecutionRow) -> Self {
        StepState {
            log: self.log.push(
                Observed::Trade {
                    channel,
                    symbol,
                    raw_sequence: row.sequence,
                    quote_time_ns: row.quote_time_ns,
                    price_units: row.price_units,
                    quantity: row.quantity,
                },
            ),
            ..self
        }
    }

    /// The business clock moves on; going back within an allowed second is counted.
    pub open spec fn clocked(self, symbol: Seq<char>, quote_time_ns: i64) -> Step {
        let back = self.runtime.last_time matches Some(previous) && quote_time_ns < previous;
        if !back {
            StepState {
                runtime: RuntimeModel { last_time: Some(quote_time_ns), ..self.runtime },
                ..self
            }.done()
        } else if !regression_allowed(
            self.runtime.last_time->0,
            quote_time_ns,
            self.runtime.cursor is Some,
        ) {
            self.failed(
                ErrorModel::QuoteTimeRegression {
                    symbol,
                    previous: self.runtime.last_time->0,
                    current: quote_time_ns,
                },
            )
        } else if self.report.same_second_quote_time_regressions == u64::MAX {
            self.failed(ErrorModel::Arithmetic("same-second quote-time regression count"@))
        } else {
            self.with_report(
                ReportModel {
                    same_second_quote_time_regressions: (
                    self.report.same_second_quote_time_regressions + 1) as u64,
                    ..self.report
                },
            ).done()
        }
    }

    /// The snapshots of the given times.
    pub open spec fn captures(self, times: Seq<i64>, channel: u32, depth: usize) -> Seq<
        SnapshotModel,
    > {
        times.map_values(
            |time: i64|
                SnapshotModel::of(
                    self.runtime.book,
                    self.runtime.symbol,
                    channel,
                    SnapshotKind::Scheduled,
                    time,
                    depth,
                ),
        )
    }

    /// The snapshots that are due are recorded, where snapshots are recorded.
    pub open spec fn recorded(self, due: nat, channel: u32, depth: usize) -> Step {
        if self.runtime.cursor is None || self.output is None {
            self.done()
        } else {
            let times = self.runtime.cursor->0;
            let moved = StepState {
                runtime: RuntimeModel { cursor: Some(times.skip(due as int)), ..self.runtime },
                ..self
            };
            if self.report.scheduled_snapshots + due > u64::MAX {
                moved.failed(ErrorModel::Arithmetic("scheduled snapshot count"@))
            } else {
                StepState {
                    output: Some(
                        self.output->0 + self.captures(times.take(due as int), channel, depth),
                    ),
                    report: ReportModel {
                        scheduled_snapshots: (self.report.scheduled_snapshots + due) as u64,
                        ..self.report
                    },
                    ..moved
                }.done()
            }
        }
    }

    /// What comes before a business event: the clock moves, due snapshots are recorded, and
    /// the observer is shown the book.
    #[verifier::opaque]
    pub open spec fn before_event(
        self,
        request: MarketDayRequest,
        channel: u32,
        symbol: Seq<char>,
        quote_time_ns: i64,
    ) -> Step {
        let clocked = self.clocked(symbol, quote_time_ns);
        if clocked.error is Some {
            clocked
        } else {
            let due = leading_due(clocked.state.runtime.cursor->0, quote_time_ns);
            let recorded = clocked.state.recorded(due, channel, snapshot_depth(request));
            if recorded.error is Some {
                recorded
            } else {
                recorded.state.shown(
                    channel,
                    symbol,
                    ObservationPoint::BeforeEvent(quote_time_ns),
                ).done()
            }
        }
    }

    /// An applied event is counted and the observer is shown the book.
    pub open spec fn counted(self, channel: u32, symbol: Seq<char>, quote_time_ns: i64) -> Step {
        if self.report.applied_events == u64::MAX {
            self.failed(ErrorModel::Arithmetic("applied event count"@))
        } else {
            self.with_report(
                ReportModel {
                    applied_events: (self.report.applied_events + 1) as u64,
                    ..self.report
                },
            ).shown(channel, symbol, ObservationPoint::AfterEvent(quote_time_ns)).done()
        }
    }

    /// How the price of a Shenzhen order is found.
    pub open spec fn sz_pricing(row: SzOrderRow, same_side: bool) -> PricingInstruction {
        match row.kind {
            SzOrderKind::Market => PricingInstruction::Unpriced,
            SzOrderKind::Limit => PricingInstruction::Provided(Price::spec_new(row.price_units)),
            SzOrderKind::SameSideBest => if same_side {
                PricingInstruction::SameSideBest
            } else {
                PricingInstruction::Unpriced
            },
        }
    }

    /// Whether a Shenzhen order is visible. A crossing price is no evidence of a fill: every
    /// priced limit order rests until executions or cancellations reduce it.
    pub open spec fn sz_crossing(
        policy: SzMarketOrderPolicy,
        row: SzOrderRow,
        same_side: bool,
    ) -> CrossingBehavior {
        match row.kind {
            SzOrderKind::Market => if policy == SzMarketOrderPolicy::RestAtLastTradePrice {
                CrossingBehavior::RestAtLastTradePrice
            } else {
                CrossingBehavior::AlwaysHide
            },
            SzOrderKind::SameSideBest => if same_side {
                CrossingBehavior::Rest
            } else {
                CrossingBehavior::AlwaysHide
            },
            SzOrderKind::Limit => CrossingBehavior::Rest,
        }
    }

    /// Why a Shenzhen order cannot be turned into an event.
    pub open spec fn sz_order_error(self, channel: u32, row: SzOrderRow) -> Option<ErrorModel> {
        if order_key_error(channel, row.sequence, row.symbol@, row.sequence) is Some {
            order_key_error(channel, row.sequence, row.symbol@, row.sequence)
        } else if row.kind == SzOrderKind::Limit && price_error(
            row.price_units,
            row.symbol@,
            row.sequence,
        ) is Some {
            price_error(row.price_units, row.symbol@, row.sequence)
        } else if self.runtime.meta_error(row.sequence) is Some {
            self.runtime.meta_error(row.sequence)
        } else {
            quantity_error(row.quantity, row.symbol@, row.sequence)
        }
    }

    /// What a Shenzhen order does once it has been announced.
    pub open spec fn sz_order_applied(
        self,
        request: MarketDayRequest,
        channel: u32,
        row: SzOrderRow,
        same_side: bool,
    ) -> Step {
        let side = book_side(row.side);
        let key = key_of(channel, side, row.sequence);
        let pricing = Self::sz_pricing(row, same_side);
        let crossing = Self::sz_crossing(request.sz_market_order_policy, row, same_side);
        let quantity = Quantity::spec_new(row.quantity);
        let book = self.runtime.book;
        match self.sz_order_error(channel, row) {
            Some(error) => self.failed(error),
            None => match book.add_error(key, pricing, crossing, quantity) {
                Some(source) => self.failed(
                    ErrorModel::Apply { symbol: row.symbol@, sequence: row.sequence, source },
                ),
                None => {
                    let applied = self.with_book(
                        book.stamped(
                            book.add_next(key, pricing, crossing, quantity),
                            self.runtime.meta(
                                row.sequence,
                                row.local_time_ns,
                                row.quote_time_ns,
                            ),
                        ),
                    ).with_report(self.report.applied(row.symbol@, row.quote_time_ns));
                    if self.report.applied_error(row.symbol@, row.quote_time_ns) is Some {
                        applied.failed(
                            self.report.applied_error(row.symbol@, row.quote_time_ns)->0,
                        )
                    } else if row.kind == SzOrderKind::Limit
                        && self.report.sz_direct_rest_limit_orders == u64::MAX {
                        applied.failed(ErrorModel::Arithmetic("SZ direct rest limit order count"@))
                    } else {
                        let listed = if row.kind == SzOrderKind::Limit {
                            applied.with_report(
                                ReportModel {
                                    sz_direct_rest_limit_orders: (
                                    applied.report.sz_direct_rest_limit_orders + 1) as u64,
                                    ..applied.report
                                },
                            )
                        } else {
                            applied
                        };
                        StepState {
                            runtime: RuntimeModel {
                                references: listed.runtime.references.insert(
                                    (side, row.sequence),
                                    key,
                                ),
                                ..listed.runtime
                            },
                            ..listed
                        }.counted(channel, row.symbol@, row.quote_time_ns)
                    }
                },
            },
        }
    }

    /// What a Shenzhen order does.
    #[verifier::opaque]
    pub open spec fn sz_order(
        self,
        request: MarketDayRequest,
        channel: u32,
        row: SzOrderRow,
        same_side: bool,
    ) -> Step {
        let before = self.before_event(request, channel, row.symbol@, row.quote_time_ns);
        if before.error is Some {
            before
        } else {
            before.state.sz_order_applied(request, channel, row, same_side)
        }
    }

    /// Why a Shenzhen execution cannot be applied, and the book it leaves if it can.
    pub open spec fn sz_execution_result(self, row: SzExecutionRow) -> Result<
        BookModel,
        ErrorModel,
    > {
        let book = self.runtime.book;
        let meta = self.runtime.meta(row.sequence, row.local_time_ns, row.quote_time_ns);
        match row.kind {
            SzExecutionKind::Trade => {
                let bid = self.runtime.sz_reference(Side::Buy, row.bid_order_no);
                let ask = self.runtime.sz_reference(Side::Sell, row.ask_order_no);
                let price = Price::spec_new(row.price_units);
                let quantity = Quantity::spec_new(row.quantity);
                if self.runtime.meta_error(row.sequence) is Some {
                    Err(self.runtime.meta_error(row.sequence)->0)
                } else if price_error(row.price_units, row.symbol@, row.sequence) is Some {
                    Err(price_error(row.price_units, row.symbol@, row.sequence)->0)
                } else if quantity_error(row.quantity, row.symbol@, row.sequence) is Some {
                    Err(quantity_error(row.quantity, row.symbol@, row.sequence)->0)
                } else {
                    match book.trade_error(bid, ask, price, quantity, self.runtime.policy) {
                        Some(source) => Err(
                            ErrorModel::Apply {
                                symbol: row.symbol@,
                                sequence: row.sequence,
                                source,
                            },
                        ),
                        None => Ok(book.stamped(book.trade_next(bid, ask, price, quantity), meta)),
                    }
                }
            },
            SzExecutionKind::Cancel => match one_sided(row.bid_order_no, row.ask_order_no) {
                None => Err(one_sided_error(row.symbol@, row.sequence)),
                Some((side, order_no)) => match self.runtime.active(side, order_no) {
                    None => Err(
                        normalize(row.symbol@, row.sequence, "unknown cancellation target"@),
                    ),
                    Some(key) => if book.orders[key].remaining_quantity != row.quantity {
                        Err(
                            normalize(
                                row.symbol@,
                                row.sequence,
                                "cancellation quantity "@ + nat_text(row.quantity as nat)
                                    + " does not equal remaining "@ + nat_text(
                                    book.orders[key].remaining_quantity as nat,
                                ),
                            ),
                        )
                    } else if self.runtime.meta_error(row.sequence) is Some {
                        Err(self.runtime.meta_error(row.sequence)->0)
                    } else {
                        Ok(book.stamped(book.remove(key), meta))
                    },
                },
            },
        }
    }

    /// What a Shenzhen execution does once it has been announced.
    pub open spec fn sz_execution_applied(self, channel: u32, row: SzExecutionRow) -> Step {
        match self.sz_execution_result(row) {
            Err(error) => self.failed(error),
            Ok(book) => {
                let applied = self.with_book(book).with_report(
                    self.report.applied(row.symbol@, row.quote_time_ns),
                );
                if self.report.applied_error(row.symbol@, row.quote_time_ns) is Some {
                    applied.failed(self.report.applied_error(row.symbol@, row.quote_time_ns)->0)
                } else {
                    let told = if row.kind == SzExecutionKind::Trade {
                        applied.shown_trade(channel, row.symbol@, row)
                    } else {
                        applied
                    };
                    told.counted(channel, row.symbol@, row.quote_time_ns)
                }
            },
        }
    }

    /// What a Shenzhen execution does.
    #[verifier::opaque]
    pub open spec fn sz_execution(
        self,
        request: MarketDayRequest,
        channel: u32,
        row: SzExecutionRow,
    ) -> Step {
        let before = self.before_event(request, channel, row.symbol@, row.quote_time_ns);
        if before.error is Some {
            before
        } else {
            before.state.sz_execution_applied(channel, row)
        }
    }

    /// The order that one side of a Shanghai trade names. The aggressive side may name none,
    /// or one that never rested; the passive side must name an active order.
    pub open spec fn sse_reference(self, side: Side, row: SseRow, order_no: u64) -> Result<
        OrderReference,
        ErrorModel,
    > {
        if order_no == 0 {
            if aggressive(side, row.flag) {
                Ok(OrderReference::Absent)
            } else {
                Err(
                    normalize(
                        row.symbol@,
                        row.sequence,
                        "passive or neutral trade reference is absent"@,
                    ),
                )
            }
        } else if self.runtime.active(side, order_no) is Some {
            Ok(OrderReference::Resolved(self.runtime.active(side, order_no)->0))
        } else if aggressive(side, row.flag) {
            Ok(OrderReference::Unresolved { side, order_id: OrderId::spec_new(order_no) })
        } else {
            Err(
                normalize(
                    row.symbol@,
                    row.sequence,
                    "unknown passive "@ + side_text(side) + " order "@ + nat_text(order_no as nat),
                ),
            )
        }
    }

    /// What a Shanghai order makes of the symbol's state, or why it cannot be applied.
    pub open spec fn sse_add(self, row: SseRow) -> Result<RuntimeModel, ErrorModel> {
        match one_sided(row.buy_order_no, row.sell_order_no) {
            None => Err(one_sided_error(row.symbol@, row.sequence)),
            Some((side, order_no)) => {
                let key = key_of(row.channel, side, order_no);
                let pricing = PricingInstruction::Provided(Price::spec_new(row.price_units));
                let quantity = Quantity::spec_new(row.quantity);
                let book = self.runtime.book;
                if !aggressive(side, row.flag) {
                    Err(normalize(row.symbol@, row.sequence, "add side does not match TickBSFlag"@))
                } else if order_key_error(row.channel, order_no, row.symbol@, row.sequence) is Some {
                    Err(order_key_error(row.channel, order_no, row.symbol@, row.sequence)->0)
                } else if self.runtime.meta_error(row.sequence) is Some {
                    Err(self.runtime.meta_error(row.sequence)->0)
                } else if price_error(row.price_units, row.symbol@, row.sequence) is Some {
                    Err(price_error(row.price_units, row.symbol@, row.sequence)->0)
                } else if quantity_error(row.quantity, row.symbol@, row.sequence) is Some {
                    Err(quantity_error(row.quantity, row.symbol@, row.sequence)->0)
                } else {
                    match book.add_error(key, pricing, CrossingBehavior::Rest, quantity) {
                        Some(source) => Err(
                            ErrorModel::Apply {
                                symbol: row.symbol@,
                                sequence: row.sequence,
                                source,
                            },
                        ),
                        None => Ok(
                            RuntimeModel {
                                book: book.stamped(
                                    book.add_next(key, pricing, CrossingBehavior::Rest, quantity),
                                    self.runtime.meta(
                                        row.sequence,
                                        row.local_time_ns,
                                        row.quote_time_ns,
                                    ),
                                ),
                                references: self.runtime.references.insert((side, order_no), key),
                                ..self.runtime
                            },
                        ),
                    }
                }
            },
        }
    }

    /// What a Shanghai deletion makes of the book, or why it cannot be applied.
    pub open spec fn sse_delete(self, row: SseRow) -> Result<BookModel, ErrorModel> {
        match one_sided(row.buy_order_no, row.sell_order_no) {
            None => Err(one_sided_error(row.symbol@, row.sequence)),
            Some((side, order_no)) => match self.runtime.active(side, order_no) {
                None => Err(normalize(row.symbol@, row.sequence, "unknown deletion target"@)),
                Some(key) => if self.runtime.meta_error(row.sequence) is Some {
                    Err(self.runtime.meta_error(row.sequence)->0)
                } else {
                    Ok(
                        self.runtime.book.stamped(
                            self.runtime.book.remove(key),
                            self.runtime.meta(row.sequence, row.local_time_ns, row.quote_time_ns),
                        ),
                    )
                },
            },
        }
    }

    /// What a Shanghai trade makes of the book, or why it cannot be applied.
    pub open spec fn sse_trade(self, row: SseRow) -> Result<BookModel, ErrorModel> {
        let book = self.runtime.book;
        let bid = self.sse_reference(Side::Buy, row, row.buy_order_no);
        let ask = self.sse_reference(Side::Sell, row, row.sell_order_no);
        let price = Price::spec_new(row.price_units);
        let quantity = Quantity::spec_new(row.quantity);
        if self.runtime.meta_error(row.sequence) is Some {
            Err(self.runtime.meta_error(row.sequence)->0)
        } else if bid is Err {
            Err(bid->Err_0)
        } else if ask is Err {
            Err(ask->Err_0)
        } else if price_error(row.price_units, row.symbol@, row.sequence) is Some {
            Err(price_error(row.price_units, row.symbol@, row.sequence)->0)
        } else if quantity_error(row.quantity, row.symbol@, row.sequence) is Some {
            Err(quantity_error(row.quantity, row.symbol@, row.sequence)->0)
        } else {
            match book.trade_error(bid->Ok_0, ask->Ok_0, price, quantity, self.runtime.policy) {
                Some(source) => Err(
                    ErrorModel::Apply { symbol: row.symbol@, sequence: row.sequence, source },
                ),
                None => Ok(
                    book.stamped(
                        book.trade_next(bid->Ok_0, ask->Ok_0, price, quantity),
                        self.runtime.meta(row.sequence, row.local_time_ns, row.quote_time_ns),
                    ),
                ),
            }
        }
    }

    /// What a Shanghai row makes of the symbol's state, or why it cannot be applied.
    pub open spec fn sse_result(self, row: SseRow) -> Result<RuntimeModel, ErrorModel> {
        match row.kind {
            SseKind::Add => self.sse_add(row),
            SseKind::Delete => match self.sse_delete(row) {
                Ok(book) => Ok(RuntimeModel { book, ..self.runtime }),
                Err(error) => Err(error),
            },
            SseKind::Trade => match self.sse_trade(row) {
                Ok(book) => Ok(RuntimeModel { book, ..self.runtime }),
                Err(error) => Err(error),
            },
            SseKind::Status => Err(
                normalize(row.symbol@, row.sequence, "status row cannot be applied"@),
            ),
        }
    }

    /// What a Shanghai order, deletion or trade does. None may follow the close.
    pub open spec fn sse_business(self, request: MarketDayRequest, channel: u32, row: SseRow) -> Step {
        if self.runtime.close_emitted {
            self.failed(
                normalize(
                    row.symbol@,
                    row.sequence,
                    "business event after Shanghai CLOSE checkpoint"@,
                ),
            )
        } else {
            let before = self.before_event(request, channel, row.symbol@, row.quote_time_ns);
            if before.error is Some {
                before
            } else {
                match before.state.sse_result(row) {
                    Err(error) => before.state.failed(error),
                    Ok(runtime) => StepState { runtime, ..before.state }.counted(
                        channel,
                        row.symbol@,
                        row.quote_time_ns,
                    ),
                }
            }
        }
    }

    /// The close of a symbol: its snapshot is taken once, and the observer is shown the book.
    /// A Shanghai snapshot is kept back until the scheduled ones have been recorded.
    pub open spec fn market_close(
        self,
        request: MarketDayRequest,
        channel: u32,
        symbol: Seq<char>,
        boundary_time_ns: i64,
    ) -> Step {
        if self.runtime.close_emitted {
            self.done()
        } else {
            let snapshot = SnapshotModel::of(
                self.runtime.book,
                self.runtime.symbol,
                channel,
                SnapshotKind::MarketClose,
                boundary_time_ns,
                snapshot_depth(request),
            );
            let taken = match self.output {
                None => self,
                Some(rows) => if request.market == Market::Sse {
                    StepState {
                        runtime: RuntimeModel { pending_close: Some(snapshot), ..self.runtime },
                        ..self
                    }
                } else {
                    StepState { output: Some(rows.push(snapshot)), ..self }
                },
            };
            let shown = taken.shown(
                channel,
                symbol,
                ObservationPoint::MarketClose(boundary_time_ns),
            );
            let closed = StepState {
                runtime: RuntimeModel { close_emitted: true, ..shown.runtime },
                ..shown
            };
            if self.report.market_close_snapshots == u64::MAX {
                closed.failed(ErrorModel::Arithmetic("market close snapshot count"@))
            } else {
                closed.with_report(
                    ReportModel {
                        market_close_snapshots: (self.report.market_close_snapshots + 1) as u64,
                        ..self.report
                    },
                ).done()
            }
        }
    }

    /// What a Shanghai row does. A status never moves the business clock; the close status
    /// closes the symbol.
    #[verifier::opaque]
    pub open spec fn sse_row(self, request: MarketDayRequest, channel: u32, row: SseRow) -> Step {
        if row.kind != SseKind::Status {
            self.sse_business(request, channel, row)
        } else if self.report.status_events == u64::MAX {
            self.failed(ErrorModel::Arithmetic("status event count"@))
        } else {
            let counted = self.with_report(
                ReportModel {
                    status_events: (self.report.status_events + 1) as u64,
                    ..self.report
                },
            );
            if row.status == 2 {
                counted.market_close(request, channel, row.symbol@, row.quote_time_ns)
            } else {
                counted.done()
            }
        }
    }

    /// The end of a channel for one symbol: the scheduled snapshots that are left are
    /// recorded, then the close, and the observer is shown the final book. `close` is the
    /// closing time where the end of the channel is the close.
    #[verifier::opaque]
    pub open spec fn channel_end(
        self,
        request: MarketDayRequest,
        channel: u32,
        symbol: Seq<char>,
        close: Option<i64>,
    ) -> Step {
        let recorded = self.recorded(
            self.runtime.cursor->0.len(),
            channel,
            snapshot_depth(request),
        );
        let closed = if recorded.error is Some || close is None {
            recorded
        } else {
            recorded.state.market_close(
                request,
                channel,
                symbol,
                final_boundary(recorded.state.runtime.last_time, close->0),
            )
        };
        if closed.error is Some {
            closed
        } else {
            let state = closed.state;
            StepState {
                runtime: RuntimeModel { pending_close: None, ..state.runtime },
                output: if state.output is Some && state.runtime.pending_close is Some {
                    Some(state.output->0.push(state.runtime.pending_close->0))
                } else {
                    state.output
                },
                ..state
            }.shown(channel, symbol, ObservationPoint::ChannelFinished).done()
        }
    }

    /// The executions of a group, one after the other.
    pub open spec fn sz_executions(
        self,
        request: MarketDayRequest,
        channel: u32,
        rows: Seq<SzExecutionRow>,
    ) -> Step
        decreases rows.len(),
    {
        if rows.len() == 0 {
            self.done()
        } else {
            let first = self.sz_execution(request, channel, rows[0]);
            if first.error is Some {
                first
            } else {
                first.state.sz_executions(request, channel, rows.drop_first())
            }
        }
    }

    /// The same state, with nothing recorded and nobody watching.
    pub open spec fn unwatched(self) -> Self {
        StepState { output: None, log: Seq::empty(), ..self }
    }

    /// What an unwatched step leaves, with the recording and the observer back.
    pub open spec fn resumed(self, unwatched: Step) -> Step {
        Step {
            state: StepState { output: self.output, log: self.log, ..unwatched.state },
            error: unwatched.error,
        }
    }

    /// The observer is shown the trades of a group.
    pub open spec fn shown_trades(
        self,
        channel: u32,
        symbol: Seq<char>,
        rows: Seq<SzExecutionRow>,
    ) -> Self
        decreases rows.len(),
    {
        if rows.len() == 0 {
            self
        } else {
            let first = if rows[0].kind == SzExecutionKind::Trade {
                self.shown_trade(channel, symbol, rows[0])
            } else {
                self
            };
            first.shown_trades(channel, symbol, rows.drop_first())
        }
    }

    /// What is left of a pending order becomes visible at a price.
    pub open spec fn rested(self, channel: u32, row: SzOrderRow, units: i64) -> Step {
        let key = key_of(channel, book_side(row.side), row.sequence);
        let price = Price::spec_new(units);
        if order_key_error(channel, row.sequence, row.symbol@, row.sequence) is Some {
            self.failed(order_key_error(channel, row.sequence, row.symbol@, row.sequence)->0)
        } else if price_error(units, row.symbol@, row.sequence) is Some {
            self.failed(price_error(units, row.symbol@, row.sequence)->0)
        } else {
            match self.runtime.book.rest_error(key, price) {
                Some(source) => self.failed(
                    ErrorModel::Apply { symbol: row.symbol@, sequence: row.sequence, source },
                ),
                None => {
                    let rested = self.with_book(self.runtime.book.rest_next(key, price));
                    if self.report.sz_inferred_market_remainders == u64::MAX {
                        rested.failed(ErrorModel::Arithmetic("SZ inferred market remainder count"@))
                    } else {
                        rested.with_report(
                            ReportModel {
                                sz_inferred_market_remainders: (
                                self.report.sz_inferred_market_remainders + 1) as u64,
                                ..self.report
                            },
                        ).done()
                    }
                },
            }
        }
    }

    /// A group is counted and the observer is shown the book.
    pub open spec fn group_counted(self, channel: u32, row: SzOrderRow) -> Step {
        if self.report.sz_pending_groups == u64::MAX {
            self.failed(ErrorModel::Arithmetic("SZ pending group count"@))
        } else {
            let counted = self.with_report(
                ReportModel {
                    sz_pending_groups: (self.report.sz_pending_groups + 1) as u64,
                    ..self.report
                },
            );
            let same_side = row.kind == SzOrderKind::SameSideBest;
            if same_side && self.report.sz_empty_same_side_cancellations == u64::MAX {
                counted.failed(ErrorModel::Arithmetic("SZ empty same-side cancellation count"@))
            } else {
                let noted = if same_side {
                    counted.with_report(
                        ReportModel {
                            sz_empty_same_side_cancellations: (
                            counted.report.sz_empty_same_side_cancellations + 1) as u64,
                            ..counted.report
                        },
                    )
                } else {
                    counted
                };
                noted.shown(
                    channel,
                    row.symbol@,
                    ObservationPoint::AfterEvent(row.quote_time_ns),
                ).done()
            }
        }
    }

    /// What a group whose responses are known does to the books, before anybody is shown it.
    #[verifier::opaque]
    pub open spec fn group_applied(
        self,
        request: MarketDayRequest,
        channel: u32,
        row: SzOrderRow,
        responses: Seq<SzExecutionRow>,
        disposition: Disposition,
    ) -> Step {
        let ordered = self.resumed(self.unwatched().sz_order(request, channel, row, false));
        if ordered.error is Some {
            ordered
        } else {
            let answered = ordered.state.resumed(
                ordered.state.unwatched().sz_executions(request, channel, responses),
            );
            if answered.error is Some {
                answered
            } else {
                match disposition {
                    Disposition::Terminal => answered,
                    Disposition::Rest(units) => answered.state.rested(channel, row, units),
                }
            }
        }
    }

    /// What a pending order and its responses do. Nobody is shown the states in between.
    #[verifier::opaque]
    pub open spec fn sz_group(
        self,
        request: MarketDayRequest,
        channel: u32,
        row: SzOrderRow,
        responses: Seq<SzExecutionRow>,
        disposition: Disposition,
    ) -> Step {
        let before = self.before_event(request, channel, row.symbol@, row.quote_time_ns);
        if before.error is Some {
            before
        } else {
            let applied = before.state.group_applied(
                request,
                channel,
                row,
                responses,
                disposition,
            );
            if applied.error is Some {
                applied
            } else {
                applied.state.shown_trades(channel, row.symbol@, responses).group_counted(
                    channel,
                    row,
                )
            }
        }
    }
}

/// Whether the flag of a Shanghai row names a side.
pub open spec fn aggressive(side: Side, flag: Aggressor) -> bool {
    ||| side == Side::Buy && flag == Aggressor::Buy
    ||| side == Side::Sell && flag == Aggressor::Sell
}

/// The time of a close at the end of a channel: never before the last event.
pub open spec fn final_boundary(last_time: Option<i64>, close: i64) -> i64 {
    if last_time is Some && last_time->0 > close {
        last_time->0
    } else {
        close
    }
}

/// A snapshot shows the book as it is before the event at whose time it falls due: every time
/// up to that of the event is recorded with the book before it, and every time still to come
/// is later, so that a snapshot holds the events before its time and no others. The observer
/// is shown the same book once.
pub proof fn snapshots_hold_what_came_before(
    state: StepState,
    request: MarketDayRequest,
    channel: u32,
    symbol: Seq<char>,
    quote_time_ns: i64,
)
    requires
        state.runtime.cursor is Some,
        state.output is Some,
        strictly_ascend(state.runtime.cursor->0),
        state.before_event(request, channel, symbol, quote_time_ns).error is None,
    ensures
        ({
            let times = state.runtime.cursor->0;
            let due = leading_due(times, quote_time_ns) as int;
            let next = state.before_event(request, channel, symbol, quote_time_ns).state;
            &&& next.runtime.book == state.runtime.book
            &&& next.runtime.cursor == Some(times.skip(due))
            &&& next.output == Some(
                state.output->0 + state.captures(
                    times.take(due),
                    channel,
                    snapshot_depth(request),
                ),
            )
            &&& forall|i: int| 0 <= i < due ==> #[trigger] times[i] <= quote_time_ns
            &&& forall|i: int| due <= i < times.len() ==> #[trigger] times[i] > quote_time_ns
            &&& next.log == state.log.push(
                Observed::State {
                    channel,
                    symbol,
                    book: state.runtime.book,
                    point: ObservationPoint::BeforeEvent(quote_time_ns),
                },
            )
        }),
{
    reveal(StepState::before_event);
    let times = state.runtime.cursor->0;
    let due = leading_due(times, quote_time_ns) as int;
    assert forall|i: int| 0 <= i < times.len() implies (i < due <==> #[trigger] times[i]
        <= quote_time_ns) by {
        due_times_are_those_that_have_come(times, quote_time_ns, i);
    }
    if times.len() > 0 {
        due_times_are_those_that_have_come(times, quote_time_ns, 0);
    }
    let clocked = state.clocked(symbol, quote_time_ns);
    assert(clocked.state.captures(times.take(due), channel, snapshot_depth(request))
        =~= state.captures(times.take(due), channel, snapshot_depth(request)));
}

} // verus!
