//! Which rows a replay refuses, and how those that it applies are accounted for.

use vstd::prelude::*;

use crate::market_data::{
    CrossingBehavior, Market, OrderReference, Price, PricingInstruction, Quantity, Side,
};
use crate::order_book::effects::is_top;
use crate::order_book::OrderLocation;

use super::super::error::ErrorModel;
use super::super::rows::{
    Aggressor, SseKind, SseRow, SzExecutionKind, SzExecutionRow, SzOrderKind, SzOrderRow, SzSide,
};
use super::super::snapshot::{day_time, lemma_sessions};
use super::super::symbol_map::{finite_sets_have_listings, listing};
use super::super::sz_pending::{Disposition, PendingOrder};
use super::super::time::shanghai_midnight;
use super::super::types::{MarketDayRequest, SzMarketOrderPolicy};
use super::channel::{best_units, first_sequence, waits, ChannelState};
use super::day::{ChannelRows, DayModel};
use super::effects::{
    lemma_announced, pending_remainders_are_shown, shenzhen_orders_enter_the_book,
};
use super::group::{collected, pending_result, responses_are_executions};
use super::model::{
    key_of, one_sided, order_key_error, price_error, quantity_error, StepState,
};
use super::observe::{ObservationPoint, Observed};
use super::report::bump_error;
use super::runtime::RuntimeModel;

verus! {

/// Channels, numbers of orders, prices and quantities are positive, and a row that names one
/// order names it on one side; what is refused is told with the symbol and the sequence of its
/// row.
pub proof fn numbers_of_rows_are_positive(
    channel: u32,
    order_no: u64,
    units: i64,
    quantity: u64,
    bid: u64,
    ask: u64,
    symbol: Seq<char>,
    sequence: u64,
)
    ensures
        order_key_error(channel, order_no, symbol, sequence) is None <==> channel >= 1 && order_no
            >= 1,
        price_error(units, symbol, sequence) is None <==> units >= 1,
        quantity_error(quantity, symbol, sequence) is None <==> quantity >= 1,
        one_sided(bid, ask) == Some((Side::Buy, bid)) <==> bid >= 1 && ask == 0,
        one_sided(bid, ask) == Some((Side::Sell, ask)) <==> bid == 0 && ask >= 1,
        one_sided(bid, ask) is None <==> (bid >= 1 <==> ask >= 1),
        forall|error: ErrorModel|
            order_key_error(channel, order_no, symbol, sequence) == Some(error) || price_error(
                units,
                symbol,
                sequence,
            ) == Some(error) || #[trigger] quantity_error(quantity, symbol, sequence) == Some(error)
                ==> (error matches ErrorModel::Normalize { symbol: of, sequence: at, .. } && of
                == symbol && at == sequence),
{
}

/// An event is numbered one after the last one of its book, the first one with one; it keeps
/// its own sequence and times.
pub proof fn events_are_numbered_in_turn(
    runtime: RuntimeModel,
    raw_sequence: u64,
    local_time_ns: i64,
    quote_time_ns: i64,
)
    ensures
        ({
            let last = if runtime.book.last_meta is Some {
                runtime.book.last_meta->0.apply_sequence.spec_get() as int
            } else {
                0
            };
            let meta = runtime.meta(raw_sequence, local_time_ns, quote_time_ns);
            &&& runtime.meta_error(raw_sequence) is None <==> raw_sequence >= 1 && last < u64::MAX
            &&& runtime.meta_error(raw_sequence) is None ==> {
                &&& meta.raw_sequence.spec_get() == raw_sequence
                &&& meta.apply_sequence.spec_get() == last + 1
                &&& meta.local_time.spec_nanos() == local_time_ns
                &&& meta.quote_time.spec_nanos() == quote_time_ns
            }
        }),
{
}

/// Whether a book can number one event more.
pub open spec fn can_number(runtime: RuntimeModel, sequence: u64) -> bool {
    &&& sequence >= 1
    &&& runtime.book.last_meta is Some ==> runtime.book.last_meta->0.apply_sequence.spec_get()
        < u64::MAX
}

/// A Shenzhen order is refused where a number of it is not positive, the price of a limit order
/// included, or where the book refuses it; for no other reason unless a counter is full.
pub proof fn shenzhen_orders_are_refused_for_a_reason(
    state: StepState,
    channel: u32,
    row: SzOrderRow,
)
    ensures
        state.sz_order_error(channel, row) is None <==> {
            &&& channel >= 1
            &&& row.quantity >= 1
            &&& row.kind == SzOrderKind::Limit ==> row.price_units >= 1
            &&& can_number(state.runtime, row.sequence)
        },
{
}

/// A Shenzhen trade is refused where a number of it is not positive or the book refuses it. A
/// cancellation is refused unless it names one side, an order that the book holds there, and
/// all that is left of it.
pub proof fn shenzhen_executions_are_refused_for_a_reason(state: StepState, row: SzExecutionRow)
    ensures
        row.kind == SzExecutionKind::Trade ==> (state.sz_execution_result(row) is Ok <==> {
            &&& can_number(state.runtime, row.sequence)
            &&& row.price_units >= 1
            &&& row.quantity >= 1
            &&& state.runtime.book.trade_error(
                state.runtime.sz_reference(Side::Buy, row.bid_order_no),
                state.runtime.sz_reference(Side::Sell, row.ask_order_no),
                Price::spec_new(row.price_units),
                Quantity::spec_new(row.quantity),
                state.runtime.policy,
            ) is None
        }),
        row.kind == SzExecutionKind::Cancel ==> (state.sz_execution_result(row) is Ok <==> {
            let side = if row.ask_order_no == 0 {
                Side::Buy
            } else {
                Side::Sell
            };
            let number = if row.ask_order_no == 0 {
                row.bid_order_no
            } else {
                row.ask_order_no
            };
            &&& can_number(state.runtime, row.sequence)
            &&& row.bid_order_no == 0 || row.ask_order_no == 0
            &&& number >= 1
            &&& state.runtime.active(side, number) is Some
            &&& state.runtime.book.orders[state.runtime.active(
                side,
                number,
            )->0].remaining_quantity == row.quantity
        }),
{
}

/// A Shanghai order is refused unless it names one side, which is the side of its flag, with
/// positive numbers, and the book takes it. A deletion is refused unless it names one order that
/// the book holds.
pub proof fn shanghai_orders_are_refused_for_a_reason(state: StepState, row: SseRow)
    ensures
        ({
            let side = if row.sell_order_no == 0 {
                Side::Buy
            } else {
                Side::Sell
            };
            let number = if row.sell_order_no == 0 {
                row.buy_order_no
            } else {
                row.sell_order_no
            };
            let one = (row.buy_order_no == 0 || row.sell_order_no == 0) && number >= 1;
            let flagged = if side == Side::Buy {
                row.flag == Aggressor::Buy
            } else {
                row.flag == Aggressor::Sell
            };
            &&& state.sse_add(row) is Ok <==> {
                &&& one
                &&& flagged
                &&& row.channel >= 1
                &&& row.price_units >= 1
                &&& row.quantity >= 1
                &&& can_number(state.runtime, row.sequence)
                &&& state.runtime.book.add_error(
                    key_of(row.channel, side, number),
                    PricingInstruction::Provided(Price::spec_new(row.price_units)),
                    CrossingBehavior::Rest,
                    Quantity::spec_new(row.quantity),
                ) is None
            }
            &&& state.sse_delete(row) is Ok <==> {
                &&& one
                &&& state.runtime.active(side, number) is Some
                &&& can_number(state.runtime, row.sequence)
            }
        }),
{
}

/// A side of a Shanghai trade names an order that the book holds. Only the side of the flag
/// may name none, or one that the book does not hold.
pub proof fn shanghai_trades_name_their_orders(
    state: StepState,
    side: Side,
    row: SseRow,
    order_no: u64,
)
    ensures
        ({
            let reference = state.sse_reference(side, row, order_no);
            let flagged = if side == Side::Buy {
                row.flag == Aggressor::Buy
            } else {
                row.flag == Aggressor::Sell
            };
            let held = order_no >= 1 && state.runtime.active(side, order_no) is Some;
            &&& reference is Ok <==> held || flagged
            &&& held ==> reference == Ok::<OrderReference, ErrorModel>(
                OrderReference::Resolved(state.runtime.active(side, order_no)->0),
            )
            &&& flagged && order_no == 0 ==> reference == Ok::<OrderReference, ErrorModel>(
                OrderReference::Absent,
            )
            &&& flagged && order_no >= 1 && !held ==> {
                &&& reference matches Ok(OrderReference::Unresolved { side: of, order_id })
                &&& of == side
                &&& order_id.spec_get() == order_no
            }
        }),
{
}

/// The trades among executions.
pub open spec fn trades_among(rows: Seq<SzExecutionRow>) -> Seq<SzExecutionRow>
    decreases rows.len(),
{
    if rows.len() == 0 {
        Seq::empty()
    } else if rows[0].kind == SzExecutionKind::Trade {
        seq![rows[0]] + trades_among(rows.drop_first())
    } else {
        trades_among(rows.drop_first())
    }
}

/// Whether the observer was shown an execution as a trade.
pub open spec fn tells(
    observed: Observed,
    channel: u32,
    symbol: Seq<char>,
    row: SzExecutionRow,
) -> bool {
    observed == Observed::Trade {
        channel,
        symbol,
        raw_sequence: row.sequence,
        quote_time_ns: row.quote_time_ns,
        price_units: row.price_units,
        quantity: row.quantity,
    }
}

proof fn lemma_trades_told(
    state: StepState,
    channel: u32,
    symbol: Seq<char>,
    rows: Seq<SzExecutionRow>,
)
    ensures
        ({
            let after = state.shown_trades(channel, symbol, rows);
            let trades = trades_among(rows);
            let start = state.log.len() as int;
            &&& after == (StepState { log: after.log, ..state })
            &&& after.log.len() == start + trades.len()
            &&& forall|i: int| 0 <= i < start ==> #[trigger] after.log[i] == state.log[i]
            &&& forall|i: int|
                0 <= i < trades.len() ==> tells(
                    after.log[start + i],
                    channel,
                    symbol,
                    #[trigger] trades[i],
                )
        }),
    decreases rows.len(),
{
    if rows.len() > 0 {
        let first = if rows[0].kind == SzExecutionKind::Trade {
            state.shown_trade(channel, symbol, rows[0])
        } else {
            state
        };
        let rest = rows.drop_first();
        lemma_trades_told(first, channel, symbol, rest);
        let after = state.shown_trades(channel, symbol, rows);
        let trades = trades_among(rows);
        let start = state.log.len() as int;
        assert forall|i: int| 0 <= i < start implies #[trigger] after.log[i] == state.log[i] by {
            assert(after.log[i] == first.log[i]);
        }
        assert forall|i: int| 0 <= i < trades.len() implies tells(
            after.log[start + i],
            channel,
            symbol,
            #[trigger] trades[i],
        ) by {
            if rows[0].kind == SzExecutionKind::Trade {
                if i == 0 {
                    assert(after.log[start] == first.log[start]);
                } else {
                    assert(trades[i] == trades_among(rest)[i - 1]);
                    assert(tells(
                        after.log[start + 1 + (i - 1)],
                        channel,
                        symbol,
                        trades_among(rest)[i - 1],
                    ));
                }
            } else {
                assert(trades[i] == trades_among(rest)[i]);
            }
        }
    }
}

proof fn lemma_order_counted(
    state: StepState,
    request: MarketDayRequest,
    channel: u32,
    row: SzOrderRow,
    same_side: bool,
)
    ensures
        ({
            let step = state.sz_order(request, channel, row, same_side);
            step.error is None ==> {
                &&& step.state.report.applied_events == state.report.applied_events + 1
                &&& step.state.report.sz_pending_groups == state.report.sz_pending_groups
            }
        }),
{
    reveal(StepState::sz_order);
    reveal(StepState::before_event);
    lemma_announced(state, request, channel, row.symbol@, row.quote_time_ns);
}

proof fn lemma_execution_counted(
    state: StepState,
    request: MarketDayRequest,
    channel: u32,
    row: SzExecutionRow,
)
    ensures
        ({
            let step = state.sz_execution(request, channel, row);
            step.error is None ==> {
                &&& step.state.report.applied_events == state.report.applied_events + 1
                &&& step.state.report.sz_pending_groups == state.report.sz_pending_groups
            }
        }),
{
    reveal(StepState::sz_execution);
    reveal(StepState::before_event);
    lemma_announced(state, request, channel, row.symbol@, row.quote_time_ns);
}

proof fn lemma_executions_counted(
    state: StepState,
    request: MarketDayRequest,
    channel: u32,
    rows: Seq<SzExecutionRow>,
)
    ensures
        ({
            let step = state.sz_executions(request, channel, rows);
            step.error is None ==> {
                &&& step.state.report.applied_events == state.report.applied_events + rows.len()
                &&& step.state.report.sz_pending_groups == state.report.sz_pending_groups
            }
        }),
    decreases rows.len(),
{
    if rows.len() > 0 {
        lemma_execution_counted(state, request, channel, rows[0]);
        let first = state.sz_execution(request, channel, rows[0]);
        if first.error is None {
            lemma_executions_counted(first.state, request, channel, rows.drop_first());
        }
    }
}

/// A pending order and its responses are shown as one: the book before them, then each of the
/// trades in turn, then the book behind them all, and nothing in between. They are applied one
/// by one and count as one group.
pub proof fn groups_are_shown_as_one(
    state: StepState,
    request: MarketDayRequest,
    channel: u32,
    row: SzOrderRow,
    responses: Seq<SzExecutionRow>,
    disposition: Disposition,
)
    requires
        state.sz_group(request, channel, row, responses, disposition).error is None,
    ensures
        ({
            let after = state.sz_group(request, channel, row, responses, disposition).state;
            let trades = trades_among(responses);
            let start = state.log.len() as int;
            &&& after.log.len() == start + trades.len() + 2
            &&& forall|i: int| 0 <= i < start ==> #[trigger] after.log[i] == state.log[i]
            &&& after.log[start] == Observed::State {
                channel,
                symbol: row.symbol@,
                book: state.runtime.book,
                point: ObservationPoint::BeforeEvent(row.quote_time_ns),
            }
            &&& forall|i: int|
                0 <= i < trades.len() ==> tells(
                    after.log[start + 1 + i],
                    channel,
                    row.symbol@,
                    #[trigger] trades[i],
                )
            &&& after.log.last() == Observed::State {
                channel,
                symbol: row.symbol@,
                book: after.runtime.book,
                point: ObservationPoint::AfterEvent(row.quote_time_ns),
            }
            &&& after.report.applied_events == state.report.applied_events + 1 + responses.len()
            &&& after.report.sz_pending_groups == state.report.sz_pending_groups + 1
        }),
{
    reveal(StepState::sz_group);
    let before = state.before_event(request, channel, row.symbol@, row.quote_time_ns);
    lemma_announced(state, request, channel, row.symbol@, row.quote_time_ns);
    assert(before.error is None ==> {
        &&& before.state.log == state.log.push(
            Observed::State {
                channel,
                symbol: row.symbol@,
                book: state.runtime.book,
                point: ObservationPoint::BeforeEvent(row.quote_time_ns),
            },
        )
        &&& before.state.report.sz_pending_groups == state.report.sz_pending_groups
    }) by {
        reveal(StepState::before_event);
    }
    let applied = before.state.group_applied(request, channel, row, responses, disposition);
    assert(applied.state.log == before.state.log && applied.state.report.applied_events
        == state.report.applied_events + 1 + responses.len()
        && applied.state.report.sz_pending_groups == state.report.sz_pending_groups) by {
        reveal(StepState::group_applied);
        let ordered = before.state.resumed(
            before.state.unwatched().sz_order(request, channel, row, false),
        );
        lemma_order_counted(before.state.unwatched(), request, channel, row, false);
        lemma_executions_counted(ordered.state.unwatched(), request, channel, responses);
    }
    lemma_trades_told(applied.state, channel, row.symbol@, responses);
    let told = applied.state.shown_trades(channel, row.symbol@, responses);
    let after = state.sz_group(request, channel, row, responses, disposition).state;
    let start = state.log.len() as int;
    let trades = trades_among(responses);
    assert(after.log == told.log.push(after.log.last()));
    assert forall|i: int| 0 <= i < start implies #[trigger] after.log[i] == state.log[i] by {
        assert(told.log[i] == applied.state.log[i]);
    }
    assert(told.log[start] == applied.state.log[start]);
    assert forall|i: int| 0 <= i < trades.len() implies tells(
        after.log[start + 1 + i],
        channel,
        row.symbol@,
        #[trigger] trades[i],
    ) by {
        assert(told.log[start + 1 + i] == after.log[start + 1 + i]);
    }
}

/// An order that waits is told the best price of the other side, and takes with it the
/// executions that answer it; one that does not wait takes none.
pub proof fn waiting_orders_meet_the_other_side(
    state: ChannelState,
    request: MarketDayRequest,
    channel: u32,
    row: SzOrderRow,
    next_order: Option<u64>,
    executions: Seq<SzExecutionRow>,
)
    requires
        state.enter(request, row.symbol@) is Ok,
    ensures
        ({
            let entered = state.enter(request, row.symbol@)->Ok_0;
            let best = match row.side {
                SzSide::Buy => best_units(entered, Side::Sell),
                SzSide::Sell => best_units(entered, Side::Buy),
            };
            let pending = PendingOrder::spec_new(row, best);
            let taken = state.sz_taken(request, channel, row, next_order, executions);
            &&& waits(request.sz_market_order_policy, row, entered) ==> taken == collected(
                pending,
                next_order,
                channel,
                executions,
            ).taken
            &&& !waits(request.sz_market_order_policy, row, entered) ==> taken == 0
            &&& taken <= executions.len()
        }),
{
    let entered = state.enter(request, row.symbol@)->Ok_0;
    let best = match row.side {
        SzSide::Buy => best_units(entered, Side::Sell),
        SzSide::Sell => best_units(entered, Side::Buy),
    };
    responses_are_executions(PendingOrder::spec_new(row, best), next_order, channel, executions);
}

/// Where the rows of a Shenzhen channel are replayed to their end, each order and each
/// execution is applied once.
pub proof fn shenzhen_rows_are_applied_once(
    state: ChannelState,
    request: MarketDayRequest,
    channel: u32,
    orders: Seq<SzOrderRow>,
    executions: Seq<SzExecutionRow>,
)
    requires
        state.sz_rows(request, channel, orders, executions).error is None,
    ensures
        state.sz_rows(request, channel, orders, executions).state.report.applied_events
            == state.report.applied_events + orders.len() + executions.len(),
    decreases orders.len(), executions.len(),
{
    if orders.len() == 0 && executions.len() == 0 {
    } else if orders.len() > 0 && (executions.len() == 0 || orders[0].sequence
        < executions[0].sequence) {
        let row = orders[0];
        let rest = orders.drop_first();
        let next_order = first_sequence(rest);
        let first = state.sz_order(request, channel, row, next_order, executions);
        let taken = state.sz_taken(request, channel, row, next_order, executions);
        let entered = state.enter(request, row.symbol@)->Ok_0;
        assert(first.error is None && state.enter(request, row.symbol@) is Ok);
        waiting_orders_meet_the_other_side(
            state,
            request,
            channel,
            row,
            next_order,
            executions,
        );
        if waits(request.sz_market_order_policy, row, entered) {
            let result = pending_result(
                request.sz_market_order_policy,
                channel,
                row,
                best_units(entered, super::model::book_side(row.side).spec_opposite()),
                next_order,
                executions,
            );
            assert(result is Ok && (result->Ok_0).0 == taken);
            groups_are_shown_as_one(
                entered,
                request,
                channel,
                row,
                executions.take(taken as int),
                (result->Ok_0).1,
            );
        } else {
            lemma_order_counted(
                entered,
                request,
                channel,
                row,
                row.kind == SzOrderKind::SameSideBest,
            );
        }
        assert(first.state.report.applied_events == state.report.applied_events + 1 + taken);
        shenzhen_rows_are_applied_once(
            first.state,
            request,
            channel,
            rest,
            executions.skip(taken as int),
        );
    } else {
        let first = state.sz_execution(request, channel, executions[0]);
        let entered = state.enter(request, executions[0].symbol@)->Ok_0;
        assert(first.error is None && state.enter(request, executions[0].symbol@) is Ok);
        lemma_execution_counted(entered, request, channel, executions[0]);
        shenzhen_rows_are_applied_once(
            first.state,
            request,
            channel,
            orders,
            executions.drop_first(),
        );
    }
}

/// How many rows are statuses.
pub open spec fn statuses(rows: Seq<SseRow>) -> nat
    decreases rows.len(),
{
    if rows.len() == 0 {
        0
    } else {
        statuses(rows.drop_first()) + if rows[0].kind == SseKind::Status {
            1nat
        } else {
            0
        }
    }
}

/// Where the rows of a Shanghai channel are replayed to their end, each status is counted as a
/// status, and each other row is applied once.
pub proof fn shanghai_rows_are_applied_once(
    state: ChannelState,
    request: MarketDayRequest,
    channel: u32,
    rows: Seq<SseRow>,
)
    requires
        state.sse_rows(request, channel, rows).error is None,
    ensures
        ({
            let after = state.sse_rows(request, channel, rows).state;
            &&& statuses(rows) <= rows.len()
            &&& after.report.status_events == state.report.status_events + statuses(rows)
            &&& after.report.applied_events == state.report.applied_events + rows.len() - statuses(
                rows,
            )
        }),
    decreases rows.len(),
{
    if rows.len() > 0 {
        let row = rows[0];
        let first = state.sse_row(request, channel, row);
        let entered = state.enter(request, row.symbol@)->Ok_0;
        assert(first.error is None && state.enter(request, row.symbol@) is Ok);
        assert(first.state.report.applied_events == state.report.applied_events + if row.kind
            == SseKind::Status {
            0int
        } else {
            1
        } && first.state.report.status_events == state.report.status_events + if row.kind
            == SseKind::Status {
            1int
        } else {
            0
        }) by {
            reveal(StepState::sse_row);
            lemma_announced(entered, request, channel, row.symbol@, row.quote_time_ns);
        }
        shanghai_rows_are_applied_once(first.state, request, channel, rows.drop_first());
    }
}

/// A channel ends with each of its symbols, in their order, and closes them at fifteen o'clock
/// where its end is the close.
pub proof fn channels_close_at_fifteen(
    state: ChannelState,
    request: MarketDayRequest,
    channel: u32,
    end_is_close: bool,
)
    requires
        day_time(request.trading_day, "09:15:00.000") is Ok,
        day_time(request.trading_day, "11:30:00.000") is Ok,
        day_time(request.trading_day, "13:00:00.000") is Ok,
        day_time(request.trading_day, "15:00:00.000") is Ok,
        state.channel_end(request, channel, end_is_close).error is None,
    ensures
        ({
            let close = (shanghai_midnight(request.trading_day) + 15 * 3_600_000) * 1_000_000;
            let ended = state.symbol_ends(
                request,
                channel,
                listing(state.runtimes.dom()),
                if end_is_close {
                    Some(close as i64)
                } else {
                    None
                },
            );
            let after = state.channel_end(request, channel, end_is_close).state;
            &&& i64::MIN <= close <= i64::MAX
            &&& ended.error is None
            &&& after.log == ended.state.log
            &&& after.output == ended.state.output
            &&& after.runtimes == ended.state.runtimes
            &&& after.report.symbols == ended.state.report.symbols + ended.state.runtimes.len()
        }),
{
    lemma_sessions(request.trading_day);
}

/// A day replays its channels in their order, each on its own and with the log and the counts
/// of those before it, up to the first that fails; each that does not fail leaves its output.
pub proof fn days_replay_channel_after_channel(
    day: DayModel,
    request: MarketDayRequest,
    channels: Seq<ChannelRows>,
    complete_day: bool,
)
    requires
        day.error is None,
        channels.len() > 0,
    ensures
        ({
            let rows = channels[0];
            let opened = ChannelState::opened(request, day.log, day.report);
            let step = if request.market == Market::Sse {
                opened.sse_channel(request, rows.channel, rows.sse@)
            } else {
                opened.sz_channel(
                    request,
                    rows.channel,
                    rows.sz_orders@,
                    rows.sz_executions@,
                    complete_day,
                )
            };
            let after = day.replay_all(request, channels, complete_day);
            &&& step.error is Some ==> {
                &&& after.error == step.error
                &&& after.outputs == day.outputs
                &&& after.log == step.state.log
                &&& after.report == step.state.report
            }
            &&& step.error is None ==> after == (DayModel {
                outputs: day.outputs.push(step.state.output),
                log: step.state.log,
                report: step.state.report,
                error: None,
            }).replay_all(request, channels.drop_first(), complete_day)
        }),
{
    let step = channels[0].replay(request, day.log, day.report, complete_day);
    let next = DayModel {
        outputs: if step.error is None {
            day.outputs.push(step.state.output)
        } else {
            day.outputs
        },
        log: step.state.log,
        report: step.state.report,
        error: step.error,
    };
    assert(day.replay_all(request, channels, complete_day) == next.replay_all(
        request,
        channels.drop_first(),
        complete_day,
    ));
}

/// An order of a Shenzhen channel that does not wait enters the book of its symbol: a limit order
/// is visible at its price, a same-side-best order at the best price of its own side, and a
/// market order is hidden until a trade prices it.
pub proof fn orders_that_do_not_wait_enter_the_book(
    state: ChannelState,
    request: MarketDayRequest,
    channel: u32,
    row: SzOrderRow,
    next_order: Option<u64>,
    executions: Seq<SzExecutionRow>,
)
    requires
        state.enter(request, row.symbol@) is Ok,
        state.enter(request, row.symbol@)->Ok_0.runtime.book.wf(),
        !waits(
            request.sz_market_order_policy,
            row,
            state.enter(request, row.symbol@)->Ok_0,
        ),
        state.sz_order(request, channel, row, next_order, executions).error is None,
    ensures
        ({
            let book = state.enter(request, row.symbol@)->Ok_0.runtime.book;
            let after = state.sz_order(request, channel, row, next_order, executions).state;
            let next = after.runtimes[row.symbol@].book;
            let side = match row.side {
                SzSide::Buy => Side::Buy,
                SzSide::Sell => Side::Sell,
            };
            let order = next.orders[key_of(channel, side, row.sequence)];
            &&& after.runtimes.contains_key(row.symbol@)
            &&& next.orders.contains_key(key_of(channel, side, row.sequence))
            &&& order.remaining_quantity == row.quantity
            &&& match row.kind {
                SzOrderKind::Limit => {
                    &&& order.location == OrderLocation::Resting
                    &&& order.effective_price is Some
                    &&& order.effective_price->0.spec_units() == row.price_units
                },
                SzOrderKind::SameSideBest => {
                    &&& order.location == OrderLocation::Resting
                    &&& order.effective_price is Some
                    &&& is_top(side, book.side(side), order.effective_price->0)
                },
                SzOrderKind::Market => {
                    &&& order.location == OrderLocation::Aggressive
                    &&& order.allow_reentry
                    &&& order.reprice_from_trade
                },
            }
        }),
{
    let entered = state.enter(request, row.symbol@)->Ok_0;
    shenzhen_orders_enter_the_book(
        entered,
        request,
        channel,
        row,
        row.kind == SzOrderKind::SameSideBest,
    );
}

/// A group that rests shows what is left of its order at the price that it is given, and counts
/// it as inferred once; a group that is at its end rests nothing.
pub proof fn groups_end_as_they_are_disposed_of(
    state: StepState,
    request: MarketDayRequest,
    channel: u32,
    row: SzOrderRow,
    responses: Seq<SzExecutionRow>,
    disposition: Disposition,
)
    requires
        state.sz_group(request, channel, row, responses, disposition).error is None,
    ensures
        ({
            let after = state.sz_group(request, channel, row, responses, disposition).state;
            let side = match row.side {
                SzSide::Buy => Side::Buy,
                SzSide::Sell => Side::Sell,
            };
            let order = after.runtime.book.orders[key_of(channel, side, row.sequence)];
            let inferred = after.report.sz_inferred_market_remainders;
            &&& disposition == Disposition::Terminal ==> inferred
                == state.report.sz_inferred_market_remainders
            &&& disposition matches Disposition::Rest(units) ==> {
                &&& inferred == state.report.sz_inferred_market_remainders + 1
                &&& order.location == OrderLocation::Resting
                &&& order.effective_price is Some
                &&& order.effective_price->0.spec_units() == units
            }
        }),
{
    reveal(StepState::sz_group);
    let before = state.before_event(request, channel, row.symbol@, row.quote_time_ns);
    assert(before.state.report.sz_inferred_market_remainders
        == state.report.sz_inferred_market_remainders) by {
        reveal(StepState::before_event);
    }
    let applied = before.state.group_applied(request, channel, row, responses, disposition);
    lemma_trades_told(applied.state, channel, row.symbol@, responses);
    reveal(StepState::group_applied);
    let ordered = before.state.resumed(
        before.state.unwatched().sz_order(request, channel, row, false),
    );
    assert(ordered.state.report.sz_inferred_market_remainders
        == state.report.sz_inferred_market_remainders) by {
        reveal(StepState::sz_order);
        reveal(StepState::before_event);
    }
    let answered = ordered.state.resumed(
        ordered.state.unwatched().sz_executions(request, channel, responses),
    );
    lemma_executions_infer_nothing(ordered.state.unwatched(), request, channel, responses);
    if let Disposition::Rest(units) = disposition {
        pending_remainders_are_shown(answered.state, channel, row, units);
    }
}

proof fn lemma_executions_infer_nothing(
    state: StepState,
    request: MarketDayRequest,
    channel: u32,
    rows: Seq<SzExecutionRow>,
)
    ensures
        state.sz_executions(
            request,
            channel,
            rows,
        ).state.report.sz_inferred_market_remainders == state.report.sz_inferred_market_remainders,
    decreases rows.len(),
{
    if rows.len() > 0 {
        let first = state.sz_execution(request, channel, rows[0]);
        assert(first.state.report.sz_inferred_market_remainders
            == state.report.sz_inferred_market_remainders) by {
            reveal(StepState::sz_execution);
            reveal(StepState::before_event);
        }
        if first.error is None {
            lemma_executions_infer_nothing(first.state, request, channel, rows.drop_first());
        }
    }
}

/// Where the end of a channel is the close, a symbol that is not closed yet is closed, at the
/// given time or at that of its last event where that is later; the observer is shown the close
/// and then the end. Where it is not, nothing is closed.
pub proof fn ends_that_are_closes_close_once(
    state: StepState,
    request: MarketDayRequest,
    channel: u32,
    symbol: Seq<char>,
    close: Option<i64>,
)
    requires
        state.channel_end(request, channel, symbol, close).error is None,
    ensures
        ({
            let after = state.channel_end(request, channel, symbol, close).state;
            let last = state.runtime.last_time;
            let finished = Observed::State {
                channel,
                symbol,
                book: state.runtime.book,
                point: ObservationPoint::ChannelFinished,
            };
            &&& after.runtime.book == state.runtime.book
            &&& close is None || state.runtime.close_emitted ==> {
                &&& after.log == state.log.push(finished)
                &&& after.runtime.close_emitted == state.runtime.close_emitted
                &&& after.report.market_close_snapshots == state.report.market_close_snapshots
            }
            &&& close is Some && !state.runtime.close_emitted ==> {
                let time = if last is Some && last->0 > close->0 {
                    last->0
                } else {
                    close->0
                };
                &&& after.log == state.log.push(
                    Observed::State {
                        channel,
                        symbol,
                        book: state.runtime.book,
                        point: ObservationPoint::MarketClose(time),
                    },
                ).push(finished)
                &&& after.runtime.close_emitted
                &&& after.report.market_close_snapshots == state.report.market_close_snapshots + 1
            }
        }),
{
    reveal(StepState::channel_end);
}

proof fn lemma_symbols_closed(
    state: ChannelState,
    request: MarketDayRequest,
    channel: u32,
    symbols: Seq<Seq<char>>,
    close: Option<i64>,
    symbol: Seq<char>,
)
    ensures
        ({
            let ended = state.symbol_ends(request, channel, symbols, close);
            ended.error is None ==> {
                &&& state.runtimes.contains_key(symbol) ==> ended.state.runtimes.contains_key(
                    symbol,
                )
                &&& state.runtimes.contains_key(symbol) && state.runtimes[symbol].close_emitted
                    ==> ended.state.runtimes[symbol].close_emitted
                &&& close is Some && symbols.contains(symbol)
                    ==> ended.state.runtimes[symbol].close_emitted
                &&& close is None ==> ended.state.report.market_close_snapshots
                    == state.report.market_close_snapshots
                &&& close is None && state.runtimes.contains_key(symbol)
                    ==> ended.state.runtimes[symbol].close_emitted
                    == state.runtimes[symbol].close_emitted
            }
        }),
    decreases symbols.len(),
{
    if symbols.len() > 0 {
        let entered = state.with_runtime(state.runtimes[symbols[0]]);
        let step = entered.channel_end(request, channel, symbols[0], close);
        let first = state.leave(symbols[0], step);
        if first.error is None {
            ends_that_are_closes_close_once(entered, request, channel, symbols[0], close);
            let rest = symbols.drop_first();
            lemma_symbols_closed(first.state, request, channel, rest, close, symbol);
            if symbols.contains(symbol) && symbol != symbols[0] {
                let i = choose|i: int| 0 <= i < symbols.len() && symbols[i] == symbol;
                assert(rest[i - 1] == symbol);
            }
        }
    }
}

/// At the end of a whole Shenzhen day every symbol of a channel is closed. The end of a part of
/// a day and the end of a Shanghai channel close none.
pub proof fn whole_days_close_their_symbols(
    state: ChannelState,
    request: MarketDayRequest,
    channel: u32,
    orders: Seq<SzOrderRow>,
    executions: Seq<SzExecutionRow>,
    rows: Seq<SseRow>,
    symbol: Seq<char>,
)
    requires
        state.sz_rows(request, channel, orders, executions).state.runtimes.dom().finite(),
    ensures
        ({
            let read = state.sz_rows(request, channel, orders, executions).state;
            let whole = state.sz_channel(request, channel, orders, executions, true);
            let part = state.sz_channel(request, channel, orders, executions, false);
            &&& whole.error is None && read.runtimes.contains_key(symbol)
                ==> whole.state.runtimes[symbol].close_emitted
            &&& part.error is None ==> part.state.report.market_close_snapshots
                == read.report.market_close_snapshots
            &&& part.error is None && read.runtimes.contains_key(symbol)
                ==> part.state.runtimes[symbol].close_emitted
                == read.runtimes[symbol].close_emitted
        }),
        ({
            let read = state.sse_rows(request, channel, rows).state;
            let ended = state.sse_channel(request, channel, rows);
            &&& ended.error is None ==> ended.state.report.market_close_snapshots
                == read.report.market_close_snapshots
            &&& ended.error is None && read.runtimes.contains_key(symbol)
                ==> ended.state.runtimes[symbol].close_emitted
                == read.runtimes[symbol].close_emitted
        }),
{
    let read = state.sz_rows(request, channel, orders, executions).state;
    let list = listing(read.runtimes.dom());
    finite_sets_have_listings(read.runtimes.dom());
    assert(read.runtimes.contains_key(symbol) ==> list.to_set().contains(symbol));
    let close = day_time(request.trading_day, "15:00:00.000");
    if close is Ok {
        lemma_symbols_closed(read, request, channel, list, Some(close->Ok_0), symbol);
        lemma_symbols_closed(read, request, channel, list, None, symbol);
        let ticks = state.sse_rows(request, channel, rows).state;
        lemma_symbols_closed(
            ticks,
            request,
            channel,
            listing(ticks.runtimes.dom()),
            None,
            symbol,
        );
    }
}

/// A pending order is decided by what its responses leave and by the row behind them. Where
/// nothing is left it is at its end. What is left rests at the price that the order found, where
/// responses are taken as contiguous and the next row, of either stream, follows at once.
pub proof fn pending_orders_are_decided_by_the_next_row(
    policy: SzMarketOrderPolicy,
    channel: u32,
    row: SzOrderRow,
    initial_best: Option<i64>,
    next_order: Option<u64>,
    executions: Seq<SzExecutionRow>,
)
    requires
        pending_result(policy, channel, row, initial_best, next_order, executions) is Ok,
    ensures
        ({
            let (taken, disposition) = pending_result(
                policy,
                channel,
                row,
                initial_best,
                next_order,
                executions,
            )->Ok_0;
            let answered = collected(
                PendingOrder::spec_new(row, initial_best),
                next_order,
                channel,
                executions,
            );
            let left = answered.pending;
            let follows = left.last_sequence + 1;
            &&& answered.error is None
            &&& taken == answered.taken
            &&& taken <= executions.len()
            &&& left.remaining == 0 ==> disposition == Disposition::Terminal
            &&& left.remaining > 0 ==> {
                &&& policy == SzMarketOrderPolicy::AssumeContiguous
                &&& left.first_trade_price is Some
                &&& disposition == Disposition::Rest(left.first_trade_price->0)
                &&& !left.multiple_prices
                &&& (taken < executions.len() && executions[taken as int].sequence == follows)
                    || next_order == Some(follows as u64)
                &&& taken < executions.len() ==> executions[taken as int].sequence >= follows
                &&& next_order is Some ==> next_order->0 >= follows
            }
        }),
{
    let pending = PendingOrder::spec_new(row, initial_best);
    responses_are_executions(pending, next_order, channel, executions);
}

/// A counter takes one more unless it is full, and tells its name where it is.
pub proof fn counters_count_until_they_are_full(counter: u64, what: Seq<char>)
    ensures
        counter + 1 <= 0xffff_ffff_ffff_ffff <==> bump_error(counter, what) is None,
        bump_error(counter, what) matches Some(error) ==> error == ErrorModel::Arithmetic(what),
{
}

} // verus!
