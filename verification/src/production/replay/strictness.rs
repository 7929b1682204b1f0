//! Scheduled snapshots show what came strictly before their times.

use vstd::prelude::*;

use crate::market_data::Market;
use crate::order_book::BookModel;

use super::super::rows::{SseKind, SseRow, SzExecutionKind, SzExecutionRow, SzOrderKind, SzOrderRow};
use super::super::snapshot::{
    day_grid, day_time, due_times_are_those_that_have_come, leading_due,
    snapshot_times_skip_the_lunch_break, strictly_ascend, SnapshotModel,
};
use super::super::symbol_map::{finite_sets_have_listings, listing};
use super::super::sz_pending::{Disposition, PendingOrder};
use super::super::types::{MarketDayRequest, SnapshotKind};
use super::channel::{best_units, first_sequence, waits, ChannelState};
use super::day::ChannelRows;
use super::group::{pending_result, responses_are_executions, responses_keep_to_one_time};
use super::model::{
    book_side, final_boundary, snapshot_depth, snapshots_hold_what_came_before, Step, StepState,
};
use super::observe::{ObservationPoint, Observed};
use super::report::ReportModel;
use super::runtime::RuntimeModel;

verus! {

/// The quote time of the event behind which a book was shown, where it was one of the symbol.
pub open spec fn event_time(observed: Observed, symbol: Seq<char>) -> Option<i64> {
    match observed {
        Observed::State { channel: _, symbol: shown, book: _, point } => match point {
            ObservationPoint::AfterEvent(time) => if shown == symbol {
                Some(time)
            } else {
                None
            },
            _ => None,
        },
        Observed::Trade { .. } => None,
    }
}

/// The book that was shown.
pub open spec fn shown_book(observed: Observed) -> BookModel {
    match observed {
        Observed::State { channel: _, symbol: _, book, point: _ } => book,
        Observed::Trade { .. } => BookModel::empty(),
    }
}

/// The book of a symbol behind the last of its events whose quote time is before a given time,
/// which is empty where there is none.
pub open spec fn book_before(log: Seq<Observed>, symbol: Seq<char>, time: int) -> BookModel
    decreases log.len(),
{
    if log.len() == 0 {
        BookModel::empty()
    } else if event_time(log.last(), symbol) is Some && event_time(log.last(), symbol)->0 < time {
        shown_book(log.last())
    } else {
        book_before(log.drop_last(), symbol, time)
    }
}

/// Whether a snapshot shows the book of its symbol behind the last event before its time.
pub open spec fn is_strict(
    snapshot: SnapshotModel,
    log: Seq<Observed>,
    channel: u32,
    depth: usize,
) -> bool {
    snapshot == SnapshotModel::of(
        book_before(log, snapshot.symbol, snapshot.boundary_time_ns as int),
        snapshot.symbol,
        channel,
        SnapshotKind::Scheduled,
        snapshot.boundary_time_ns,
        depth,
    )
}

/// Whether all scheduled snapshots are strict.
pub open spec fn all_strict(
    output: Seq<SnapshotModel>,
    log: Seq<Observed>,
    channel: u32,
    depth: usize,
) -> bool {
    forall|p: int|
        0 <= p < output.len() && (#[trigger] output[p]).kind == SnapshotKind::Scheduled
            ==> is_strict(output[p], log, channel, depth)
}

spec fn latest(log: Seq<Observed>, symbol: Seq<char>) -> BookModel {
    book_before(log, symbol, 0x8000_0000_0000_0000)
}

/// No event of the symbol is later than a time, and there is none where there is no time.
spec fn bounded(log: Seq<Observed>, symbol: Seq<char>, last: Option<i64>) -> bool {
    forall|i: int|
        0 <= i < log.len() && event_time(#[trigger] log[i], symbol) is Some ==> last is Some
            && event_time(log[i], symbol)->0 <= last->0
}

/// No scheduled snapshot of the symbol is later than a time.
spec fn past(output: Seq<SnapshotModel>, symbol: Seq<char>, last: Option<i64>) -> bool {
    forall|p: int|
        0 <= p < output.len() && (#[trigger] output[p]).kind == SnapshotKind::Scheduled
            && output[p].symbol == symbol ==> last is Some && output[p].boundary_time_ns <= last->0
}

/// The times of the scheduled snapshots of a symbol, in their order.
pub open spec fn recorded_times(output: Seq<SnapshotModel>, symbol: Seq<char>) -> Seq<i64>
    decreases output.len(),
{
    if output.len() == 0 {
        Seq::empty()
    } else {
        let front = recorded_times(output.drop_last(), symbol);
        if output.last().kind == SnapshotKind::Scheduled && output.last().symbol == symbol {
            front.push(output.last().boundary_time_ns)
        } else {
            front
        }
    }
}

/// Snapshots that come behind others are recorded behind them.
proof fn lemma_more_recorded(
    output: Seq<SnapshotModel>,
    more: Seq<SnapshotModel>,
    symbol: Seq<char>,
)
    ensures
        recorded_times(output + more, symbol) == recorded_times(output, symbol) + recorded_times(
            more,
            symbol,
        ),
    decreases more.len(),
{
    if more.len() == 0 {
        assert(output + more =~= output);
    } else {
        assert((output + more).drop_last() =~= output + more.drop_last());
        lemma_more_recorded(output, more.drop_last(), symbol);
    }
    assert(recorded_times(output + more, symbol) =~= recorded_times(output, symbol)
        + recorded_times(more, symbol));
}

/// Snapshots that are not scheduled ones of a symbol are not recorded for it.
proof fn lemma_none_recorded(output: Seq<SnapshotModel>, symbol: Seq<char>)
    requires
        forall|p: int|
            0 <= p < output.len() ==> (#[trigger] output[p]).kind != SnapshotKind::Scheduled
                || output[p].symbol != symbol,
    ensures
        recorded_times(output, symbol) == Seq::<i64>::empty(),
    decreases output.len(),
{
    if output.len() > 0 {
        let front = output.drop_last();
        assert forall|p: int| 0 <= p < front.len() implies (#[trigger] front[p]).kind
            != SnapshotKind::Scheduled || front[p].symbol != symbol by {
            assert(front[p] == output[p]);
        }
        lemma_none_recorded(front, symbol);
        assert(output.last() == output[output.len() - 1]);
    }
}

/// Scheduled snapshots of a symbol at given times are recorded for it at those times.
proof fn lemma_all_recorded(output: Seq<SnapshotModel>, times: Seq<i64>, symbol: Seq<char>)
    requires
        output.len() == times.len(),
        forall|p: int|
            0 <= p < output.len() ==> (#[trigger] output[p]).kind == SnapshotKind::Scheduled
                && output[p].symbol == symbol && output[p].boundary_time_ns == times[p],
    ensures
        recorded_times(output, symbol) == times,
    decreases output.len(),
{
    if output.len() > 0 {
        let front = output.drop_last();
        assert forall|p: int| 0 <= p < front.len() implies (#[trigger] front[p]).kind
            == SnapshotKind::Scheduled && front[p].symbol == symbol && front[p].boundary_time_ns
            == times.drop_last()[p] by {
            assert(front[p] == output[p]);
        }
        lemma_all_recorded(front, times.drop_last(), symbol);
        assert(output.last() == output[output.len() - 1]);
        assert(times =~= times.drop_last().push(times.last()));
    } else {
        assert(times =~= Seq::empty());
    }
}

/// The times of a request's schedule.
pub open spec fn schedule_times(request: MarketDayRequest) -> Seq<i64> {
    day_grid(request.trading_day, request.snapshots->0)->Ok_0
}

proof fn lemma_push(log: Seq<Observed>, observed: Observed, symbol: Seq<char>, time: int)
    ensures
        book_before(log.push(observed), symbol, time) == if event_time(observed, symbol) is Some
            && event_time(observed, symbol)->0 < time {
            shown_book(observed)
        } else {
            book_before(log, symbol, time)
        },
{
    assert(log.push(observed).drop_last() =~= log);
}

/// A time behind all events sees the latest book.
proof fn lemma_beyond(log: Seq<Observed>, symbol: Seq<char>, last: Option<i64>, time: int)
    requires
        bounded(log, symbol, last),
        last is Some ==> last->0 < time,
    ensures
        book_before(log, symbol, time) == latest(log, symbol),
        last is None ==> latest(log, symbol) == BookModel::empty(),
    decreases log.len(),
{
    if log.len() > 0 {
        let rest = log.drop_last();
        assert(log.last() == log[log.len() - 1]);
        assert forall|i: int|
            0 <= i < rest.len() && event_time(#[trigger] rest[i], symbol) is Some implies last
            is Some && event_time(rest[i], symbol)->0 <= last->0 by {
            assert(rest[i] == log[i]);
        }
        lemma_beyond(rest, symbol, last, time);
    }
}

impl StepState {
    /// What holds of a symbol at any time: its book is the latest that was shown, the snapshots
    /// still to come are later than its events, and those that were recorded are strict.
    spec fn ending(self, symbol: Seq<char>, channel: u32, request: MarketDayRequest) -> bool {
        let runtime = self.runtime;
        &&& runtime.symbol == symbol
        &&& runtime.cursor is Some
        &&& strictly_ascend(runtime.cursor->0)
        &&& forall|i: int|
            0 <= i < runtime.cursor->0.len() && runtime.last_time is Some
                ==> runtime.last_time->0 < #[trigger] runtime.cursor->0[i]
        &&& runtime.pending_close is Some ==> runtime.pending_close->0.kind
            == SnapshotKind::MarketClose && runtime.pending_close->0.symbol == symbol
        &&& bounded(self.log, symbol, runtime.last_time)
        &&& runtime.book == latest(self.log, symbol)
        &&& self.output is Some
        &&& all_strict(self.output->0, self.log, channel, snapshot_depth(request))
        &&& recorded_times(self.output->0, symbol) + runtime.cursor->0 == schedule_times(request)
    }

    /// What also holds while events may still come.
    spec fn tidy(self, symbol: Seq<char>, channel: u32, request: MarketDayRequest) -> bool {
        &&& self.ending(symbol, channel, request)
        &&& past(self.output->0, symbol, self.runtime.last_time)
    }

    /// What a step of one symbol leaves of the others.
    spec fn beside(self, next: Self, symbol: Seq<char>) -> bool {
        &&& forall|other: Seq<char>, time: int|
            other != symbol ==> #[trigger] book_before(next.log, other, time) == book_before(
                self.log,
                other,
                time,
            )
        &&& forall|other: Seq<char>, last: Option<i64>|
            other != symbol && bounded(self.log, other, last) ==> #[trigger] bounded(
                next.log,
                other,
                last,
            )
        &&& forall|other: Seq<char>|
            other != symbol ==> #[trigger] recorded_times(next.output->0, other) == recorded_times(
                self.output->0,
                other,
            )
        &&& self.output->0.len() <= next.output->0.len()
        &&& forall|p: int|
            0 <= p < self.output->0.len() ==> #[trigger] next.output->0[p] == self.output->0[p]
        &&& forall|p: int|
            self.output->0.len() <= p < next.output->0.len() ==> (
            #[trigger] next.output->0[p]).symbol == symbol
    }

    proof fn lemma_beside(self, middle: Self, next: Self, symbol: Seq<char>)
        requires
            self.beside(middle, symbol),
            middle.beside(next, symbol),
        ensures
            self.beside(next, symbol),
    {
        assert forall|other: Seq<char>, last: Option<i64>|
            other != symbol && bounded(self.log, other, last) implies #[trigger] bounded(
            next.log,
            other,
            last,
        ) by {
            assert(bounded(middle.log, other, last));
        }
        assert forall|other: Seq<char>, time: int|
            other != symbol implies #[trigger] book_before(next.log, other, time) == book_before(
            self.log,
            other,
            time,
        ) by {
            assert(book_before(middle.log, other, time) == book_before(self.log, other, time));
        }
        assert forall|p: int| 0 <= p < self.output->0.len() implies #[trigger] next.output->0[p]
            == self.output->0[p] by {
            assert(middle.output->0[p] == self.output->0[p]);
        }
        assert forall|p: int|
            self.output->0.len() <= p < next.output->0.len() implies (
        #[trigger] next.output->0[p]).symbol == symbol by {
            if p < middle.output->0.len() {
                assert(next.output->0[p] == middle.output->0[p]);
            }
        }
    }

    /// What is no event changes nothing when it is shown.
    proof fn lemma_quiet_push(
        self,
        next: Self,
        observed: Observed,
        symbol: Seq<char>,
        channel: u32,
        request: MarketDayRequest,
    )
        requires
            self.output is Some,
            forall|other: Seq<char>| event_time(observed, other) is None,
            next == (StepState { log: self.log.push(observed), ..self }),
        ensures
            self.ending(symbol, channel, request) ==> next.ending(symbol, channel, request),
            self.tidy(symbol, channel, request) ==> next.tidy(symbol, channel, request),
            self.beside(next, symbol),
            forall|time: int|
                #[trigger] book_before(next.log, symbol, time) == book_before(
                    self.log,
                    symbol,
                    time,
                ),
            forall|last: Option<i64>|
                bounded(self.log, symbol, last) ==> #[trigger] bounded(next.log, symbol, last),
    {
        assert forall|other: Seq<char>, time: int| #[trigger]
            book_before(next.log, other, time) == book_before(self.log, other, time) by {
            lemma_push(self.log, observed, other, time);
        }
        assert forall|other: Seq<char>, last: Option<i64>|
            bounded(self.log, other, last) implies #[trigger] bounded(next.log, other, last) by {
            assert forall|i: int|
                0 <= i < next.log.len() && event_time(#[trigger] next.log[i], other)
                    is Some implies last is Some && event_time(next.log[i], other)->0 <= last->0 by {
                if i < self.log.len() {
                    assert(next.log[i] == self.log[i]);
                }
            }
        }
    }

    /// An event at the present time is shown with the book it left.
    proof fn lemma_event_push(
        self,
        next: Self,
        symbol: Seq<char>,
        channel: u32,
        request: MarketDayRequest,
        time: i64,
    )
        requires
            self.tidy(symbol, channel, request),
            self.runtime.last_time == Some(time),
            next.runtime == (RuntimeModel {
                book: next.runtime.book,
                references: next.runtime.references,
                ..self.runtime
            }),
            next.output == self.output,
            next.log == self.log.push(
                Observed::State {
                    channel,
                    symbol,
                    book: next.runtime.book,
                    point: ObservationPoint::AfterEvent(time),
                },
            ),
        ensures
            next.tidy(symbol, channel, request),
            self.beside(next, symbol),
    {
        let observed = Observed::State {
            channel,
            symbol,
            book: next.runtime.book,
            point: ObservationPoint::AfterEvent(time),
        };
        assert forall|other: Seq<char>, at: int|
            other != symbol || at <= time implies #[trigger] book_before(next.log, other, at)
            == book_before(self.log, other, at) by {
            lemma_push(self.log, observed, other, at);
        }
        assert forall|other: Seq<char>, last: Option<i64>|
            other != symbol && bounded(self.log, other, last) implies #[trigger] bounded(
            next.log,
            other,
            last,
        ) by {
            assert forall|i: int|
                0 <= i < next.log.len() && event_time(#[trigger] next.log[i], other)
                    is Some implies last is Some && event_time(next.log[i], other)->0 <= last->0 by {
                if i < self.log.len() {
                    assert(next.log[i] == self.log[i]);
                }
            }
        }
        assert forall|i: int|
            0 <= i < next.log.len() && event_time(#[trigger] next.log[i], symbol)
                is Some implies event_time(next.log[i], symbol)->0 <= time by {
            if i < self.log.len() {
                assert(next.log[i] == self.log[i]);
            }
        }
        lemma_push(self.log, observed, symbol, 0x8000_0000_0000_0000);
        assert forall|p: int|
            0 <= p < next.output->0.len() && (#[trigger] next.output->0[p]).kind
                == SnapshotKind::Scheduled implies is_strict(
            next.output->0[p],
            next.log,
            channel,
            snapshot_depth(request),
        ) by {
            let snapshot = self.output->0[p];
            assert(is_strict(snapshot, self.log, channel, snapshot_depth(request)));
            assert(book_before(next.log, snapshot.symbol, snapshot.boundary_time_ns as int)
                == book_before(self.log, snapshot.symbol, snapshot.boundary_time_ns as int));
        }
    }

    /// Snapshots at times behind all events are strict.
    proof fn lemma_captures(
        self,
        times: Seq<i64>,
        symbol: Seq<char>,
        channel: u32,
        request: MarketDayRequest,
    )
        requires
            self.ending(symbol, channel, request),
            forall|i: int|
                0 <= i < times.len() && self.runtime.last_time is Some
                    ==> self.runtime.last_time->0 < #[trigger] times[i],
        ensures
            ({
                let depth = snapshot_depth(request);
                let taken = self.captures(times, channel, depth);
                let all = self.output->0 + taken;
                &&& all_strict(all, self.log, channel, depth)
                &&& forall|p: int|
                    0 <= p < times.len() ==> (#[trigger] taken[p]).symbol == symbol
                        && taken[p].boundary_time_ns == times[p]
                &&& recorded_times(all, symbol) == recorded_times(self.output->0, symbol) + times
                &&& forall|other: Seq<char>|
                    other != symbol ==> #[trigger] recorded_times(all, other) == recorded_times(
                        self.output->0,
                        other,
                    )
            }),
    {
        let depth = snapshot_depth(request);
        let taken = self.captures(times, channel, depth);
        let all = self.output->0 + taken;
        assert forall|p: int|
            0 <= p < all.len() && (#[trigger] all[p]).kind
                == SnapshotKind::Scheduled implies is_strict(all[p], self.log, channel, depth) by {
            let n = self.output->0.len();
            if p < n {
                assert(all[p] == self.output->0[p]);
            } else {
                assert(all[p] == taken[p - n]);
                lemma_beyond(self.log, symbol, self.runtime.last_time, times[p - n] as int);
            }
        }
        lemma_more_recorded(self.output->0, taken, symbol);
        lemma_all_recorded(taken, times, symbol);
        assert forall|other: Seq<char>| other != symbol implies #[trigger] recorded_times(all, other)
            == recorded_times(self.output->0, other) by {
            lemma_more_recorded(self.output->0, taken, other);
            lemma_none_recorded(taken, other);
            assert(recorded_times(all, other) =~= recorded_times(self.output->0, other));
        }
    }

    proof fn lemma_before_event_tidy(
        self,
        request: MarketDayRequest,
        channel: u32,
        symbol: Seq<char>,
        time: i64,
    )
        requires
            self.tidy(symbol, channel, request),
            self.before_event(request, channel, symbol, time).error is None,
        ensures
            ({
                let next = self.before_event(request, channel, symbol, time).state;
                &&& next.tidy(symbol, channel, request)
                &&& next.runtime == (RuntimeModel {
                    cursor: next.runtime.cursor,
                    last_time: Some(time),
                    ..self.runtime
                })
                &&& self.beside(next, symbol)
            }),
    {
        snapshots_hold_what_came_before(self, request, channel, symbol, time);
        reveal(StepState::before_event);
        let next = self.before_event(request, channel, symbol, time).state;
        let times = self.runtime.cursor->0;
        let due = leading_due(times, time) as int;
        assert(0 <= due <= times.len()) by {
            if times.len() > 0 {
                due_times_are_those_that_have_come(times, time, 0);
            }
        }
        self.lemma_captures(times.take(due), symbol, channel, request);
        let taken = self.captures(times.take(due), channel, snapshot_depth(request));
        let recorded = StepState { log: self.log, ..next };
        assert(recorded.output->0 == self.output->0 + taken);
        assert forall|i: int, j: int| 0 <= i < j < next.runtime.cursor->0.len() implies
            #[trigger] next.runtime.cursor->0[i] < #[trigger] next.runtime.cursor->0[j] by {
            assert(times[due + i] < times[due + j]);
        }
        assert forall|i: int| 0 <= i < next.runtime.cursor->0.len() implies time
            < #[trigger] next.runtime.cursor->0[i] by {
            assert(times[due + i] > time);
        }
        assert(bounded(recorded.log, symbol, Some(time)));
        assert forall|p: int|
            0 <= p < recorded.output->0.len() && (#[trigger] recorded.output->0[p]).kind
                == SnapshotKind::Scheduled && recorded.output->0[p].symbol
                == symbol implies recorded.output->0[p].boundary_time_ns <= time by {
            let n = self.output->0.len();
            if p < n {
                assert(recorded.output->0[p] == self.output->0[p]);
            } else {
                assert(recorded.output->0[p] == taken[p - n]);
                assert(times.take(due)[p - n] == times[p - n]);
            }
        }
        assert(recorded_times(recorded.output->0, symbol) + recorded.runtime.cursor->0
            =~= recorded_times(self.output->0, symbol) + times);
        assert(recorded.tidy(symbol, channel, request));
        assert(self.beside(recorded, symbol)) by {
            assert forall|p: int|
                self.output->0.len() <= p < recorded.output->0.len() implies (
            #[trigger] recorded.output->0[p]).symbol == symbol by {
                assert(recorded.output->0[p] == taken[p - self.output->0.len()]);
            }
        }
        let observed = Observed::State {
            channel,
            symbol,
            book: self.runtime.book,
            point: ObservationPoint::BeforeEvent(time),
        };
        assert(next.log == self.log.push(observed));
        recorded.lemma_quiet_push(next, observed, symbol, channel, request);
        self.lemma_beside(recorded, next, symbol);
    }
}

impl StepState {
    proof fn lemma_sz_order_tidy(
        self,
        request: MarketDayRequest,
        channel: u32,
        row: SzOrderRow,
        same_side: bool,
    )
        requires
            self.tidy(row.symbol@, channel, request),
            self.sz_order(request, channel, row, same_side).error is None,
        ensures
            self.sz_order(request, channel, row, same_side).state.tidy(
                row.symbol@,
                channel,
                request,
            ),
            self.beside(self.sz_order(request, channel, row, same_side).state, row.symbol@),
    {
        reveal(StepState::sz_order);
        self.lemma_before_event_tidy(request, channel, row.symbol@, row.quote_time_ns);
        let before = self.before_event(request, channel, row.symbol@, row.quote_time_ns).state;
        let next = self.sz_order(request, channel, row, same_side).state;
        before.lemma_event_push(
            next,
            row.symbol@,
            channel,
            request,
            row.quote_time_ns,
        );
        self.lemma_beside(before, next, row.symbol@);
    }

    proof fn lemma_sz_execution_tidy(
        self,
        request: MarketDayRequest,
        channel: u32,
        row: SzExecutionRow,
    )
        requires
            self.tidy(row.symbol@, channel, request),
            self.sz_execution(request, channel, row).error is None,
        ensures
            self.sz_execution(request, channel, row).state.tidy(
                row.symbol@,
                channel,
                request,
            ),
            self.beside(self.sz_execution(request, channel, row).state, row.symbol@),
    {
        reveal(StepState::sz_execution);
        self.lemma_before_event_tidy(request, channel, row.symbol@, row.quote_time_ns);
        let before = self.before_event(request, channel, row.symbol@, row.quote_time_ns).state;
        let next = self.sz_execution(request, channel, row).state;
        if row.kind == SzExecutionKind::Trade {
            let told = before.shown_trade(channel, row.symbol@, row);
            before.lemma_quiet_push(told, told.log.last(), row.symbol@, channel, request);
            told.lemma_event_push(next, row.symbol@, channel, request, row.quote_time_ns);
            self.lemma_beside(before, told, row.symbol@);
            self.lemma_beside(told, next, row.symbol@);
        } else {
            before.lemma_event_push(next, row.symbol@, channel, request, row.quote_time_ns);
            self.lemma_beside(before, next, row.symbol@);
        }
    }

    proof fn lemma_market_close_tidy(
        self,
        request: MarketDayRequest,
        channel: u32,
        symbol: Seq<char>,
        boundary_time_ns: i64,
    )
        requires
            self.ending(symbol, channel, request),
            self.market_close(request, channel, symbol, boundary_time_ns).error is None,
        ensures
            ({
                let next = self.market_close(request, channel, symbol, boundary_time_ns).state;
                &&& next.ending(symbol, channel, request)
                &&& self.tidy(symbol, channel, request) ==> next.tidy(
                    symbol,
                    channel,
                    request,
                )
                &&& self.beside(next, symbol)
            }),
    {
        let next = self.market_close(request, channel, symbol, boundary_time_ns).state;
        if !self.runtime.close_emitted {
            let taken = StepState { log: self.log, ..next };
            assert forall|p: int|
                0 <= p < taken.output->0.len() && (#[trigger] taken.output->0[p]).kind
                    == SnapshotKind::Scheduled implies taken.output->0[p] == self.output->0[p] && p
                < self.output->0.len() by {}
            if taken.output != self.output {
                let last = taken.output->0.last();
                assert(taken.output->0.drop_last() =~= self.output->0);
                assert forall|other: Seq<char>| #[trigger]
                    recorded_times(taken.output->0, other) == recorded_times(
                    self.output->0,
                    other,
                ) by {
                    assert(last.kind == SnapshotKind::MarketClose);
                }
            }
            assert(taken.ending(symbol, channel, request));
            let observed = Observed::State {
                channel,
                symbol,
                book: self.runtime.book,
                point: ObservationPoint::MarketClose(boundary_time_ns),
            };
            taken.lemma_quiet_push(next, observed, symbol, channel, request);
            self.lemma_beside(taken, next, symbol);
        }
    }

    proof fn lemma_sse_row_tidy(self, request: MarketDayRequest, channel: u32, row: SseRow)
        requires
            self.tidy(row.symbol@, channel, request),
            self.sse_row(request, channel, row).error is None,
        ensures
            self.sse_row(request, channel, row).state.tidy(
                row.symbol@,
                channel,
                request,
            ),
            self.beside(self.sse_row(request, channel, row).state, row.symbol@),
    {
        reveal(StepState::sse_row);
        let next = self.sse_row(request, channel, row).state;
        if row.kind != SseKind::Status {
            self.lemma_before_event_tidy(request, channel, row.symbol@, row.quote_time_ns);
            let before = self.before_event(request, channel, row.symbol@, row.quote_time_ns).state;
            before.lemma_event_push(next, row.symbol@, channel, request, row.quote_time_ns);
            self.lemma_beside(before, next, row.symbol@);
        } else if row.status == 2 {
            let counted = self.with_report(
                ReportModel {
                    status_events: (self.report.status_events + 1) as u64,
                    ..self.report
                },
            );
            assert(counted.tidy(row.symbol@, channel, request));
            counted.lemma_market_close_tidy(request, channel, row.symbol@, row.quote_time_ns);
        }
    }

    /// Whether a state differs from another at most in its book, its order references and its
    /// counts.
    spec fn rebooked(self, other: Self) -> bool {
        &&& self.runtime == (RuntimeModel {
            book: self.runtime.book,
            references: self.runtime.references,
            ..other.runtime
        })
        &&& self.output == other.output
    }

    proof fn lemma_unwatched_order(
        self,
        request: MarketDayRequest,
        channel: u32,
        row: SzOrderRow,
    )
        requires
            self.output is None,
            self.runtime.last_time == Some(row.quote_time_ns),
            self.sz_order(request, channel, row, false).error is None,
        ensures
            self.sz_order(request, channel, row, false).state.rebooked(self),
    {
        reveal(StepState::before_event);
        reveal(StepState::sz_order);
    }

    proof fn lemma_unwatched_executions(
        self,
        request: MarketDayRequest,
        channel: u32,
        rows: Seq<SzExecutionRow>,
        time: i64,
    )
        requires
            self.output is None,
            self.runtime.last_time == Some(time),
            forall|i: int| 0 <= i < rows.len() ==> (#[trigger] rows[i]).quote_time_ns == time,
            self.sz_executions(request, channel, rows).error is None,
        ensures
            self.sz_executions(request, channel, rows).state.rebooked(self),
        decreases rows.len(),
    {
        if rows.len() > 0 {
            let first = self.sz_execution(request, channel, rows[0]);
            assert(first.state.rebooked(self)) by {
                reveal(StepState::before_event);
                reveal(StepState::sz_execution);
            }
            first.state.lemma_unwatched_executions(request, channel, rows.drop_first(), time);
        }
    }

    proof fn lemma_group_applied(
        self,
        request: MarketDayRequest,
        channel: u32,
        row: SzOrderRow,
        responses: Seq<SzExecutionRow>,
        disposition: Disposition,
    )
        requires
            self.runtime.last_time == Some(row.quote_time_ns),
            forall|i: int|
                0 <= i < responses.len() ==> (#[trigger] responses[i]).quote_time_ns
                    == row.quote_time_ns,
            self.group_applied(request, channel, row, responses, disposition).error is None,
        ensures
            self.group_applied(request, channel, row, responses, disposition).state.rebooked(self),
            self.group_applied(request, channel, row, responses, disposition).state.log
                == self.log,
    {
        reveal(StepState::group_applied);
        self.unwatched().lemma_unwatched_order(request, channel, row);
        let ordered = self.resumed(self.unwatched().sz_order(request, channel, row, false));
        ordered.state.unwatched().lemma_unwatched_executions(
            request,
            channel,
            responses,
            row.quote_time_ns,
        );
    }

    proof fn lemma_shown_trades_tidy(
        self,
        symbol: Seq<char>,
        channel: u32,
        request: MarketDayRequest,
        rows: Seq<SzExecutionRow>,
    )
        requires
            self.tidy(symbol, channel, request),
        ensures
            self.shown_trades(channel, symbol, rows).tidy(symbol, channel, request),
            self.beside(self.shown_trades(channel, symbol, rows), symbol),
            self.shown_trades(channel, symbol, rows).runtime == self.runtime,
            self.shown_trades(channel, symbol, rows).output == self.output,
        decreases rows.len(),
    {
        if rows.len() > 0 {
            if rows[0].kind == SzExecutionKind::Trade {
                let told = self.shown_trade(channel, symbol, rows[0]);
                self.lemma_quiet_push(told, told.log.last(), symbol, channel, request);
                told.lemma_shown_trades_tidy(symbol, channel, request, rows.drop_first());
                self.lemma_beside(
                    told,
                    told.shown_trades(channel, symbol, rows.drop_first()),
                    symbol,
                );
            } else {
                self.lemma_shown_trades_tidy(symbol, channel, request, rows.drop_first());
            }
        }
    }

    /// What is shown of trades does not depend on anything but them.
    proof fn lemma_shown_trades_log(
        self,
        other: Self,
        channel: u32,
        symbol: Seq<char>,
        rows: Seq<SzExecutionRow>,
    )
        requires
            self.log == other.log,
        ensures
            self.shown_trades(channel, symbol, rows) == (StepState {
                log: other.shown_trades(channel, symbol, rows).log,
                ..self
            }),
        decreases rows.len(),
    {
        if rows.len() > 0 {
            if rows[0].kind == SzExecutionKind::Trade {
                self.shown_trade(channel, symbol, rows[0]).lemma_shown_trades_log(
                    other.shown_trade(channel, symbol, rows[0]),
                    channel,
                    symbol,
                    rows.drop_first(),
                );
            } else {
                self.lemma_shown_trades_log(other, channel, symbol, rows.drop_first());
            }
        }
    }

    proof fn lemma_sz_group_tidy(
        self,
        request: MarketDayRequest,
        channel: u32,
        row: SzOrderRow,
        responses: Seq<SzExecutionRow>,
        disposition: Disposition,
    )
        requires
            self.tidy(row.symbol@, channel, request),
            forall|i: int|
                0 <= i < responses.len() ==> (#[trigger] responses[i]).quote_time_ns
                    == row.quote_time_ns,
            self.sz_group(request, channel, row, responses, disposition).error is None,
        ensures
            self.sz_group(request, channel, row, responses, disposition).state.tidy(
                row.symbol@,
                channel,
                request,
            ),
            self.beside(
                self.sz_group(request, channel, row, responses, disposition).state,
                row.symbol@,
            ),
    {
        reveal(StepState::sz_group);
        let symbol = row.symbol@;
        self.lemma_before_event_tidy(request, channel, symbol, row.quote_time_ns);
        let before = self.before_event(request, channel, symbol, row.quote_time_ns).state;
        before.lemma_group_applied(request, channel, row, responses, disposition);
        let applied = before.group_applied(request, channel, row, responses, disposition).state;
        before.lemma_shown_trades_tidy(symbol, channel, request, responses);
        applied.lemma_shown_trades_log(before, channel, symbol, responses);
        let told = before.shown_trades(channel, symbol, responses);
        let next = self.sz_group(request, channel, row, responses, disposition).state;
        told.lemma_event_push(next, symbol, channel, request, row.quote_time_ns);
        self.lemma_beside(before, told, symbol);
        self.lemma_beside(told, next, symbol);
    }
}

impl StepState {
    proof fn lemma_channel_end_tidy(
        self,
        request: MarketDayRequest,
        channel: u32,
        symbol: Seq<char>,
        close: Option<i64>,
    )
        requires
            self.ending(symbol, channel, request),
            self.channel_end(request, channel, symbol, close).error is None,
        ensures
            self.channel_end(request, channel, symbol, close).state.ending(
                symbol,
                channel,
                request,
            ),
            self.beside(self.channel_end(request, channel, symbol, close).state, symbol),
            self.channel_end(request, channel, symbol, close).state.runtime.cursor->0.len() == 0,
    {
        reveal(StepState::channel_end);
        let times = self.runtime.cursor->0;
        let recorded = self.recorded(times.len(), channel, snapshot_depth(request)).state;
        self.lemma_captures(times, symbol, channel, request);
        let taken = self.captures(times, channel, snapshot_depth(request));
        assert(times.take(times.len() as int) =~= times);
        assert(recorded.output->0 == self.output->0 + taken);
        assert(recorded_times(recorded.output->0, symbol) + recorded.runtime.cursor->0
            =~= recorded_times(self.output->0, symbol) + times);
        assert(recorded.ending(symbol, channel, request));
        assert(self.beside(recorded, symbol)) by {
            assert forall|p: int|
                self.output->0.len() <= p < recorded.output->0.len() implies (
            #[trigger] recorded.output->0[p]).symbol == symbol by {
                assert(recorded.output->0[p] == taken[p - self.output->0.len()]);
            }
        }
        let boundary = final_boundary(recorded.runtime.last_time, close->0);
        if close is Some {
            recorded.lemma_market_close_tidy(request, channel, symbol, boundary);
        }
        let closed = if close is None {
            recorded
        } else {
            recorded.market_close(request, channel, symbol, boundary).state
        };
        self.lemma_beside(recorded, closed, symbol);
        let next = self.channel_end(request, channel, symbol, close).state;
        let kept = StepState { log: closed.log, ..next };
        if kept.output != closed.output {
            assert(kept.output->0.drop_last() =~= closed.output->0);
            assert(kept.output->0.last().kind == SnapshotKind::MarketClose);
            assert forall|other: Seq<char>| #[trigger]
                recorded_times(kept.output->0, other) == recorded_times(closed.output->0, other) by {}
        }
        assert(kept.ending(symbol, channel, request)) by {
            assert forall|p: int|
                0 <= p < kept.output->0.len() && (#[trigger] kept.output->0[p]).kind
                    == SnapshotKind::Scheduled implies p < closed.output->0.len()
                && kept.output->0[p] == closed.output->0[p] by {}
        }
        assert(closed.beside(kept, symbol));
        kept.lemma_quiet_push(next, next.log.last(), symbol, channel, request);
        self.lemma_beside(closed, kept, symbol);
        self.lemma_beside(kept, next, symbol);
    }
}

impl ChannelState {
    /// What holds of every symbol while events may still come. A symbol without a book has
    /// neither events nor snapshots.
    spec fn tidy(self, channel: u32, request: MarketDayRequest) -> bool {
        &&& self.runtimes.dom().finite()
        &&& self.output is Some
        &&& all_strict(self.output->0, self.log, channel, snapshot_depth(request))
        &&& forall|symbol: Seq<char>| #[trigger]
            self.runtimes.contains_key(symbol) ==> self.with_runtime(self.runtimes[symbol]).tidy(
                symbol,
                channel,
                request,
            )
        &&& forall|symbol: Seq<char>|
            !(#[trigger] self.runtimes.contains_key(symbol)) ==> bounded(self.log, symbol, None)
                && past(self.output->0, symbol, None)
    }

    /// What still holds of every symbol at the end.
    spec fn ending(self, channel: u32, request: MarketDayRequest) -> bool {
        &&& self.output is Some
        &&& all_strict(self.output->0, self.log, channel, snapshot_depth(request))
        &&& forall|symbol: Seq<char>| #[trigger]
            self.runtimes.contains_key(symbol) ==> self.with_runtime(self.runtimes[symbol]).ending(
                symbol,
                channel,
                request,
            )
    }

    proof fn lemma_enter_tidy(self, request: MarketDayRequest, channel: u32, symbol: Seq<char>)
        requires
            self.tidy(channel, request),
            request.snapshots is Some,
            request.snapshots->0.interval.spec_nanos() > 0,
            self.enter(request, symbol) is Ok,
        ensures
            self.enter(request, symbol)->Ok_0.tidy(symbol, channel, request),
            self.enter(request, symbol)->Ok_0.output == self.output,
            self.enter(request, symbol)->Ok_0.log == self.log,
    {
        if !self.runtimes.contains_key(symbol) {
            snapshot_times_skip_the_lunch_break(request.trading_day, request.snapshots->0);
            assert(bounded(self.log, symbol, None));
            lemma_beyond(self.log, symbol, None, 0);
            lemma_none_recorded(self.output->0, symbol);
            assert(Seq::<i64>::empty() + schedule_times(request) =~= schedule_times(request));
        }
    }

    proof fn lemma_leave_tidy(
        self,
        state: StepState,
        symbol: Seq<char>,
        step: Step,
        channel: u32,
        request: MarketDayRequest,
    )
        requires
            self.tidy(channel, request),
            state.output == self.output,
            state.log == self.log,
            step.state.tidy(symbol, channel, request),
            state.beside(step.state, symbol),
        ensures
            self.leave(symbol, step).state.tidy(channel, request),
    {
        let next = self.leave(symbol, step).state;
        assert forall|other: Seq<char>| #[trigger]
            next.runtimes.contains_key(other) implies next.with_runtime(next.runtimes[other]).tidy(
            other,
            channel,
            request,
        ) by {
            if other != symbol {
                assert(self.runtimes.contains_key(other));
                let old_state = self.with_runtime(self.runtimes[other]);
                let new_state = next.with_runtime(next.runtimes[other]);
                assert(bounded(next.log, other, old_state.runtime.last_time));
                assert(latest(next.log, other) == latest(self.log, other));
                assert forall|p: int|
                    0 <= p < next.output->0.len() && (#[trigger] next.output->0[p]).kind
                        == SnapshotKind::Scheduled && next.output->0[p].symbol
                        == other implies old_state.runtime.last_time is Some
                    && next.output->0[p].boundary_time_ns <= old_state.runtime.last_time->0 by {
                    assert(p < self.output->0.len());
                    assert(next.output->0[p] == self.output->0[p]);
                }
            } else {
                assert(next.with_runtime(next.runtimes[other]) == step.state);
            }
        }
        assert forall|other: Seq<char>|
            !(#[trigger] next.runtimes.contains_key(other)) implies bounded(next.log, other, None)
            && past(next.output->0, other, None) by {
            assert(other != symbol);
            assert(!self.runtimes.contains_key(other));
            assert forall|p: int|
                0 <= p < next.output->0.len() && (#[trigger] next.output->0[p]).kind
                    == SnapshotKind::Scheduled && next.output->0[p].symbol == other implies false by {
                assert(p < self.output->0.len());
                assert(next.output->0[p] == self.output->0[p]);
            }
        }
    }

    proof fn lemma_sse_rows_tidy(
        self,
        request: MarketDayRequest,
        channel: u32,
        rows: Seq<SseRow>,
    )
        requires
            self.tidy(channel, request),
            request.snapshots is Some,
            request.snapshots->0.interval.spec_nanos() > 0,
            self.sse_rows(request, channel, rows).error is None,
        ensures
            self.sse_rows(request, channel, rows).state.tidy(channel, request),
        decreases rows.len(),
    {
        if rows.len() > 0 {
            let symbol = rows[0].symbol@;
            let first = self.sse_row(request, channel, rows[0]);
            assert(first.error is None);
            self.lemma_enter_tidy(request, channel, symbol);
            let state = self.enter(request, symbol)->Ok_0;
            let step = state.sse_row(request, channel, rows[0]);
            state.lemma_sse_row_tidy(request, channel, rows[0]);
            self.lemma_leave_tidy(state, symbol, step, channel, request);
            first.state.lemma_sse_rows_tidy(request, channel, rows.drop_first());
        }
    }

    proof fn lemma_sz_order_tidy(
        self,
        request: MarketDayRequest,
        channel: u32,
        row: SzOrderRow,
        next_order: Option<u64>,
        executions: Seq<SzExecutionRow>,
    )
        requires
            self.tidy(channel, request),
            request.snapshots is Some,
            request.snapshots->0.interval.spec_nanos() > 0,
            self.sz_order(request, channel, row, next_order, executions).error is None,
        ensures
            self.sz_order(request, channel, row, next_order, executions).state.tidy(
                channel,
                request,
            ),
    {
        let symbol = row.symbol@;
        self.lemma_enter_tidy(request, channel, symbol);
        let state = self.enter(request, symbol)->Ok_0;
        if waits(request.sz_market_order_policy, row, state) {
            let best = best_units(state, book_side(row.side).spec_opposite());
            let (taken, disposition) = pending_result(
                request.sz_market_order_policy,
                channel,
                row,
                best,
                next_order,
                executions,
            )->Ok_0;
            let responses = executions.take(taken as int);
            responses_are_executions(
                PendingOrder::spec_new(row, best),
                next_order,
                channel,
                executions,
            );
            assert forall|i: int| 0 <= i < responses.len() implies (
            #[trigger] responses[i]).quote_time_ns == row.quote_time_ns by {
                responses_keep_to_one_time(
                    PendingOrder::spec_new(row, best),
                    next_order,
                    channel,
                    executions,
                    i,
                );
            }
            let step = state.sz_group(request, channel, row, responses, disposition);
            state.lemma_sz_group_tidy(request, channel, row, responses, disposition);
            self.lemma_leave_tidy(state, symbol, step, channel, request);
        } else {
            let same_side = row.kind == SzOrderKind::SameSideBest;
            let step = state.sz_order(request, channel, row, same_side);
            state.lemma_sz_order_tidy(request, channel, row, same_side);
            self.lemma_leave_tidy(state, symbol, step, channel, request);
        }
    }

    proof fn lemma_sz_rows_tidy(
        self,
        request: MarketDayRequest,
        channel: u32,
        orders: Seq<SzOrderRow>,
        executions: Seq<SzExecutionRow>,
    )
        requires
            self.tidy(channel, request),
            request.snapshots is Some,
            request.snapshots->0.interval.spec_nanos() > 0,
            self.sz_rows(request, channel, orders, executions).error is None,
        ensures
            self.sz_rows(request, channel, orders, executions).state.tidy(
                channel,
                request,
            ),
        decreases orders.len(), executions.len(),
    {
        if orders.len() == 0 && executions.len() == 0 {
        } else if orders.len() > 0 && executions.len() > 0 && orders[0].sequence
            == executions[0].sequence {
        } else if orders.len() > 0 && (executions.len() == 0 || orders[0].sequence
            < executions[0].sequence) {
            let rest = orders.drop_first();
            let next_order = first_sequence(rest);
            let first = self.sz_order(request, channel, orders[0], next_order, executions);
            let taken = self.sz_taken(request, channel, orders[0], next_order, executions);
            assert(first.error is None);
            self.lemma_sz_order_tidy(request, channel, orders[0], next_order, executions);
            first.state.lemma_sz_rows_tidy(request, channel, rest, executions.skip(taken as int));
        } else {
            let symbol = executions[0].symbol@;
            let first = self.sz_execution(request, channel, executions[0]);
            assert(first.error is None);
            self.lemma_enter_tidy(request, channel, symbol);
            let state = self.enter(request, symbol)->Ok_0;
            let step = state.sz_execution(request, channel, executions[0]);
            state.lemma_sz_execution_tidy(request, channel, executions[0]);
            self.lemma_leave_tidy(state, symbol, step, channel, request);
            first.state.lemma_sz_rows_tidy(request, channel, orders, executions.drop_first());
        }
    }

    proof fn lemma_symbol_ends_tidy(
        self,
        request: MarketDayRequest,
        channel: u32,
        symbols: Seq<Seq<char>>,
        close: Option<i64>,
    )
        requires
            self.ending(channel, request),
            forall|i: int|
                0 <= i < symbols.len() ==> self.runtimes.contains_key(#[trigger] symbols[i]),
            self.symbol_ends(request, channel, symbols, close).error is None,
        ensures
            ({
                let end = self.symbol_ends(request, channel, symbols, close).state;
                &&& end.ending(channel, request)
                &&& end.runtimes.dom() == self.runtimes.dom()
                &&& forall|symbol: Seq<char>| #[trigger]
                    self.runtimes.contains_key(symbol) && (symbols.contains(symbol)
                        || self.runtimes[symbol].cursor->0.len() == 0)
                        ==> end.runtimes[symbol].cursor->0.len() == 0
            }),
        decreases symbols.len(),
    {
        if symbols.len() > 0 {
            let symbol = symbols[0];
            assert(self.runtimes.contains_key(symbols[0]));
            let state = self.with_runtime(self.runtimes[symbol]);
            let step = state.channel_end(request, channel, symbol, close);
            let first = self.leave(symbol, step);
            assert(first.error is None);
            state.lemma_channel_end_tidy(request, channel, symbol, close);
            let next = first.state;
            assert forall|other: Seq<char>| #[trigger]
                next.runtimes.contains_key(other) implies next.with_runtime(
                next.runtimes[other],
            ).ending(other, channel, request) by {
                if other != symbol {
                    assert(self.runtimes.contains_key(other));
                    let old_state = self.with_runtime(self.runtimes[other]);
                    assert(old_state.ending(other, channel, request));
                    assert(bounded(next.log, other, old_state.runtime.last_time));
                    assert(latest(next.log, other) == latest(self.log, other));
                } else {
                    assert(next.with_runtime(next.runtimes[other]) == step.state);
                }
            }
            let rest = symbols.drop_first();
            assert forall|i: int| 0 <= i < rest.len() implies next.runtimes.contains_key(
                #[trigger] rest[i],
            ) by {
                assert(rest[i] == symbols[i + 1]);
            }
            next.lemma_symbol_ends_tidy(request, channel, rest, close);
            assert(next.runtimes.dom() =~= self.runtimes.dom());
            let end = self.symbol_ends(request, channel, symbols, close).state;
            assert forall|other: Seq<char>| #[trigger]
                self.runtimes.contains_key(other) && (symbols.contains(other)
                    || self.runtimes[other].cursor->0.len()
                    == 0) implies end.runtimes[other].cursor->0.len() == 0 by {
                assert(next.runtimes.contains_key(other));
                if other != symbol && symbols.contains(other) {
                    let k = choose|k: int| 0 <= k < symbols.len() && symbols[k] == other;
                    assert(rest[k - 1] == other);
                }
            }
        }
    }

    proof fn lemma_end_strict(
        self,
        request: MarketDayRequest,
        channel: u32,
        end_is_close: bool,
    )
        requires
            self.tidy(channel, request),
            self.channel_end(request, channel, end_is_close).error is None,
        ensures
            ({
                let end = self.channel_end(request, channel, end_is_close).state;
                &&& end.output is Some
                &&& all_strict(end.output->0, end.log, channel, snapshot_depth(request))
                &&& forall|symbol: Seq<char>| #[trigger]
                    end.runtimes.contains_key(symbol) ==> recorded_times(end.output->0, symbol)
                        == schedule_times(request)
            }),
    {
        let symbols = listing(self.runtimes.dom());
        let close = if end_is_close {
            Some(day_time(request.trading_day, "15:00:00.000")->Ok_0)
        } else {
            None
        };
        assert forall|i: int| 0 <= i < symbols.len() implies self.runtimes.contains_key(
            #[trigger] symbols[i],
        ) by {
            finite_sets_have_listings(self.runtimes.dom());
            assert(symbols.to_set().contains(symbols[i]));
        }
        self.lemma_symbol_ends_tidy(request, channel, symbols, close);
        let ended = self.symbol_ends(request, channel, symbols, close).state;
        assert forall|symbol: Seq<char>| #[trigger]
            ended.runtimes.contains_key(symbol) implies recorded_times(ended.output->0, symbol)
            == schedule_times(request) by {
            finite_sets_have_listings(self.runtimes.dom());
            assert(self.runtimes.dom().contains(symbol));
            assert(self.runtimes.contains_key(symbol));
            assert(symbols.to_set().contains(symbol));
            assert(ended.with_runtime(ended.runtimes[symbol]).ending(symbol, channel, request));
            assert(recorded_times(ended.output->0, symbol) + ended.runtimes[symbol].cursor->0
                =~= recorded_times(ended.output->0, symbol));
        }
    }
}

/// Scheduled snapshots are strict: each shows the book of its symbol behind exactly the events
/// whose quote times are before its own, as they were shown in the replay of its channel.
/// And they are complete: every symbol that the channel has rows of has one for each scheduled
/// time, in order.
pub proof fn snapshots_are_strict_and_complete(
    rows: ChannelRows,
    request: MarketDayRequest,
    report: ReportModel,
    complete_day: bool,
)
    requires
        request.snapshots is Some,
        request.snapshots->0.interval.spec_nanos() > 0,
        rows.replay(request, Seq::empty(), report, complete_day).error is None,
    ensures
        ({
            let end = rows.replay(request, Seq::empty(), report, complete_day).state;
            &&& end.output is Some
            &&& all_strict(end.output->0, end.log, rows.channel, snapshot_depth(request))
            &&& forall|symbol: Seq<char>| #[trigger]
                end.runtimes.contains_key(symbol) ==> recorded_times(end.output->0, symbol)
                    == schedule_times(request)
        }),
{
    let opened = ChannelState::opened(request, Seq::empty(), report);
    assert(opened.tidy(rows.channel, request));
    match request.market {
        Market::Sse => {
            let read = opened.sse_rows(request, rows.channel, rows.sse@);
            opened.lemma_sse_rows_tidy(request, rows.channel, rows.sse@);
            read.state.lemma_end_strict(request, rows.channel, false);
        },
        Market::Szse => {
            let read = opened.sz_rows(
                request,
                rows.channel,
                rows.sz_orders@,
                rows.sz_executions@,
            );
            opened.lemma_sz_rows_tidy(
                request,
                rows.channel,
                rows.sz_orders@,
                rows.sz_executions@,
            );
            read.state.lemma_end_strict(request, rows.channel, complete_day);
        },
    }
}

} // verus!
