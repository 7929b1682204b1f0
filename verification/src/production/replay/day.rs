use vstd::prelude::*;

use crate::market_data::Market;
use crate::order_book::MAX_STORED_ORDERS;

use super::super::error::{ErrorModel, ProductionError};
use super::super::input::IngestStats;
use super::super::rows::{SseRow, SzExecutionRow, SzOrderRow};
use super::super::snapshot::SnapshotModel;
use super::super::types::MarketDayRequest;
use super::channel::{
    process_sse_channel, process_sz_channel, replayed, schedule_ok, ChannelState, ChannelStep,
};
use super::extension::extends;
use super::independence::replays_keep_their_input;
use super::observe::{NullObserver, Observed, StateObserver};
use super::report::{ReplayReport, ReportModel, SequenceRegression, SequenceRepair};
use super::runtime::SnapshotOutput;
use super::sz::LAST_QUOTE_TIME_NS;

verus! {

/// The rows of one channel: those of its market's streams, each in sequence order.
pub struct ChannelRows {
    pub channel: u32,
    pub sse: Vec<SseRow>,
    pub sz_orders: Vec<SzOrderRow>,
    pub sz_executions: Vec<SzExecutionRow>,
}

impl ChannelRows {
    /// Books can hold the orders of the channel, and its times leave room for the time zone.
    pub open spec fn wf(self) -> bool {
        &&& self.sse@.len() < MAX_STORED_ORDERS
        &&& self.sz_orders@.len() < MAX_STORED_ORDERS
        &&& forall|i: int|
            0 <= i < self.sz_orders@.len() ==> (#[trigger] self.sz_orders@[i]).quote_time_ns
                <= LAST_QUOTE_TIME_NS
        &&& forall|i: int|
            0 <= i < self.sz_executions@.len() ==> (
            #[trigger] self.sz_executions@[i]).quote_time_ns <= LAST_QUOTE_TIME_NS
    }

    /// All rows come before a time.
    pub open spec fn ends_before(self, cutoff: int) -> bool {
        &&& forall|i: int|
            0 <= i < self.sse@.len() ==> (#[trigger] self.sse@[i]).quote_time_ns < cutoff
        &&& forall|i: int|
            0 <= i < self.sz_orders@.len() ==> (#[trigger] self.sz_orders@[i]).quote_time_ns
                < cutoff
        &&& forall|i: int|
            0 <= i < self.sz_executions@.len() ==> (
            #[trigger] self.sz_executions@[i]).quote_time_ns < cutoff
    }

    /// What the channel does.
    pub open spec fn replay(
        self,
        request: MarketDayRequest,
        log: Seq<Observed>,
        report: ReportModel,
        complete_day: bool,
    ) -> ChannelStep {
        let opened = ChannelState::opened(request, log, report);
        match request.market {
            Market::Sse => opened.sse_channel(request, self.channel, self.sse@),
            Market::Szse => opened.sz_channel(
                request,
                self.channel,
                self.sz_orders@,
                self.sz_executions@,
                complete_day,
            ),
        }
    }
}

/// What the channels of a day leave: the snapshots of each, what the observer was shown, the
/// counts, and why they went no further.
#[verifier::ext_equal]
pub struct DayModel {
    pub outputs: Seq<Option<Seq<SnapshotModel>>>,
    pub log: Seq<Observed>,
    pub report: ReportModel,
    pub error: Option<ErrorModel>,
}

impl DayModel {
    /// What further channels leave, one after the other up to the first that fails.
    pub open spec fn replay_all(
        self,
        request: MarketDayRequest,
        channels: Seq<ChannelRows>,
        complete_day: bool,
    ) -> DayModel
        decreases channels.len(),
    {
        if channels.len() == 0 || self.error is Some {
            self
        } else {
            let step = channels[0].replay(request, self.log, self.report, complete_day);
            DayModel {
                outputs: if step.error is None {
                    self.outputs.push(step.state.output)
                } else {
                    self.outputs
                },
                log: step.state.log,
                report: step.state.report,
                error: step.error,
            }.replay_all(request, channels.drop_first(), complete_day)
        }
    }
}

/// A day may be replayed in parts: channels replayed after others leave what they all leave at
/// once.
pub proof fn days_may_be_split(
    day: DayModel,
    request: MarketDayRequest,
    first: Seq<ChannelRows>,
    rest: Seq<ChannelRows>,
    complete_day: bool,
)
    ensures
        day.replay_all(request, first + rest, complete_day) == day.replay_all(
            request,
            first,
            complete_day,
        ).replay_all(request, rest, complete_day),
    decreases first.len(),
{
    if first.len() == 0 {
        assert(first + rest =~= rest);
    } else if day.error is None {
        assert((first + rest).drop_first() =~= first.drop_first() + rest);
        let step = first[0].replay(request, day.log, day.report, complete_day);
        let next = DayModel {
            outputs: if step.error is None {
                day.outputs.push(step.state.output)
            } else {
                day.outputs
            },
            log: step.state.log,
            report: step.state.report,
            error: step.error,
        };
        days_may_be_split(next, request, first.drop_first(), rest, complete_day);
    }
}

/// The snapshots of each channel.
pub open spec fn output_views(outputs: Seq<SnapshotOutput>) -> Seq<Option<Seq<SnapshotModel>>> {
    outputs.map_values(|output: SnapshotOutput| output@)
}

/// Whether an outcome is the one that the model of a day describes, or the refusal of an
/// observer that was shown what the day shows first, with the counts of that point.
pub open spec fn day_replayed(
    day: DayModel,
    log: Seq<Observed>,
    refusal: Option<ErrorModel>,
    report: ReportModel,
    r: Result<Vec<SnapshotOutput>, ProductionError>,
    shown: nat,
    counts: ReportModel,
) -> bool {
    match refusal {
        None => {
            &&& log == day.log
            &&& report == day.report
            &&& match day.error {
                Some(error) => r is Err && r->Err_0@ == error,
                None => r is Ok && output_views(r->Ok_0@) == day.outputs,
            }
        },
        Some(error) => {
            &&& r is Err
            &&& r->Err_0@ == error
            &&& extends(day.log, log)
            &&& shown < log.len()
            &&& report == counts
        },
    }
}

/// The counts of a day before any channel is replayed: what its input was.
pub open spec fn opening_model(
    request: MarketDayRequest,
    ingest: IngestStats,
    regressions: Seq<SequenceRegression>,
    repairs: Seq<SequenceRepair>,
) -> ReportModel {
    ReportModel {
        sz_sequence_regressions: regressions,
        sz_sequence_repairs: repairs,
        sz_pending_resolution_version: 1,
        sz_market_order_policy: request.sz_market_order_policy,
        input_rows: ingest.input_rows,
        selected_rows: ingest.selected_rows,
        excluded_rows: ingest.excluded_rows,
        excluded_after_cutoff_rows: ingest.excluded_after_cutoff_rows,
        excluded_non_stock_rows: ingest.excluded_non_stock_rows,
        excluded_unselected_stock_rows: ingest.excluded_unselected_stock_rows,
        channels: ingest.channels,
        ..ReportModel::empty()
    }
}

/// The report of a day before any channel is replayed.
pub fn opening_report(
    request: &MarketDayRequest,
    ingest: &IngestStats,
    regressions: Vec<SequenceRegression>,
    repairs: Vec<SequenceRepair>,
) -> (r: ReplayReport)
    ensures
        r.wf(),
        r@ == opening_model(*request, *ingest, regressions@, repairs@),
{
    let mut report = ReplayReport::default();
    report.sz_sequence_regressions = regressions;
    report.sz_sequence_repairs = repairs;
    report.sz_pending_resolution_version = 1;
    report.sz_market_order_policy = request.sz_market_order_policy;
    report.input_rows = ingest.input_rows;
    report.selected_rows = ingest.selected_rows;
    report.excluded_rows = ingest.excluded_rows;
    report.excluded_after_cutoff_rows = ingest.excluded_after_cutoff_rows;
    report.excluded_non_stock_rows = ingest.excluded_non_stock_rows;
    report.excluded_unselected_stock_rows = ingest.excluded_unselected_stock_rows;
    report.channels = ingest.channels;
    report
}

/// Replays one channel of the request's market and gives its snapshots.
pub fn process_channel<O: StateObserver>(
    request: &MarketDayRequest,
    rows: &ChannelRows,
    observer: &mut O,
    report: &mut ReplayReport,
    complete_day: bool,
) -> (r: Result<SnapshotOutput, ProductionError>)
    requires
        schedule_ok(*request),
        rows.wf(),
        old(report).wf(),
        old(observer).ready(),
        old(observer).refusal() is None,
    ensures
        final(report).wf(),
        final(observer).ready(),
        final(observer).origin() == old(observer).origin(),
        replayed(
            rows.replay(*request, old(observer).log(), old(report)@, complete_day),
            final(observer).log(),
            final(observer).refusal(),
            final(report)@,
            r,
            old(observer).log().len(),
            rows.replay_counts(
                *request,
                old(observer).log(),
                old(report)@,
                complete_day,
                final(observer).log().len(),
            ),
        ),
{
    match request.market {
        Market::Sse => process_sse_channel(request, rows.channel, &rows.sse, observer, report),
        Market::Szse => process_sz_channel(
            request,
            rows.channel,
            &rows.sz_orders,
            &rows.sz_executions,
            observer,
            report,
            complete_day,
        ),
    }
}

/// Whether an outcome is the refusal of a request that cannot be served.
pub open spec fn request_refused<T>(request: MarketDayRequest, r: Result<T, ProductionError>) -> bool {
    r is Err && (r->Err_0@ matches ErrorModel::InvalidRequest(text) && request.is_complaint(text))
}

impl DayModel {
    /// Where an observer stops the first channel of several, it stops them all.
    proof fn lemma_stopped(
        self,
        request: MarketDayRequest,
        channels: Seq<ChannelRows>,
        complete_day: bool,
        log: Seq<Observed>,
    )
        requires
            channels.len() > 0,
            self.error is None,
            extends(
                channels[0].replay(request, self.log, self.report, complete_day).state.log,
                log,
            ),
        ensures
            extends(self.replay_all(request, channels, complete_day).log, log),
            self.replay_all_counts(request, channels, complete_day, log.len())
                == channels[0].replay_counts(
                request,
                self.log,
                self.report,
                complete_day,
                log.len(),
            ),
    {
        let step = channels[0].replay(request, self.log, self.report, complete_day);
        let next = DayModel {
            outputs: if step.error is None {
                self.outputs.push(step.state.output)
            } else {
                self.outputs
            },
            log: step.state.log,
            report: step.state.report,
            error: step.error,
        };
        next.lemma_replay_all(request, channels.drop_first(), complete_day);
    }
}

/// Replays the channels of a day one after the other, and gives the snapshots of each. A request
/// that cannot be served is refused before anything is replayed.
pub fn run_market_day<O: StateObserver>(
    request: &MarketDayRequest,
    channels: &Vec<ChannelRows>,
    observer: &mut O,
    report: &mut ReplayReport,
    complete_day: bool,
) -> (r: Result<Vec<SnapshotOutput>, ProductionError>)
    requires
        schedule_ok(*request),
        forall|i: int| 0 <= i < channels@.len() ==> (#[trigger] channels@[i]).wf(),
        old(report).wf(),
        old(observer).ready(),
        old(observer).refusal() is None,
    ensures
        final(report).wf(),
        final(observer).ready(),
        final(observer).origin() == old(observer).origin(),
        !request.spec_valid() ==> {
            &&& request_refused(*request, r)
            &&& *final(observer) == *old(observer)
            &&& *final(report) == *old(report)
        },
        request.spec_valid() ==> day_replayed(
            DayModel {
                outputs: Seq::empty(),
                log: old(observer).log(),
                report: old(report)@,
                error: None,
            }.replay_all(*request, channels@, complete_day),
            final(observer).log(),
            final(observer).refusal(),
            final(report)@,
            r,
            old(observer).log().len(),
            DayModel {
                outputs: Seq::empty(),
                log: old(observer).log(),
                report: old(report)@,
                error: None,
            }.replay_all_counts(*request, channels@, complete_day, final(observer).log().len()),
        ),
{
    match request.validate() {
        Ok(()) => {},
        Err(complaint) => return Err(ProductionError::InvalidRequest(complaint)),
    }
    let mut outputs: Vec<SnapshotOutput> = Vec::new();
    let ghost start = DayModel {
        outputs: Seq::empty(),
        log: old(observer).log(),
        report: old(report)@,
        error: None,
    };
    proof {
        assert(output_views(outputs@) =~= start.outputs);
        assert(channels@.skip(0) =~= channels@);
    }
    let mut at: usize = 0;
    while at < channels.len()
        invariant
            request.spec_valid(),
            schedule_ok(*request),
            forall|i: int| 0 <= i < channels@.len() ==> (#[trigger] channels@[i]).wf(),
            report.wf(),
            observer.ready(),
            observer.refusal() is None,
            observer.origin() == old(observer).origin(),
            at <= channels@.len(),
            start == (DayModel {
                outputs: Seq::empty(),
                log: old(observer).log(),
                report: old(report)@,
                error: None,
            }),
            start.replay_all(*request, channels@, complete_day) == (DayModel {
                outputs: output_views(outputs@),
                log: observer.log(),
                report: report@,
                error: None,
            }).replay_all(*request, channels@.skip(at as int), complete_day),
            start.log.len() <= observer.log().len(),
            forall|length: nat|
                #![trigger start.replay_all_counts(*request, channels@, complete_day, length)]
                length > observer.log().len() ==> start.replay_all_counts(
                    *request,
                    channels@,
                    complete_day,
                    length,
                ) == (DayModel {
                    outputs: output_views(outputs@),
                    log: observer.log(),
                    report: report@,
                    error: None,
                }).replay_all_counts(*request, channels@.skip(at as int), complete_day, length),
        decreases channels@.len() - at,
    {
        let ghost before = outputs@;
        let ghost shown = observer.log();
        let ghost counted = report@;
        let ghost now = DayModel {
            outputs: output_views(outputs@),
            log: shown,
            report: counted,
            error: None,
        };
        proof {
            assert(channels@.skip(at as int)[0] == channels@[at as int]);
            assert(channels@.skip(at as int).drop_first() =~= channels@.skip(at + 1));
            channels@[at as int].lemma_replay(*request, shown, counted, complete_day);
        }
        match process_channel(request, &channels[at], observer, report, complete_day) {
            Ok(output) => {
                outputs.push(output);
                proof {
                    assert(output_views(outputs@) =~= output_views(before).push(output@));
                }
            },
            Err(error) => {
                proof {
                    if observer.refusal() is Some {
                        now.lemma_stopped(
                            *request,
                            channels@.skip(at as int),
                            complete_day,
                            observer.log(),
                        );
                    } else {
                        reveal_with_fuel(DayModel::replay_all, 2);
                    }
                }
                return Err(error);
            },
        }
        at = at + 1;
    }
    Ok(outputs)
}

/// Replays a complete day of checked rows, and gives its report and the snapshots of each
/// channel. All rows that were read are accounted for, and none came after a cutoff.
pub fn replay_market_day(
    request: &MarketDayRequest,
    ingest: &IngestStats,
    regressions: Vec<SequenceRegression>,
    repairs: Vec<SequenceRepair>,
    channels: &Vec<ChannelRows>,
) -> (r: Result<(ReplayReport, Vec<SnapshotOutput>), ProductionError>)
    requires
        schedule_ok(*request),
        ingest@.accounted(),
        ingest.excluded_after_cutoff_rows == 0,
        forall|i: int| 0 <= i < channels@.len() ==> (#[trigger] channels@[i]).wf(),
    ensures
        !request.spec_valid() ==> request_refused(*request, r),
        request.spec_valid() ==> ({
            let day = DayModel {
                outputs: Seq::empty(),
                log: Seq::empty(),
                report: opening_model(*request, *ingest, regressions@, repairs@),
                error: None,
            }.replay_all(*request, channels@, true);
            match day.error {
                Some(error) => r is Err && r->Err_0@ == error,
                None => r matches Ok(done) && done.0.wf() && done.0@ == day.report && output_views(
                    done.1@,
                ) == day.outputs,
            }
        }),
        r matches Ok(done) ==> {
            &&& done.0@.accounted()
            &&& done.0.excluded_after_cutoff_rows == 0
            &&& done.0.sz_market_order_policy == request.sz_market_order_policy
        },
{
    let mut observer = NullObserver::new();
    let mut report = opening_report(request, ingest, regressions, repairs);
    proof {
        let opened = DayModel {
            outputs: Seq::empty(),
            log: Seq::empty(),
            report: report@,
            error: None,
        };
        replays_keep_their_input(opened, *request, channels@, true);
    }
    match run_market_day(request, channels, &mut observer, &mut report, true) {
        Ok(outputs) => Ok((report, outputs)),
        Err(error) => Err(error),
    }
}

} // verus!
