//! Validation of whole days.

use vstd::prelude::*;

use super::super::error::{ErrorModel, ProductionError};
use super::super::input::IngestStats;
use super::super::replay::{
    opening_model, opening_report, replays_keep_their_input, request_refused, run_market_day,
    ChannelRows, DayModel, Observed, ReplayReport, SequenceRegression, SequenceRepair, StateObserver,
};
use super::super::symbol_map::listing;
use super::super::types::{
    MarketDayRequest, SzMarketOrderPolicy, TargetUniverse, ValidationConfig,
};
use super::counts::count_error;
use super::loader::LoadedReferences;
use super::observer::{references_views, refusals_are_final, ObserverModel, ValidationObserver};
use super::report::{build_report, DraftModel, Retention, ValidationReport};
use super::setup::{
    full_day_model, full_day_observer, opening_cutoff, opening_limit, pre_open_model,
    pre_open_observer,
};

verus! {

/// What the rows of a day are known to be before they are replayed.
pub struct DayInput {
    pub ingest: IngestStats,
    pub regressions: Vec<SequenceRegression>,
    pub repairs: Vec<SequenceRepair>,
    pub channels: Vec<ChannelRows>,
}

impl DayInput {
    /// The channels can be replayed, and all rows that were read are accounted for.
    pub open spec fn wf(self) -> bool {
        &&& self.ingest@.accounted()
        &&& forall|i: int| 0 <= i < self.channels@.len() ==> (#[trigger] self.channels@[i]).wf()
    }

    /// All rows come before a time.
    pub open spec fn ends_before(self, cutoff: int) -> bool {
        forall|i: int|
            0 <= i < self.channels@.len() ==> (#[trigger] self.channels@[i]).ends_before(cutoff)
    }

    /// What the replay of the day leaves. Validation records no snapshots.
    pub open spec fn replayed(self, request: MarketDayRequest, complete_day: bool) -> DayModel {
        let unrecorded = MarketDayRequest { snapshots: None, ..request };
        DayModel {
            outputs: Seq::empty(),
            log: Seq::empty(),
            report: opening_model(unrecorded, self.ingest, self.regressions@, self.repairs@),
            error: None,
        }.replay_all(unrecorded, self.channels@, complete_day)
    }
}

/// What an observer knows at the end of a day, as the draft of a report, unless a counter
/// overflows.
pub open spec fn final_draft(
    observer: ObserverModel,
    day: DayModel,
    retain_matched_records: bool,
) -> Option<DraftModel> {
    DraftModel::empty().with_symbols(
        observer,
        listing(observer.symbols.dom()),
        day.report.sz_after_close_events_by_symbol,
        Retention { retain_matched_records, max_detail_records: observer.max_detail_records },
    )
}

/// Whether a result is that of an observer which starts as it is modelled and is shown a day.
/// There is a report unless the observer cannot be configured, the request cannot be served, the
/// observer refuses something that it is shown, the day itself fails, or a counter overflows at
/// its end; the first of these is the error.
pub open spec fn validated(
    start: Result<ObserverModel, ErrorModel>,
    request: MarketDayRequest,
    day: DayModel,
    retain_matched_records: bool,
    r: Result<ValidationReport, ProductionError>,
) -> bool {
    match start {
        Err(error) => r is Err && r->Err_0@ == error,
        Ok(observer) => if !request.spec_valid() {
            request_refused(request, r)
        } else if observer.refusal_all(day.log) is Some {
            r is Err && Some(r->Err_0@) == observer.refusal_all(day.log)
        } else if day.error is Some {
            r is Err && Some(r->Err_0@) == day.error
        } else {
            let known = observer.shown_all(day.log);
            match final_draft(known, day, retain_matched_records) {
                None => r is Err && r->Err_0@ == count_error(),
                Some(draft) => r is Ok && r->Ok_0.wf() && exists|replay: ReplayReport|
                    replay@ == day.report && #[trigger] r->Ok_0.reports(known, replay, draft),
            }
        },
    }
}

/// Whether a request can be served does not depend on its snapshots.
proof fn lemma_snapshots_do_not_matter(request: MarketDayRequest)
    ensures
        ({
            let unrecorded = MarketDayRequest { snapshots: None, ..request };
            &&& unrecorded.spec_valid() == request.spec_valid()
            &&& forall|text: Seq<char>| #[trigger]
                unrecorded.is_complaint(text) ==> request.is_complaint(text)
        }),
{
    let unrecorded = MarketDayRequest { snapshots: None, ..request };
    assert forall|text: Seq<char>| #[trigger] unrecorded.is_complaint(text) implies request.is_complaint(
        text,
    ) by {
        if let TargetUniverse::Symbols(symbols) = request.targets {
            if exists|at: int| #[trigger]
                unrecorded.first_unsupported(symbols@, at) && text == unrecorded.unsupported_text(
                    symbols@[at]@,
                ) {
                let at = choose|at: int| #[trigger]
                    unrecorded.first_unsupported(symbols@, at) && text
                        == unrecorded.unsupported_text(symbols@[at]@);
                assert(request.first_unsupported(symbols@, at));
            }
        }
    }
}

/// Replays a day for an observer and reports what it saw.
fn observe_day(
    request: MarketDayRequest,
    observer: ValidationObserver,
    input: DayInput,
    complete_day: bool,
    retain_matched_records: bool,
) -> (r: Result<ValidationReport, ProductionError>)
    requires
        observer.ready(),
        observer.origin() == observer@,
        observer.log().len() == 0,
        observer.refusal() is None,
        input.wf(),
    ensures
        validated(
            Ok(observer@),
            request,
            input.replayed(request, complete_day),
            retain_matched_records,
            r,
        ),
        r matches Ok(report) ==> {
            &&& report.replay@.accounted()
            &&& report.replay.excluded_after_cutoff_rows == input.ingest.excluded_after_cutoff_rows
            &&& report.replay.sz_market_order_policy == request.sz_market_order_policy
        },
{
    let ghost start = observer@;
    let ghost asked = request;
    let ghost day = input.replayed(request, complete_day);
    let mut observer = observer;
    let request = MarketDayRequest { snapshots: None, ..request };
    let mut report = opening_report(&request, &input.ingest, input.regressions, input.repairs);
    proof {
        lemma_snapshots_do_not_matter(asked);
        replays_keep_their_input(
            DayModel { outputs: Seq::empty(), log: Seq::empty(), report: report@, error: None },
            request,
            input.channels@,
            complete_day,
        );
        assert(observer.log() =~= Seq::empty());
    }
    match run_market_day(&request, &input.channels, &mut observer, &mut report, complete_day) {
        Ok(_) => {},
        Err(error) => {
            proof {
                if observer.refusal() is Some {
                    refusals_are_final(start, observer.log(), day.log);
                }
            }
            return Err(error);
        },
    }
    let ghost replay = report;
    let ghost known = observer@;
    let r = build_report(observer, report, retain_matched_records);
    proof {
        if r is Ok {
            let draft = final_draft(known, day, retain_matched_records)->0;
            assert(r->Ok_0.reports(known, replay, draft));
        }
    }
    r
}

/// Validates a whole day against its references.
pub fn validate_market_day(
    config: ValidationConfig,
    references: LoadedReferences,
    input: DayInput,
) -> (r: Result<ValidationReport, ProductionError>)
    requires
        references.wf(),
        input.wf(),
        input.ingest.excluded_after_cutoff_rows == 0,
    ensures
        validated(
            full_day_model(config, references),
            config.request,
            input.replayed(config.request, true),
            config.retain_matched_records,
            r,
        ),
        r matches Ok(report) ==> {
            &&& report.replay@.accounted()
            &&& report.replay.excluded_after_cutoff_rows == 0
            &&& report.replay.sz_market_order_policy == config.request.sz_market_order_policy
        },
{
    let observer = match full_day_observer(&config, references) {
        Ok(observer) => observer,
        Err(error) => return Err(error),
    };
    observe_day(config.request, observer, input, true, config.retain_matched_records)
}

/// Validates the open of a day alone. All rows come before the end of the last window (see
/// [`opening_cutoff`](super::setup::opening_cutoff)), so no close is taken at their end. Where
/// there is no such end, nothing is replayed.
pub fn validate_pre_open_market_day(
    config: ValidationConfig,
    references: LoadedReferences,
    input: DayInput,
) -> (r: Result<ValidationReport, ProductionError>)
    requires
        references.wf(),
        input.wf(),
        opening_limit(references_views(references.books@), config.request.trading_day) matches Ok(
            cutoff,
        ) ==> input.ends_before(cutoff),
    ensures
        match opening_limit(references_views(references.books@), config.request.trading_day) {
            Err(error) => r is Err && r->Err_0@ == error,
            Ok(_) => validated(
                pre_open_model(config, references),
                config.request,
                input.replayed(config.request, false),
                config.retain_matched_records,
                r,
            ),
        },
        r matches Ok(report) ==> {
            &&& report.replay@.accounted()
            &&& report.replay.sz_market_order_policy == config.request.sz_market_order_policy
        },
{
    match opening_cutoff(&references.books, config.request.trading_day) {
        Ok(_) => {},
        Err(error) => return Err(error),
    }
    let observer = match pre_open_observer(&config, references) {
        Ok(observer) => observer,
        Err(error) => return Err(error),
    };
    observe_day(config.request, observer, input, false, config.retain_matched_records)
}

/// What an observer is shown changes nothing of its windows.
proof fn lemma_windows_stay(observer: ObserverModel, log: Seq<Observed>)
    ensures
        observer.shown_all(log).diagnostic_window_override == observer.diagnostic_window_override,
    decreases log.len(),
{
    if log.len() > 0 {
        lemma_windows_stay(observer, log.drop_last());
    }
}

/// Acceptance is by the standard rules alone: where a report is a standard acceptance, no window
/// was overridden, market orders rested on evidence only, something was compared, and everything
/// that was compared matched.
pub proof fn acceptance_is_by_the_standard_rules(
    config: ValidationConfig,
    references: LoadedReferences,
    input: DayInput,
    pre_open_only: bool,
    r: Result<ValidationReport, ProductionError>,
)
    requires
        validated(
            if pre_open_only {
                pre_open_model(config, references)
            } else {
                full_day_model(config, references)
            },
            config.request,
            input.replayed(config.request, !pre_open_only),
            config.retain_matched_records,
            r,
        ),
        r is Ok,
        r->Ok_0.standard_acceptance(),
    ensures
        config.continuous_lookback is None,
        config.continuous_lookahead is None,
        config.request.sz_market_order_policy == SzMarketOrderPolicy::RequireEvidence,
        r->Ok_0.comparable_references > 0,
        r->Ok_0.mismatched == 0,
        r->Ok_0.data_errors == 0,
        r->Ok_0.missing_source == 0,
        r->Ok_0.replay.sz_after_close_events == 0,
{
    let start = if pre_open_only {
        pre_open_model(config, references)
    } else {
        full_day_model(config, references)
    };
    let day = input.replayed(config.request, !pre_open_only);
    lemma_windows_stay(start->Ok_0, day.log);
    let unrecorded = MarketDayRequest { snapshots: None, ..config.request };
    let opened = DayModel {
        outputs: Seq::empty(),
        log: Seq::empty(),
        report: opening_model(unrecorded, input.ingest, input.regressions@, input.repairs@),
        error: None,
    };
    replays_keep_their_input(opened, unrecorded, input.channels@, !pre_open_only);
}

} // verus!
