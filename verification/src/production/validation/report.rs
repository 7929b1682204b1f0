//! Outcomes, coverage and retained details of a validation. Replay state is not changed.

use vstd::prelude::*;
use vstd::string::StringExecFns;

use crate::market_data::Market;
use crate::text::{
    nat_text, same_text, text_before, text_less, text_order_is_total, text_order_is_transitive,
    u64_text,
};

use super::super::count_map::{incremented, CountMap};
use super::super::error::ProductionError;
use super::super::replay::ReplayReport;
use super::super::symbol_map::{ascending, listing, string_views, SymbolMap};
use super::super::types::{is_etf_symbol, spec_is_etf, SzMarketOrderPolicy, ValidationAnchor};
use super::candidate::{band_view, AnchorModel, ReferenceModel, ReferenceSnapshot};
use super::close_range::{text_view, BandModel, ClosePriceBandAudit};
use super::counts::{
    count_error, too_many, CountsModel, CoverageModel, CoverageSummary, ReportCounts, RunOutcome,
    ValidationCounts, ValidationOutcome,
};
use super::difference::{difference_views, DifferenceModel, FieldDifference};
use super::observer::{ObserverModel, ValidationObserver};
use super::phases::{SelectionAudit, SelectionModel};
use super::precision::TurnoverPrecisionAudit;
use super::rules::{millis, timestamp_ns_to_ms};
use super::window::{reference_views, ReferencesModel, SymbolValidationState};

verus! {

/// What became of one reference.
#[derive(Debug, PartialEq, Eq)]
pub struct ValidationRecord {
    /// Present only when both reference reception fields were missing and twelve significant
    /// digits were necessary for this successful match.
    pub turnover_precision: Option<TurnoverPrecisionAudit>,
    /// Validation-only projection context; not a waiver or a matching tag.
    pub close_price_band: Option<ClosePriceBandAudit>,
    pub market: String,
    pub symbol: String,
    pub anchor: ValidationAnchor,
    pub outcome: ValidationOutcome,
    pub reference_time_ms: i64,
    pub reference_source_row_no: u64,
    pub matched_candidate_time_ms: Option<i64>,
    pub matched_candidate_raw_sequence: Option<u64>,
    pub matched_candidate_apply_sequence: Option<u64>,
    pub channel_id: Option<u32>,
    pub best_candidate_time_ms: Option<i64>,
    pub best_candidate_raw_sequence: Option<u64>,
    /// Explains a rule-based semantic normalization used for a successful match.
    pub match_tag: Option<String>,
    pub reason: Option<String>,
    pub differences: Vec<FieldDifference>,
}

/// What became of one reference, with texts as sequences of characters.
#[verifier::ext_equal]
pub struct RecordModel {
    pub turnover_precision: Option<TurnoverPrecisionAudit>,
    pub close_price_band: Option<BandModel>,
    pub market: Seq<char>,
    pub symbol: Seq<char>,
    pub anchor: ValidationAnchor,
    pub outcome: ValidationOutcome,
    pub reference_time_ms: i64,
    pub reference_source_row_no: u64,
    pub matched_candidate_time_ms: Option<i64>,
    pub matched_candidate_raw_sequence: Option<u64>,
    pub matched_candidate_apply_sequence: Option<u64>,
    pub channel_id: Option<u32>,
    pub best_candidate_time_ms: Option<i64>,
    pub best_candidate_raw_sequence: Option<u64>,
    pub match_tag: Option<Seq<char>>,
    pub reason: Option<Seq<char>>,
    pub differences: Seq<DifferenceModel>,
}

impl View for ValidationRecord {
    type V = RecordModel;

    open spec fn view(&self) -> RecordModel {
        RecordModel {
            turnover_precision: self.turnover_precision,
            close_price_band: band_view(self.close_price_band),
            market: self.market@,
            symbol: self.symbol@,
            anchor: self.anchor,
            outcome: self.outcome,
            reference_time_ms: self.reference_time_ms,
            reference_source_row_no: self.reference_source_row_no,
            matched_candidate_time_ms: self.matched_candidate_time_ms,
            matched_candidate_raw_sequence: self.matched_candidate_raw_sequence,
            matched_candidate_apply_sequence: self.matched_candidate_apply_sequence,
            channel_id: self.channel_id,
            best_candidate_time_ms: self.best_candidate_time_ms,
            best_candidate_raw_sequence: self.best_candidate_raw_sequence,
            match_tag: text_view(self.match_tag),
            reason: text_view(self.reason),
            differences: difference_views(self.differences@),
        }
    }
}

pub open spec fn record_views(records: Seq<ValidationRecord>) -> Seq<RecordModel> {
    records.map_values(|record: ValidationRecord| record@)
}

/// What became of a reference and why. Ordering is part of the report contract: a successful
/// candidate cannot override a source error or an unclassified after-close event.
pub open spec fn classified(
    after_close_events: Option<u64>,
    load_error: Option<Seq<char>>,
    seen: bool,
    comparison_error: Option<Seq<char>>,
    matched: bool,
) -> (ValidationOutcome, Option<Seq<char>>) {
    if after_close_events is Some {
        (
            ValidationOutcome::DataError,
            Some(
                "unclassified SZ events after 15:00:00.000: "@ + nat_text(
                    after_close_events->0 as nat,
                ) + "; phase review required before E0 acceptance"@,
            ),
        )
    } else if load_error is Some {
        (ValidationOutcome::DataError, load_error)
    } else if !seen {
        (
            ValidationOutcome::MissingSource,
            Some("no selected raw order/trade events were observed"@),
        )
    } else if comparison_error is Some {
        (ValidationOutcome::DataError, comparison_error)
    } else if matched {
        (ValidationOutcome::Matched, None)
    } else {
        (
            ValidationOutcome::Mismatched,
            Some("no reconstructed full-state candidate matched the reference"@),
        )
    }
}

/// A match counts only where nothing is wrong with its source.
pub proof fn matches_have_no_errors(
    after_close_events: Option<u64>,
    load_error: Option<Seq<char>>,
    seen: bool,
    comparison_error: Option<Seq<char>>,
    matched: bool,
)
    ensures
        classified(after_close_events, load_error, seen, comparison_error, matched).0
            == ValidationOutcome::Matched <==> after_close_events is None && load_error is None
            && seen && comparison_error is None && matched,
{
}

fn cloned(text: &Option<String>) -> (r: Option<String>)
    ensures
        text_view(r) == text_view(*text),
{
    match text {
        Some(text) => Some(text.clone()),
        None => None,
    }
}

/// What became of a reference and why.
pub fn classify_reference(
    after_close_events: Option<u64>,
    load_error: Option<String>,
    seen: bool,
    comparison_error: Option<String>,
    matched: bool,
) -> (r: (ValidationOutcome, Option<String>))
    ensures
        ({
            let (outcome, reason) = classified(
                after_close_events,
                text_view(load_error),
                seen,
                text_view(comparison_error),
                matched,
            );
            r.0 == outcome && text_view(r.1) == reason
        }),
{
    if let Some(count) = after_close_events {
        let mut detail = String::from_str("unclassified SZ events after 15:00:00.000: ");
        detail.append(u64_text(count).as_str());
        detail.append("; phase review required before E0 acceptance");
        (ValidationOutcome::DataError, Some(detail))
    } else if load_error.is_some() {
        (ValidationOutcome::DataError, load_error)
    } else if !seen {
        (
            ValidationOutcome::MissingSource,
            Some(String::from_str("no selected raw order/trade events were observed")),
        )
    } else if comparison_error.is_some() {
        (ValidationOutcome::DataError, comparison_error)
    } else if matched {
        (ValidationOutcome::Matched, None)
    } else {
        (
            ValidationOutcome::Mismatched,
            Some(
                String::from_str("no reconstructed full-state candidate matched the reference"),
            ),
        )
    }
}

/// What a report calls a market.
pub open spec fn report_market(market: Market) -> Seq<char> {
    match market {
        Market::Sse => "SH"@,
        Market::Szse => "SZ"@,
    }
}

fn report_market_text(market: Market) -> (r: &'static str)
    ensures
        r@ == report_market(market),
{
    match market {
        Market::Sse => "SH",
        Market::Szse => "SZ",
    }
}

/// The class of an instrument.
pub open spec fn class_name(market: Market, symbol: Seq<char>) -> Seq<char> {
    if spec_is_etf(market, symbol) {
        "etf"@
    } else {
        "stock"@
    }
}

pub open spec fn optional_millis(time_ns: Option<i64>) -> Option<i64> {
    match time_ns {
        Some(time_ns) => Some(millis(time_ns)),
        None => None,
    }
}

fn to_millis(time_ns: Option<i64>) -> (r: Option<i64>)
    ensures
        r == optional_millis(time_ns),
{
    match time_ns {
        Some(time_ns) => Some(timestamp_ns_to_ms(time_ns)),
        None => None,
    }
}

/// One reference of a symbol, as a report sees it.
pub struct CaseModel {
    pub market: Market,
    pub symbol: Seq<char>,
    pub seen: bool,
    pub channel: Option<u32>,
    pub after_close: Map<Seq<char>, u64>,
    pub anchor: ValidationAnchor,
    pub reference: ReferenceModel,
}

/// What the references of a symbol have in common.
pub struct ShellModel {
    pub market: Market,
    pub symbol: Seq<char>,
    pub seen: bool,
    pub channel: Option<u32>,
    pub after_close: Map<Seq<char>, u64>,
}

impl ShellModel {
    pub open spec fn case(self, anchor: ValidationAnchor, reference: ReferenceModel) -> CaseModel {
        CaseModel {
            market: self.market,
            symbol: self.symbol,
            seen: self.seen,
            channel: self.channel,
            after_close: self.after_close,
            anchor,
            reference,
        }
    }
}

pub open spec fn differences_of(state: AnchorModel) -> Seq<DifferenceModel> {
    match state.best_differences {
        Some(differences) => differences,
        None => Seq::empty(),
    }
}

impl CaseModel {
    /// Events after the close stand against a reference of the close.
    pub open spec fn after_close_events(self) -> Option<u64> {
        if self.market == Market::Szse && self.anchor == ValidationAnchor::MarketClose
            && self.after_close.contains_key(self.symbol) {
            Some(self.after_close[self.symbol])
        } else {
            None
        }
    }

    pub open spec fn classification(self) -> (ValidationOutcome, Option<Seq<char>>) {
        classified(
            self.after_close_events(),
            self.reference.load_error,
            self.seen,
            self.reference.state.comparison_error,
            self.reference.state.matched,
        )
    }

    pub open spec fn record(self) -> RecordModel {
        let (outcome, reason) = self.classification();
        let matched = outcome == ValidationOutcome::Matched;
        let state = self.reference.state;
        RecordModel {
            turnover_precision: if matched {
                state.turnover_precision
            } else {
                None
            },
            close_price_band: state.close_price_band,
            market: report_market(self.market),
            symbol: self.symbol,
            anchor: self.anchor,
            outcome,
            reference_time_ms: millis(self.reference.time_ns),
            reference_source_row_no: self.reference.source_row_no,
            matched_candidate_time_ms: if matched {
                optional_millis(state.matched_candidate_time_ns)
            } else {
                None
            },
            matched_candidate_raw_sequence: if matched {
                state.matched_candidate_raw_sequence
            } else {
                None
            },
            matched_candidate_apply_sequence: if matched {
                state.matched_candidate_apply_sequence
            } else {
                None
            },
            channel_id: self.channel,
            best_candidate_time_ms: optional_millis(state.best_candidate_time_ns),
            best_candidate_raw_sequence: state.best_candidate_raw_sequence,
            match_tag: if matched {
                state.match_tag
            } else {
                None
            },
            reason,
            differences: if matched {
                Seq::empty()
            } else {
                differences_of(state)
            },
        }
    }
}

/// A report in the making.
#[verifier::ext_equal]
pub struct DraftModel {
    pub counts: CountsModel,
    pub coverage: CoverageModel,
    pub records: Seq<RecordModel>,
    pub omitted_matched_records: u64,
    pub omitted_failure_records: u64,
}

/// Which details a report keeps.
#[derive(Clone, Copy, Debug, PartialEq, Eq, Structural)]
pub struct Retention {
    pub retain_matched_records: bool,
    pub max_detail_records: Option<usize>,
}

impl Retention {
    /// Whether a record is kept. Retained matches count towards the limit of failures, though
    /// the limit does not hold for them.
    pub open spec fn keeps(self, matched: bool, records: nat) -> bool {
        if matched {
            self.retain_matched_records
        } else {
            self.max_detail_records matches Some(limit) ==> records < limit
        }
    }
}

impl DraftModel {
    pub open spec fn empty() -> Self {
        DraftModel {
            counts: CountsModel::empty(),
            coverage: CoverageModel::empty(),
            records: Seq::empty(),
            omitted_matched_records: 0,
            omitted_failure_records: 0,
        }
    }

    /// The counts with one reference more.
    pub open spec fn counted(self, case: CaseModel) -> Option<CountsModel> {
        let (outcome, reason) = case.classification();
        let state = case.reference.state;
        let counted = self.counts.observed(
            class_name(case.market, case.symbol),
            case.symbol,
            case.anchor,
            outcome,
            reason,
            differences_of(state),
        );
        if counted is Some && outcome == ValidationOutcome::Matched {
            counted->0.tagged(
                state.match_tag,
                state.turnover_precision is Some,
                state.close_price_band is Some
                    && state.close_price_band->0.upper_limit_normalization is Some,
            )
        } else {
            counted
        }
    }

    /// The report with one reference more, where it can be counted.
    pub open spec fn with_case(self, case: CaseModel, retention: Retention) -> Option<Self> {
        let matched = case.classification().0 == ValidationOutcome::Matched;
        match self.counted(case) {
            None => None,
            Some(counts) => if retention.keeps(matched, self.records.len()) {
                Some(DraftModel { counts, records: self.records.push(case.record()), ..self })
            } else if matched {
                if self.omitted_matched_records == u64::MAX {
                    None
                } else {
                    Some(
                        DraftModel {
                            counts,
                            omitted_matched_records: (self.omitted_matched_records + 1) as u64,
                            ..self
                        },
                    )
                }
            } else {
                if self.omitted_failure_records == u64::MAX {
                    None
                } else {
                    Some(
                        DraftModel {
                            counts,
                            omitted_failure_records: (self.omitted_failure_records + 1) as u64,
                            ..self
                        },
                    )
                }
            },
        }
    }

    /// The report with a reference more that may be missing.
    pub open spec fn with_single(
        self,
        shell: ShellModel,
        anchor: ValidationAnchor,
        reference: Option<ReferenceModel>,
        retention: Retention,
    ) -> Option<Self> {
        match reference {
            Some(reference) => self.with_case(shell.case(anchor, reference), retention),
            None => Some(self),
        }
    }

    /// The report with references of continuous trading more.
    pub open spec fn with_continuous(
        self,
        shell: ShellModel,
        references: Seq<ReferenceModel>,
        retention: Retention,
    ) -> Option<Self>
        decreases references.len(),
    {
        if references.len() == 0 {
            Some(self)
        } else {
            let case = shell.case(ValidationAnchor::ContinuousTrading, references[0]);
            match self.with_case(case, retention) {
                Some(next) => next.with_continuous(shell, references.drop_first(), retention),
                None => None,
            }
        }
    }

    /// The report with the references of a symbol more.
    pub open spec fn with_references(
        self,
        shell: ShellModel,
        references: ReferencesModel,
        pre_open_only: bool,
        retention: Retention,
    ) -> Option<Self> {
        let opened = self.with_single(
            shell,
            ValidationAnchor::PreOpen,
            references.pre_open,
            retention,
        );
        if pre_open_only || opened is None {
            opened
        } else {
            match opened->0.with_continuous(shell, references.continuous_trading, retention) {
                Some(traded) => traded.with_single(
                    shell,
                    ValidationAnchor::MarketClose,
                    references.market_close,
                    retention,
                ),
                None => None,
            }
        }
    }

    /// The report with a symbol more.
    pub open spec fn with_symbol(
        self,
        observer: ObserverModel,
        symbol: Seq<char>,
        after_close: Map<Seq<char>, u64>,
        retention: Retention,
    ) -> Option<Self> {
        let state = observer.symbol(symbol);
        let coverage = self.coverage.observed(
            report_market(observer.market),
            class_name(observer.market, symbol),
            audit_of(observer, symbol),
            observer.pre_open_only,
        );
        match coverage {
            None => None,
            Some(coverage) => DraftModel { coverage, ..self }.with_references(
                shell_of(observer, symbol, after_close),
                state.references,
                observer.pre_open_only,
                retention,
            ),
        }
    }

    /// The report with symbols more, in their order.
    pub open spec fn with_symbols(
        self,
        observer: ObserverModel,
        symbols: Seq<Seq<char>>,
        after_close: Map<Seq<char>, u64>,
        retention: Retention,
    ) -> Option<Self>
        decreases symbols.len(),
    {
        if symbols.len() == 0 {
            Some(self)
        } else {
            match self.with_symbol(observer, symbols[0], after_close, retention) {
                Some(next) => next.with_symbols(
                    observer,
                    symbols.drop_first(),
                    after_close,
                    retention,
                ),
                None => None,
            }
        }
    }
}

/// The audit of a symbol, which is empty where nothing was selected from.
pub open spec fn audit_of(observer: ObserverModel, symbol: Seq<char>) -> SelectionModel {
    if observer.selection_audit.contains_key(symbol) {
        observer.selection_audit[symbol]
    } else {
        SelectionModel::empty(symbol)
    }
}

/// What the references of a symbol have in common.
pub open spec fn shell_of(
    observer: ObserverModel,
    symbol: Seq<char>,
    after_close: Map<Seq<char>, u64>,
) -> ShellModel {
    let state = observer.symbol(symbol);
    ShellModel {
        market: observer.market,
        symbol,
        seen: state.seen,
        channel: state.channel,
        after_close,
    }
}

/// A report in the making, as the code holds it.
struct Draft {
    counts: ReportCounts,
    coverage: CoverageSummary,
    records: Vec<ValidationRecord>,
    omitted_matched_records: u64,
    omitted_failure_records: u64,
}

impl View for Draft {
    type V = DraftModel;

    closed spec fn view(&self) -> DraftModel {
        DraftModel {
            counts: self.counts@,
            coverage: self.coverage@,
            records: record_views(self.records@),
            omitted_matched_records: self.omitted_matched_records,
            omitted_failure_records: self.omitted_failure_records,
        }
    }
}

/// What the references of a symbol have in common, as the code holds it.
struct CaseShell<'a> {
    market: Market,
    symbol: &'a str,
    seen: bool,
    channel: Option<u32>,
    after_close: &'a CountMap,
    retention: Retention,
}

impl<'a> CaseShell<'a> {
    spec fn model(self) -> ShellModel {
        ShellModel {
            market: self.market,
            symbol: self.symbol@,
            seen: self.seen,
            channel: self.channel,
            after_close: self.after_close@,
        }
    }
}

fn copied_differences(differences: &Vec<FieldDifference>) -> (r: Vec<FieldDifference>)
    ensures
        difference_views(r@) == difference_views(differences@),
{
    let mut r: Vec<FieldDifference> = Vec::new();
    let mut at: usize = 0;
    while at < differences.len()
        invariant
            at <= differences@.len(),
            r@.len() == at,
            forall|i: int| 0 <= i < at ==> (#[trigger] r@[i])@ == differences@[i]@,
        decreases differences@.len() - at,
    {
        r.push(differences[at].clone());
        at = at + 1;
    }
    assert(difference_views(r@) =~= difference_views(differences@));
    r
}

/// Why and how a reference came out, and its differences.
fn examined(shell: &CaseShell<'_>, anchor: ValidationAnchor, reference: &ReferenceSnapshot) -> (r: (
    ValidationOutcome,
    Option<String>,
    Vec<FieldDifference>,
))
    requires
        shell.after_close.wf(),
    ensures
        ({
            let case = shell.model().case(anchor, reference@);
            let (outcome, reason) = case.classification();
            &&& r.0 == outcome
            &&& text_view(r.1) == reason
            &&& difference_views(r.2@) == differences_of(reference@.state)
        }),
{
    let after_close: Option<u64> = if shell.market == Market::Szse && anchor
        == ValidationAnchor::MarketClose {
        shell.after_close.get(shell.symbol)
    } else {
        None
    };
    let (outcome, reason) = classify_reference(
        after_close,
        cloned(&reference.load_error),
        shell.seen,
        cloned(&reference.state.comparison_error),
        reference.state.matched,
    );
    let differences = match &reference.state.best_differences {
        Some(differences) => copied_differences(differences),
        None => {
            let empty: Vec<FieldDifference> = Vec::new();
            assert(difference_views(empty@) =~= Seq::<DifferenceModel>::empty());
            empty
        },
    };
    (outcome, reason, differences)
}

fn record_of(
    shell: &CaseShell<'_>,
    anchor: ValidationAnchor,
    reference: &ReferenceSnapshot,
    outcome: ValidationOutcome,
    reason: Option<String>,
    differences: Vec<FieldDifference>,
) -> (r: ValidationRecord)
    requires
        ({
            let case = shell.model().case(anchor, reference@);
            &&& outcome == case.classification().0
            &&& text_view(reason) == case.classification().1
            &&& difference_views(differences@) == differences_of(reference@.state)
        }),
    ensures
        r@ == shell.model().case(anchor, reference@).record(),
{
    let matched = outcome == ValidationOutcome::Matched;
    let state = &reference.state;
    let none: Vec<FieldDifference> = Vec::new();
    assert(difference_views(none@) =~= Seq::<DifferenceModel>::empty());
    ValidationRecord {
        turnover_precision: if matched {
            state.turnover_precision
        } else {
            None
        },
        close_price_band: match &state.close_price_band {
            Some(band) => Some(band.clone()),
            None => None,
        },
        market: String::from_str(report_market_text(shell.market)),
        symbol: String::from_str(shell.symbol),
        anchor,
        outcome,
        reference_time_ms: timestamp_ns_to_ms(reference.time_ns),
        reference_source_row_no: reference.source_row_no,
        matched_candidate_time_ms: if matched {
            to_millis(state.matched_candidate_time_ns)
        } else {
            None
        },
        matched_candidate_raw_sequence: if matched {
            state.matched_candidate_raw_sequence
        } else {
            None
        },
        matched_candidate_apply_sequence: if matched {
            state.matched_candidate_apply_sequence
        } else {
            None
        },
        channel_id: shell.channel,
        best_candidate_time_ms: to_millis(state.best_candidate_time_ns),
        best_candidate_raw_sequence: state.best_candidate_raw_sequence,
        match_tag: if matched {
            match state.match_tag {
                Some(tag) => Some(String::from_str(tag)),
                None => None,
            }
        } else {
            None
        },
        reason,
        differences: if matched {
            none
        } else {
            differences
        },
    }
}

impl Draft {
    spec fn wf(self) -> bool {
        self.counts.wf() && self.coverage.wf()
    }

    fn count_case(
        &mut self,
        shell: &CaseShell<'_>,
        anchor: ValidationAnchor,
        reference: &ReferenceSnapshot,
        outcome: ValidationOutcome,
        reason: &Option<String>,
        differences: &Vec<FieldDifference>,
    ) -> (r: Result<(), ProductionError>)
        requires
            old(self).wf(),
            ({
                let case = shell.model().case(anchor, reference@);
                &&& outcome == case.classification().0
                &&& text_view(*reason) == case.classification().1
                &&& difference_views(differences@) == differences_of(reference@.state)
            }),
        ensures
            final(self).wf(),
            match old(self)@.counted(shell.model().case(anchor, reference@)) {
                Some(counts) => r is Ok && final(self)@ == (DraftModel { counts, ..old(self)@ }),
                None => r is Err && r->Err_0@ == count_error(),
            },
    {
        let class = if is_etf_symbol(shell.market, shell.symbol) {
            "etf"
        } else {
            "stock"
        };
        match self.counts.observe(class, shell.symbol, anchor, outcome, reason, differences) {
            Ok(()) => {},
            Err(error) => return Err(error),
        }
        if outcome == ValidationOutcome::Matched {
            let state = &reference.state;
            let normalized = match &state.close_price_band {
                Some(band) => band.upper_limit_normalization.is_some(),
                None => false,
            };
            let tag: Option<&str> = match state.match_tag {
                Some(tag) => Some(tag),
                None => None,
            };
            match self.counts.observe_match_tags(tag, state.turnover_precision.is_some(), normalized)
            {
                Ok(()) => {},
                Err(error) => return Err(error),
            }
        }
        Ok(())
    }

    fn add_case(&mut self, shell: &CaseShell<'_>, anchor: ValidationAnchor, reference: &ReferenceSnapshot)
        -> (r: Result<(), ProductionError>)
        requires
            old(self).wf(),
            shell.after_close.wf(),
        ensures
            final(self).wf(),
            match old(self)@.with_case(shell.model().case(anchor, reference@), shell.retention) {
                Some(next) => r is Ok && final(self)@ == next,
                None => r is Err && r->Err_0@ == count_error(),
            },
    {
        let ghost before = self@;
        let ghost case = shell.model().case(anchor, reference@);
        let (outcome, reason, differences) = examined(shell, anchor, reference);
        match self.count_case(shell, anchor, reference, outcome, &reason, &differences) {
            Ok(()) => {},
            Err(error) => return Err(error),
        }
        let matched = outcome == ValidationOutcome::Matched;
        let keep = if matched {
            shell.retention.retain_matched_records
        } else {
            match shell.retention.max_detail_records {
                Some(limit) => self.records.len() < limit,
                None => true,
            }
        };
        let ghost held = record_views(self.records@);
        assert(held.len() == self.records@.len());
        if keep {
            let record = record_of(shell, anchor, reference, outcome, reason, differences);
            self.records.push(record);
            assert(record_views(self.records@) =~= held.push(case.record()));
        } else if matched {
            if self.omitted_matched_records == u64::MAX {
                return Err(too_many());
            }
            self.omitted_matched_records = self.omitted_matched_records + 1;
        } else {
            if self.omitted_failure_records == u64::MAX {
                return Err(too_many());
            }
            self.omitted_failure_records = self.omitted_failure_records + 1;
        }
        Ok(())
    }

    fn add_continuous(
        &mut self,
        shell: &CaseShell<'_>,
        references: &Vec<ReferenceSnapshot>,
    ) -> (r: Result<(), ProductionError>)
        requires
            old(self).wf(),
            shell.after_close.wf(),
        ensures
            final(self).wf(),
            match old(self)@.with_continuous(
                shell.model(),
                reference_views(references@),
                shell.retention,
            ) {
                Some(next) => r is Ok && final(self)@ == next,
                None => r is Err && r->Err_0@ == count_error(),
            },
    {
        let ghost models = reference_views(references@);
        let ghost start = self@;
        let mut at: usize = 0;
        assert(models.skip(0) =~= models);
        while at < references.len()
            invariant
                self.wf(),
                shell.after_close.wf(),
                    start == old(self)@,
                models == reference_views(references@),
                at <= references@.len(),
                start.with_continuous(shell.model(), models, shell.retention)
                    == self@.with_continuous(
                    shell.model(),
                    models.skip(at as int),
                    shell.retention,
                ),
            decreases references@.len() - at,
        {
            proof {
                assert(models.skip(at as int)[0] == references@[at as int]@);
                assert(models.skip(at as int).drop_first() =~= models.skip(at + 1));
            }
            match self.add_case(shell, ValidationAnchor::ContinuousTrading, &references[at]) {
                Ok(()) => {},
                Err(error) => return Err(error),
            }
            at = at + 1;
        }
        Ok(())
    }

    fn add_references(
        &mut self,
        shell: &CaseShell<'_>,
        state: &SymbolValidationState,
        pre_open_only: bool,
    ) -> (r: Result<(), ProductionError>)
        requires
            old(self).wf(),
            shell.after_close.wf(),
        ensures
            final(self).wf(),
            match old(self)@.with_references(
                shell.model(),
                state@.references,
                pre_open_only,
                shell.retention,
            ) {
                Some(next) => r is Ok && final(self)@ == next,
                None => r is Err && r->Err_0@ == count_error(),
            },
    {
        if let Some(reference) = &state.references.pre_open {
            match self.add_case(shell, ValidationAnchor::PreOpen, reference) {
                Ok(()) => {},
                Err(error) => return Err(error),
            }
        }
        if pre_open_only {
            return Ok(());
        }
        match self.add_continuous(shell, &state.references.continuous_trading) {
            Ok(()) => {},
            Err(error) => return Err(error),
        }
        if let Some(reference) = &state.references.market_close {
            match self.add_case(shell, ValidationAnchor::MarketClose, reference) {
                Ok(()) => {},
                Err(error) => return Err(error),
            }
        }
        Ok(())
    }
}

/// The place of an anchor in a report.
pub open spec fn anchor_rank(anchor: ValidationAnchor) -> int {
    match anchor {
        ValidationAnchor::PreOpen => 0,
        ValidationAnchor::ContinuousTrading => 1,
        ValidationAnchor::MarketClose => 2,
    }
}

fn rank(anchor: ValidationAnchor) -> (r: u8)
    ensures
        r == anchor_rank(anchor),
{
    match anchor {
        ValidationAnchor::PreOpen => 0,
        ValidationAnchor::ContinuousTrading => 1,
        ValidationAnchor::MarketClose => 2,
    }
}

/// Whether a record comes before another: by symbol, then anchor, then time.
pub open spec fn precedes(a: RecordModel, b: RecordModel) -> bool {
    if a.symbol != b.symbol {
        text_less(a.symbol, b.symbol)
    } else if a.anchor != b.anchor {
        anchor_rank(a.anchor) < anchor_rank(b.anchor)
    } else {
        a.reference_time_ms < b.reference_time_ms
    }
}

fn record_before(a: &ValidationRecord, b: &ValidationRecord) -> (r: bool)
    ensures
        r == precedes(a@, b@),
{
    if !same_text(a.symbol.as_str(), b.symbol.as_str()) {
        text_before(a.symbol.as_str(), b.symbol.as_str())
    } else if a.anchor != b.anchor {
        rank(a.anchor) < rank(b.anchor)
    } else {
        a.reference_time_ms < b.reference_time_ms
    }
}

/// Where a record goes among sorted ones: behind all that it does not precede.
pub open spec fn record_place(records: Seq<RecordModel>, record: RecordModel) -> int
    decreases records.len(),
{
    if records.len() == 0 {
        0
    } else if precedes(record, records.last()) {
        record_place(records.drop_last(), record)
    } else {
        records.len() as int
    }
}

/// Records in order; those that neither precede nor follow each other stay as they were.
pub open spec fn sorted_records(records: Seq<RecordModel>) -> Seq<RecordModel>
    decreases records.len(),
{
    if records.len() == 0 {
        records
    } else {
        let sorted = sorted_records(records.drop_last());
        sorted.insert(record_place(sorted, records.last()), records.last())
    }
}

fn sort_records(records: Vec<ValidationRecord>) -> (r: Vec<ValidationRecord>)
    ensures
        record_views(r@) == sorted_records(record_views(records@)),
{
    let ghost models = record_views(records@);
    let ghost whole = records@;
    let mut rest: Vec<ValidationRecord> = Vec::new();
    let mut input = records;
    // Reversed, so that the records can be taken one by one in their order.
    while input.len() > 0
        invariant
            rest@.len() + input@.len() == whole.len(),
            input@ == whole.take(input@.len() as int),
            forall|i: int|
                0 <= i < rest@.len() ==> (#[trigger] rest@[i]) == whole[whole.len() - 1 - i],
        decreases input@.len(),
    {
        let ghost n = input@.len();
        if let Some(record) = input.pop() {
            assert(input@ =~= whole.take(n - 1));
            rest.push(record);
        }
    }
    let mut sorted: Vec<ValidationRecord> = Vec::new();
    assert(record_views(sorted@) =~= Seq::<RecordModel>::empty());
    assert(models.take(0) =~= Seq::<RecordModel>::empty());
    while rest.len() > 0
        invariant
            models == record_views(whole),
            rest@.len() + sorted@.len() == whole.len(),
            forall|i: int|
                0 <= i < rest@.len() ==> (#[trigger] rest@[i]) == whole[whole.len() - 1 - i],
            record_views(sorted@) == sorted_records(models.take(sorted@.len() as int)),
        decreases rest@.len(),
    {
        let ghost n = sorted@.len();
        let ghost before = record_views(sorted@);
        if let Some(record) = rest.pop() {
            assert(record == whole[n as int]);
            let mut at: usize = sorted.len();
            assert(before.take(at as int) =~= before);
            while at > 0 && record_before(&record, &sorted[at - 1])
                invariant
                    at <= sorted@.len(),
                    before == record_views(sorted@),
                    record_place(before, record@) == record_place(
                        before.take(at as int),
                        record@,
                    ),
                decreases at,
            {
                proof {
                    assert(before.take(at as int).last() == sorted@[at - 1]@);
                    assert(before.take(at as int).drop_last() =~= before.take(at - 1));
                }
                at = at - 1;
            }
            proof {
                if at > 0 {
                    assert(before.take(at as int).last() == sorted@[at - 1]@);
                }
                assert(record_place(before, record@) == at);
            }
            sorted.insert(at, record);
            proof {
                let longer = models.take(n as int + 1);
                assert(longer.drop_last() =~= models.take(n as int));
                assert(longer.last() == record@);
                assert(record_views(sorted@) =~= before.insert(at as int, record@));
            }
        }
    }
    assert(models.take(sorted@.len() as int) =~= models);
    sorted
}

/// How many bytes a character takes.
pub open spec fn encoded_len(c: char) -> int {
    if (c as u32) < 0x80 {
        1
    } else if (c as u32) < 0x800 {
        2
    } else if (c as u32) < 0x1_0000 {
        3
    } else {
        4
    }
}

pub open spec fn encoded_size(text: Seq<char>) -> int
    decreases text.len(),
{
    if text.len() == 0 {
        0
    } else {
        encoded_size(text.drop_last()) + encoded_len(text.last())
    }
}

/// How many characters the first three bytes of a text are, if they are whole characters.
pub open spec fn prefix_len(text: Seq<char>) -> Option<int> {
    if text.len() >= 1 && encoded_size(text.take(1)) == 3 {
        Some(1)
    } else if text.len() >= 2 && encoded_size(text.take(2)) == 3 {
        Some(2)
    } else if text.len() >= 3 && encoded_size(text.take(3)) == 3 {
        Some(3)
    } else {
        None
    }
}

/// The first three bytes of a symbol, or all of it.
pub open spec fn symbol_prefix(symbol: Seq<char>) -> Seq<char> {
    match prefix_len(symbol) {
        Some(n) => symbol.take(n),
        None => symbol,
    }
}

fn char_size(c: char) -> (r: u8)
    ensures
        r == encoded_len(c),
{
    let value: u32 = c as u32;
    if value < 0x80 {
        1
    } else if value < 0x800 {
        2
    } else if value < 0x1_0000 {
        3
    } else {
        4
    }
}

fn prefix_of(symbol: &str) -> (r: String)
    ensures
        r@ == symbol_prefix(symbol@),
{
    let count: usize = symbol.unicode_len();
    let mut size: u8 = 0;
    let mut at: usize = 0;
    assert(symbol@.take(0) =~= Seq::<char>::empty());
    while at < count && at < 3
        invariant
            count == symbol@.len(),
            at <= count,
            at <= 3,
            size == encoded_size(symbol@.take(at as int)),
            size <= 4 * at,
            forall|n: int| 1 <= n <= at ==> encoded_size(#[trigger] symbol@.take(n)) != 3,
        decreases count - at,
    {
        let next: u8 = char_size(symbol.get_char(at));
        proof {
            let longer = symbol@.take(at + 1);
            assert(longer.drop_last() =~= symbol@.take(at as int));
            assert(longer.last() == symbol@[at as int]);
        }
        size = size + next;
        at = at + 1;
        if size == 3 {
            proof {
                assert forall|n: int| 1 <= n < at implies encoded_size(
                    #[trigger] symbol@.take(n),
                ) != 3 by {}
                assert(symbol@.subrange(0, at as int) =~= symbol@.take(at as int));
            }
            return String::from_str(symbol.substring_char(0, at));
        }
    }
    String::from_str(symbol)
}

/// Symbols counted by their prefixes.
pub open spec fn prefix_counts(symbols: Seq<Seq<char>>) -> Map<Seq<char>, u64>
    decreases symbols.len(),
{
    if symbols.len() == 0 {
        Map::empty()
    } else {
        incremented(prefix_counts(symbols.drop_last()), symbol_prefix(symbols.last()))
    }
}

proof fn lemma_prefix_counts(symbols: Seq<Seq<char>>, text: Seq<char>)
    ensures
        prefix_counts(symbols).contains_key(text) ==> prefix_counts(symbols)[text] <= symbols.len(),
    decreases symbols.len(),
{
    if symbols.len() > 0 {
        lemma_prefix_counts(symbols.drop_last(), text);
    }
}

fn count_prefixes(symbols: &Vec<String>) -> (r: CountMap)
    ensures
        r.wf(),
        r@ == prefix_counts(string_views(symbols@)),
{
    let ghost names = string_views(symbols@);
    let mut r = CountMap::new();
    let mut at: usize = 0;
    assert(names.take(0) =~= Seq::<Seq<char>>::empty());
    while at < symbols.len()
        invariant
            names == string_views(symbols@),
            at <= symbols@.len(),
            r.wf(),
            r@ == prefix_counts(names.take(at as int)),
        decreases symbols@.len() - at,
    {
        let prefix = prefix_of(symbols[at].as_str());
        proof {
            let longer = names.take(at + 1);
            assert(longer.drop_last() =~= names.take(at as int));
            assert(longer.last() == symbols@[at as int]@);
            lemma_prefix_counts(names.take(at as int), prefix@);
        }
        r.increment(prefix.as_str());
        at = at + 1;
    }
    assert(names.take(at as int) =~= names);
    r
}

/// The report of a validation.
pub struct ValidationReport {
    pub report_schema_version: u8,
    pub run_outcome: RunOutcome,
    pub coverage: CoverageSummary,
    pub replay: ReplayReport,
    /// Milliseconds inspected before each continuous reference timestamp.
    pub continuous_lookback_ms: i64,
    /// Base horizon in milliseconds; the effective per-symbol horizons are in
    /// `continuous_lookahead_ms_by_symbol` (SZ ETFs and ChiNext differ by default).
    pub continuous_lookahead_ms: i64,
    /// Explicit window overrides are diagnostics, never standard-rule acceptance.
    pub diagnostic_window_override: bool,
    pub continuous_lookahead_ms_by_symbol: SymbolMap<i64>,
    pub selection_audit: Vec<SelectionAudit>,
    pub selected_references: u64,
    pub comparable_references: u64,
    pub matched: u64,
    pub mismatched: u64,
    pub data_errors: u64,
    pub missing_source: u64,
    pub mismatch_fields: CountMap,
    pub mismatch_reasons: CountMap,
    pub failure_reasons: CountMap,
    /// Number of distinct symbols with at least one mismatched frame.
    pub mismatched_symbols: u64,
    /// Distinct mismatched symbols grouped by their three-digit prefix.
    pub mismatch_symbol_prefixes: CountMap,
    /// Counts successful rule-based semantic matches, keyed by a stable tag.
    pub match_tags: CountMap,
    /// Counts for every selected frame, keyed by `<stock|etf>.<anchor>`.
    pub breakdown: SymbolMap<ValidationCounts>,
    /// Successful records excluded from `records` in compact-report mode.
    pub omitted_matched_records: u64,
    pub omitted_failure_records: u64,
    pub records: Vec<ValidationRecord>,
}

/// How a run ended, by its counts.
pub open spec fn run_outcome_of(totals: ValidationCounts, after_close_events: u64) -> RunOutcome {
    if totals.mismatched > 0 || totals.data_errors > 0 || totals.missing_source > 0
        || after_close_events > 0 {
        RunOutcome::Failed
    } else if totals.total == 0 {
        RunOutcome::NoEligibleReferences
    } else {
        RunOutcome::Passed
    }
}

pub open spec fn selection_views(audits: Seq<SelectionAudit>) -> Seq<SelectionModel> {
    audits.map_values(|audit: SelectionAudit| audit@)
}

impl ValidationReport {
    pub open spec fn wf(self) -> bool {
        &&& self.coverage.wf()
        &&& self.continuous_lookahead_ms_by_symbol.wf()
        &&& self.mismatch_fields.wf()
        &&& self.mismatch_reasons.wf()
        &&& self.failure_reasons.wf()
        &&& self.mismatch_symbol_prefixes.wf()
        &&& self.match_tags.wf()
        &&& self.breakdown.wf()
    }

    /// Whether the report is that of a draft over everything that was observed.
    pub open spec fn reports(
        self,
        observer: ObserverModel,
        replay: ReplayReport,
        draft: DraftModel,
    ) -> bool {
        let totals = draft.counts.totals;
        &&& self.report_schema_version == 2
        &&& self.run_outcome == run_outcome_of(totals, replay.sz_after_close_events)
        &&& self.coverage@ == draft.coverage
        &&& self.replay == replay
        &&& self.continuous_lookback_ms == millis(observer.continuous_lookback_ns)
        &&& self.continuous_lookahead_ms == millis(observer.continuous_lookahead_ns)
        &&& self.diagnostic_window_override == observer.diagnostic_window_override
        &&& self.continuous_lookahead_ms_by_symbol@ == Map::new(
            |symbol: Seq<char>| observer.symbols.contains_key(symbol),
            |symbol: Seq<char>| millis(observer.rules(symbol).lookahead_ns),
        )
        &&& selection_views(self.selection_audit@) == listing(
            observer.selection_audit.dom() + observer.symbols.dom(),
        ).map_values(|symbol: Seq<char>| audit_of(observer, symbol))
        &&& self.selected_references == totals.total
        &&& self.comparable_references == totals.comparable
        &&& self.matched == totals.matched
        &&& self.mismatched == totals.mismatched
        &&& self.data_errors == totals.data_errors
        &&& self.missing_source == totals.missing_source
        &&& self.mismatch_fields@ == draft.counts.mismatch_fields
        &&& self.mismatch_reasons@ == draft.counts.mismatch_reasons
        &&& self.failure_reasons@ == draft.counts.failure_reasons
        &&& self.mismatched_symbols == draft.counts.mismatched_symbols.len()
        &&& self.mismatch_symbol_prefixes@ == prefix_counts(
            listing(draft.counts.mismatched_symbols),
        )
        &&& self.match_tags@ == draft.counts.match_tags
        &&& self.breakdown@ == draft.counts.breakdown
        &&& self.omitted_matched_records == draft.omitted_matched_records
        &&& self.omitted_failure_records == draft.omitted_failure_records
        &&& record_views(self.records@) == sorted_records(draft.records)
    }

    #[must_use]
    pub fn is_success(&self) -> (r: bool)
        ensures
            r == (self.run_outcome != RunOutcome::Failed),
    {
        self.run_outcome != RunOutcome::Failed
    }

    pub open spec fn standard_acceptance(self) -> bool {
        &&& self.run_outcome == RunOutcome::Passed
        &&& self.comparable_references > 0
        &&& self.replay.sz_pending_resolution_version == 1
        &&& !self.diagnostic_window_override
        &&& self.replay.sz_market_order_policy == SzMarketOrderPolicy::RequireEvidence
    }

    /// A diagnostic override may have no mismatches but is not standard acceptance.
    #[must_use]
    pub fn is_standard_acceptance(&self) -> (r: bool)
        ensures
            r == self.standard_acceptance(),
    {
        self.run_outcome == RunOutcome::Passed && self.comparable_references > 0
            && self.replay.sz_pending_resolution_version == 1 && !self.diagnostic_window_override
            && self.replay.sz_market_order_policy == SzMarketOrderPolicy::RequireEvidence
    }
}

impl ValidationObserver {
    /// Gives every symbol an audit, which is empty where nothing was selected from.
    fn complete_audits(&mut self, symbols: &Vec<String>)
        requires
            old(self).wf(),
            string_views(symbols@).to_set() == old(self)@.symbols.dom(),
        ensures
            final(self).wf(),
            final(self)@.selection_audit.dom() == old(self)@.selection_audit.dom() + old(
                self,
            )@.symbols.dom(),
            forall|symbol: Seq<char>| #[trigger]
                final(self)@.selection_audit.contains_key(symbol)
                    ==> final(self)@.selection_audit[symbol] == audit_of(old(self)@, symbol),
            final(self)@ == (ObserverModel {
                selection_audit: final(self)@.selection_audit,
                ..old(self)@
            }),
    {
        let ghost names = string_views(symbols@);
        let ghost start = *self;
        let mut at: usize = 0;
        while at < symbols.len()
            invariant
                start == *old(self),
                start.wf(),
                names == string_views(symbols@),
                at <= symbols@.len(),
                self.selection_audit.wf(),
                *self == (ValidationObserver { selection_audit: self.selection_audit, ..start }),
                forall|symbol: Seq<char>| #[trigger]
                    self.selection_audit@.contains_key(symbol)
                        ==> self.selection_audit@[symbol].wf() && self.selection_audit@[symbol]@
                        == audit_of(start@, symbol),
                forall|symbol: Seq<char>| #[trigger]
                    self.selection_audit@.contains_key(symbol)
                        <==> start.selection_audit@.contains_key(symbol) || names.take(
                        at as int,
                    ).contains(symbol),
            decreases symbols@.len() - at,
        {
            let symbol = symbols[at].as_str();
            let ghost before = self.selection_audit@;
            if !self.selection_audit.contains_key(symbol) {
                self.selection_audit.insert(
                    symbol,
                    SelectionAudit::empty(String::from_str(symbol)),
                );
            }
            proof {
                let shorter = names.take(at as int);
                let longer = names.take(at + 1);
                assert(longer =~= shorter.push(symbol@));
                assert forall|other: Seq<char>| #[trigger] self.selection_audit@.contains_key(other)
                    <==> start.selection_audit@.contains_key(other) || longer.contains(other) by {
                    assert(before.contains_key(other) <==> start.selection_audit@.contains_key(
                        other,
                    ) || shorter.contains(other));
                    if shorter.contains(other) {
                        let i = choose|i: int| 0 <= i < shorter.len() && shorter[i] == other;
                        assert(longer[i] == other);
                    }
                    if other == symbol@ {
                        assert(longer[at as int] == other);
                    }
                    if longer.contains(other) {
                        let i = choose|i: int| 0 <= i < longer.len() && longer[i] == other;
                        if i < at {
                            assert(shorter[i] == other);
                        }
                    }
                }
            }
            at = at + 1;
        }
        proof {
            assert(names.take(at as int) =~= names);
            assert forall|symbol: Seq<char>| self@.selection_audit.dom().contains(symbol)
                == (start@.selection_audit.dom() + start@.symbols.dom()).contains(symbol) by {
                assert(names.to_set().contains(symbol) == start@.symbols.dom().contains(symbol));
                assert(self.selection_audit@.contains_key(symbol)
                    <==> start.selection_audit@.contains_key(symbol) || names.contains(symbol));
            }
            assert(self@.selection_audit.dom() =~= start@.selection_audit.dom()
                + start@.symbols.dom());
        }
    }

    /// The audits of all symbols, in ascending order.
    fn listed_audits(&self) -> (r: Vec<SelectionAudit>)
        requires
            self.wf(),
        ensures
            selection_views(r@) == listing(self@.selection_audit.dom()).map_values(
                |symbol: Seq<char>| self@.selection_audit[symbol],
            ),
            listing(self@.selection_audit.dom()).to_set() == self@.selection_audit.dom(),
    {
        let symbols = self.selection_audit.sorted_symbols();
        let ghost names = string_views(symbols@);
        let mut r: Vec<SelectionAudit> = Vec::new();
        let mut at: usize = 0;
        proof {
            assert(self@.selection_audit.dom() =~= self.selection_audit@.dom());
        }
        while at < symbols.len()
            invariant
                self.wf(),
                names == string_views(symbols@),
                names.to_set() == self.selection_audit@.dom(),
                at <= symbols@.len(),
                r@.len() == at,
                forall|i: int|
                    0 <= i < at ==> (#[trigger] r@[i])@ == self@.selection_audit[names[i]],
            decreases symbols@.len() - at,
        {
            proof {
                assert(names[at as int] == symbols@[at as int]@);
                assert(names.to_set().contains(names[at as int]));
            }
            if let Some(audit) = self.selection_audit.get(symbols[at].as_str()) {
                r.push(audit.clone());
            }
            at = at + 1;
        }
        assert(selection_views(r@) =~= names.map_values(
            |symbol: Seq<char>| self@.selection_audit[symbol],
        ));
        r
    }

    /// The horizons of all symbols in milliseconds.
    fn horizons(&self, symbols: &Vec<String>) -> (r: SymbolMap<i64>)
        requires
            self.wf(),
            string_views(symbols@).to_set() == self@.symbols.dom(),
        ensures
            r.wf(),
            r@ == Map::new(
                |symbol: Seq<char>| self@.symbols.contains_key(symbol),
                |symbol: Seq<char>| millis(self@.rules(symbol).lookahead_ns),
            ),
    {
        let ghost names = string_views(symbols@);
        let mut r: SymbolMap<i64> = SymbolMap::new();
        let mut at: usize = 0;
        while at < symbols.len()
            invariant
                names == string_views(symbols@),
                at <= symbols@.len(),
                r.wf(),
                forall|symbol: Seq<char>| #[trigger]
                    r@.contains_key(symbol) <==> names.take(at as int).contains(symbol),
                forall|symbol: Seq<char>| #[trigger]
                    r@.contains_key(symbol) ==> r@[symbol] == millis(
                        self@.rules(symbol).lookahead_ns,
                    ),
            decreases symbols@.len() - at,
        {
            let symbol = symbols[at].as_str();
            let ghost before = r@;
            if !r.contains_key(symbol) {
                r.insert(symbol, timestamp_ns_to_ms(self.lookahead_ns(symbol)));
            }
            proof {
                let shorter = names.take(at as int);
                let longer = names.take(at + 1);
                assert(longer =~= shorter.push(symbol@));
                assert forall|other: Seq<char>| #[trigger] r@.contains_key(other)
                    <==> longer.contains(other) by {
                    assert(before.contains_key(other) <==> shorter.contains(other));
                    if shorter.contains(other) {
                        let i = choose|i: int| 0 <= i < shorter.len() && shorter[i] == other;
                        assert(longer[i] == other);
                    }
                    if other == symbol@ {
                        assert(longer[at as int] == other);
                    }
                    if longer.contains(other) {
                        let i = choose|i: int| 0 <= i < longer.len() && longer[i] == other;
                        if i < at {
                            assert(shorter[i] == other);
                        }
                    }
                }
            }
            at = at + 1;
        }
        proof {
            assert(names.take(at as int) =~= names);
            let target = Map::new(
                |symbol: Seq<char>| self@.symbols.contains_key(symbol),
                |symbol: Seq<char>| millis(self@.rules(symbol).lookahead_ns),
            );
            assert forall|symbol: Seq<char>| r@.contains_key(symbol) == target.contains_key(
                symbol,
            ) by {
                assert(names.to_set().contains(symbol) == self@.symbols.dom().contains(symbol));
            }
            assert(r@ =~= target);
        }
        r
    }

    /// Everything that was observed, symbol by symbol.
    fn draft(&self, symbols: &Vec<String>, after_close: &CountMap, retention: Retention) -> (r: Result<
        Draft,
        ProductionError,
    >)
        requires
            self.wf(),
            after_close.wf(),
            string_views(symbols@).to_set() == self@.symbols.dom(),
            forall|symbol: Seq<char>| #[trigger]
                self@.symbols.contains_key(symbol) ==> self@.selection_audit.contains_key(symbol),
        ensures
            match DraftModel::empty().with_symbols(
                self@,
                string_views(symbols@),
                after_close@,
                retention,
            ) {
                Some(draft) => r is Ok && r->Ok_0.wf() && r->Ok_0@ == draft,
                None => r is Err && r->Err_0@ == count_error(),
            },
    {
        let ghost names = string_views(symbols@);
        let mut draft = Draft {
            counts: ReportCounts::new(),
            coverage: CoverageSummary::new(),
            records: Vec::new(),
            omitted_matched_records: 0,
            omitted_failure_records: 0,
        };
        assert(draft@ =~= DraftModel::empty());
        let market = report_market_text(self.market);
        let mut at: usize = 0;
        assert(names.skip(0) =~= names);
        while at < symbols.len()
            invariant
                self.wf(),
                after_close.wf(),
                names == string_views(symbols@),
                names.to_set() == self@.symbols.dom(),
                forall|symbol: Seq<char>| #[trigger]
                    self@.symbols.contains_key(symbol) ==> self@.selection_audit.contains_key(
                        symbol,
                    ),
                market@ == report_market(self.market),
                at <= symbols@.len(),
                draft.wf(),
                DraftModel::empty().with_symbols(self@, names, after_close@, retention)
                    == draft@.with_symbols(
                    self@,
                    names.skip(at as int),
                    after_close@,
                    retention,
                ),
            decreases symbols@.len() - at,
        {
            let symbol = symbols[at].as_str();
            proof {
                assert(names[at as int] == symbol@);
                assert(names.to_set().contains(symbol@));
                assert(self@.symbols.contains_key(symbol@));
                assert(names.skip(at as int)[0] == symbol@);
                assert(names.skip(at as int).drop_first() =~= names.skip(at + 1));
            }
            let class = if is_etf_symbol(self.market, symbol) {
                "etf"
            } else {
                "stock"
            };
            if let (Some(state), Some(audit)) = (
                self.symbols.get(symbol),
                self.selection_audit.get(symbol),
            ) {
                match draft.coverage.observe(market, class, audit, self.pre_open_only) {
                    Ok(()) => {},
                    Err(error) => return Err(error),
                }
                let shell = CaseShell {
                    market: self.market,
                    symbol,
                    seen: state.seen,
                    channel: state.channel,
                    after_close,
                    retention,
                };
                match draft.add_references(&shell, state, self.pre_open_only) {
                    Ok(()) => {},
                    Err(error) => return Err(error),
                }
            }
            at = at + 1;
        }
        Ok(draft)
    }
}

/// The report of everything that was observed.
pub fn build_report(
    observer: ValidationObserver,
    replay: ReplayReport,
    retain_matched_records: bool,
) -> (r: Result<ValidationReport, ProductionError>)
    requires
        observer.wf(),
        replay.sz_after_close_events_by_symbol.wf(),
    ensures
        match DraftModel::empty().with_symbols(
            observer@,
            listing(observer@.symbols.dom()),
            replay@.sz_after_close_events_by_symbol,
            Retention { retain_matched_records, max_detail_records: observer@.max_detail_records },
        ) {
            Some(draft) => r is Ok && r->Ok_0.wf() && r->Ok_0.reports(observer@, replay, draft),
            None => r is Err && r->Err_0@ == count_error(),
        },
{
    let ghost start = observer@;
    let mut observer = observer;
    let symbols = observer.symbols.sorted_symbols();
    let ghost names = string_views(symbols@);
    assert(observer@.symbols.dom() =~= observer.symbols@.dom());
    observer.complete_audits(&symbols);
    let ghost completed = observer@;
    let retention = Retention {
        retain_matched_records,
        max_detail_records: observer.max_detail_records,
    };
    proof {
        lemma_completed(
            DraftModel::empty(),
            start,
            completed,
            names,
            replay@.sz_after_close_events_by_symbol,
            retention,
        );
        assert forall|symbol: Seq<char>| #[trigger] completed.symbols.contains_key(
            symbol,
        ) implies completed.selection_audit.contains_key(symbol) by {
            assert(completed.selection_audit.dom().contains(symbol));
        }
    }
    let draft = match observer.draft(
        &symbols,
        &replay.sz_after_close_events_by_symbol,
        retention,
    ) {
        Ok(draft) => draft,
        Err(error) => return Err(error),
    };
    let horizons = observer.horizons(&symbols);
    let audits = observer.listed_audits();
    proof {
        assert(selection_views(audits@) =~= listing(
            start.selection_audit.dom() + start.symbols.dom(),
        ).map_values(|symbol: Seq<char>| audit_of(start, symbol))) by {
            let keys = listing(completed.selection_audit.dom());
            assert forall|i: int| 0 <= i < keys.len() implies completed.selection_audit[keys[i]]
                == audit_of(start, keys[i]) by {
                assert(keys.to_set().contains(keys[i]));
            }
        }
    }
    proof {
        assert(horizons@ =~= Map::new(
            |symbol: Seq<char>| start.symbols.contains_key(symbol),
            |symbol: Seq<char>| millis(start.rules(symbol).lookahead_ns),
        ));
    }
    let totals = draft.counts.totals;
    let run_outcome = if totals.mismatched > 0 || totals.data_errors > 0
        || totals.missing_source > 0 || replay.sz_after_close_events > 0 {
        RunOutcome::Failed
    } else if totals.total == 0 {
        RunOutcome::NoEligibleReferences
    } else {
        RunOutcome::Passed
    };
    let mismatched = draft.counts.mismatched_symbols.sorted_symbols();
    let mismatched_symbols: u64 = draft.counts.mismatched_symbols.len() as u64;
    Ok(
        ValidationReport {
            report_schema_version: 2,
            run_outcome,
            coverage: draft.coverage,
            replay,
            continuous_lookback_ms: timestamp_ns_to_ms(observer.continuous_lookback_ns),
            continuous_lookahead_ms: timestamp_ns_to_ms(observer.continuous_lookahead_ns),
            diagnostic_window_override: observer.diagnostic_window_override,
            continuous_lookahead_ms_by_symbol: horizons,
            selection_audit: audits,
            selected_references: totals.total,
            comparable_references: totals.comparable,
            matched: totals.matched,
            mismatched: totals.mismatched,
            data_errors: totals.data_errors,
            missing_source: totals.missing_source,
            mismatch_fields: draft.counts.mismatch_fields,
            mismatch_reasons: draft.counts.mismatch_reasons,
            failure_reasons: draft.counts.failure_reasons,
            mismatched_symbols,
            mismatch_symbol_prefixes: count_prefixes(&mismatched),
            match_tags: draft.counts.match_tags,
            breakdown: draft.counts.breakdown,
            omitted_matched_records: draft.omitted_matched_records,
            omitted_failure_records: draft.omitted_failure_records,
            records: sort_records(draft.records),
        },
    )
}

/// An audit that was added changes nothing of a report.
proof fn lemma_completed(
    draft: DraftModel,
    start: ObserverModel,
    completed: ObserverModel,
    symbols: Seq<Seq<char>>,
    after_close: Map<Seq<char>, u64>,
    retention: Retention,
)
    requires
        completed == (ObserverModel { selection_audit: completed.selection_audit, ..start }),
        forall|symbol: Seq<char>| #[trigger]
            completed.selection_audit.contains_key(symbol)
                ==> completed.selection_audit[symbol] == audit_of(start, symbol),
        completed.selection_audit.dom() == start.selection_audit.dom() + start.symbols.dom(),
    ensures
        draft.with_symbols(start, symbols, after_close, retention) == draft.with_symbols(
            completed,
            symbols,
            after_close,
            retention,
        ),
    decreases symbols.len(),
{
    if symbols.len() > 0 {
        let symbol = symbols[0];
        assert(audit_of(completed, symbol) == audit_of(start, symbol)) by {
            if start.selection_audit.contains_key(symbol) {
                assert(completed.selection_audit.dom().contains(symbol));
            }
        }
        assert(shell_of(completed, symbol, after_close) == shell_of(start, symbol, after_close));
        let next = draft.with_symbol(start, symbol, after_close, retention);
        assert(next == draft.with_symbol(completed, symbol, after_close, retention));
        if next is Some {
            lemma_completed(
                next->0,
                start,
                completed,
                symbols.drop_first(),
                after_close,
                retention,
            );
        }
    }
}

impl DraftModel {
    /// Every reference that was counted is a record or omitted.
    pub open spec fn balanced(self) -> bool {
        &&& self.counts.totals.consistent()
        &&& self.counts.totals.total == self.records.len() + self.omitted_matched_records
            + self.omitted_failure_records
    }
}

/// One more reference is counted once, and is a record or omitted.
pub proof fn cases_keep_the_balance(draft: DraftModel, case: CaseModel, retention: Retention)
    requires
        draft.balanced(),
    ensures
        draft.with_case(case, retention) matches Some(next) ==> next.balanced()
            && next.counts.totals.total == draft.counts.totals.total + 1,
{
}

proof fn lemma_continuous_balance(
    draft: DraftModel,
    shell: ShellModel,
    references: Seq<ReferenceModel>,
    retention: Retention,
)
    requires
        draft.balanced(),
    ensures
        draft.with_continuous(shell, references, retention) matches Some(next) ==> next.balanced()
            && next.counts.totals.total == draft.counts.totals.total + references.len(),
    decreases references.len(),
{
    if references.len() > 0 {
        let case = shell.case(ValidationAnchor::ContinuousTrading, references[0]);
        cases_keep_the_balance(draft, case, retention);
        if let Some(next) = draft.with_case(case, retention) {
            lemma_continuous_balance(next, shell, references.drop_first(), retention);
        }
    }
}

/// How many references of a symbol are reported.
pub open spec fn reported_count(references: ReferencesModel, pre_open_only: bool) -> int {
    let opening = if references.pre_open is Some {
        1int
    } else {
        0
    };
    let closing = if references.market_close is Some {
        1int
    } else {
        0
    };
    if pre_open_only {
        opening
    } else {
        opening + references.continuous_trading.len() + closing
    }
}

/// How many references of symbols are reported.
pub open spec fn reported_total(observer: ObserverModel, symbols: Seq<Seq<char>>) -> int
    decreases symbols.len(),
{
    if symbols.len() == 0 {
        0
    } else {
        reported_count(observer.symbol(symbols[0]).references, observer.pre_open_only)
            + reported_total(observer, symbols.drop_first())
    }
}

/// A report counts every reference of its symbols once, and each is a record or omitted.
pub proof fn reports_are_complete(
    draft: DraftModel,
    observer: ObserverModel,
    symbols: Seq<Seq<char>>,
    after_close: Map<Seq<char>, u64>,
    retention: Retention,
)
    requires
        draft.balanced(),
    ensures
        draft.with_symbols(observer, symbols, after_close, retention) matches Some(next)
            ==> next.balanced() && next.counts.totals.total == draft.counts.totals.total
            + reported_total(observer, symbols),
    decreases symbols.len(),
{
    if symbols.len() > 0 {
        let symbol = symbols[0];
        let references = observer.symbol(symbol).references;
        let shell = shell_of(observer, symbol, after_close);
        let coverage = draft.coverage.observed(
            report_market(observer.market),
            class_name(observer.market, symbol),
            audit_of(observer, symbol),
            observer.pre_open_only,
        );
        if coverage is Some {
            let covered = DraftModel { coverage: coverage->0, ..draft };
            if references.pre_open is Some {
                cases_keep_the_balance(
                    covered,
                    shell.case(ValidationAnchor::PreOpen, references.pre_open->0),
                    retention,
                );
            }
            let opened = covered.with_single(
                shell,
                ValidationAnchor::PreOpen,
                references.pre_open,
                retention,
            );
            if opened is Some && !observer.pre_open_only {
                lemma_continuous_balance(
                    opened->0,
                    shell,
                    references.continuous_trading,
                    retention,
                );
                let traded = opened->0.with_continuous(
                    shell,
                    references.continuous_trading,
                    retention,
                );
                if traded is Some && references.market_close is Some {
                    cases_keep_the_balance(
                        traded->0,
                        shell.case(ValidationAnchor::MarketClose, references.market_close->0),
                        retention,
                    );
                }
            }
        }
        let next = draft.with_symbol(observer, symbol, after_close, retention);
        if next is Some {
            reports_are_complete(
                next->0,
                observer,
                symbols.drop_first(),
                after_close,
                retention,
            );
        }
    }
}

impl DraftModel {
    /// Whether two drafts count the same, whatever records they keep.
    pub open spec fn counts_as(self, other: Self) -> bool {
        &&& self.counts == other.counts
        &&& self.coverage == other.coverage
    }
}

/// Whether two drafts that there may be count the same.
pub open spec fn count_alike(a: Option<DraftModel>, b: Option<DraftModel>) -> bool {
    match (a, b) {
        (Some(a), Some(b)) => a.counts_as(b),
        (None, None) => true,
        _ => false,
    }
}

proof fn lemma_cases_count_alike(
    a: DraftModel,
    b: DraftModel,
    case: CaseModel,
    one: Retention,
    two: Retention,
)
    requires
        a.balanced(),
        b.balanced(),
        a.counts_as(b),
    ensures
        count_alike(a.with_case(case, one), b.with_case(case, two)),
{
}

proof fn lemma_continuous_counts_alike(
    a: DraftModel,
    b: DraftModel,
    shell: ShellModel,
    references: Seq<ReferenceModel>,
    one: Retention,
    two: Retention,
)
    requires
        a.balanced(),
        b.balanced(),
        a.counts_as(b),
    ensures
        count_alike(
            a.with_continuous(shell, references, one),
            b.with_continuous(shell, references, two),
        ),
    decreases references.len(),
{
    if references.len() > 0 {
        let case = shell.case(ValidationAnchor::ContinuousTrading, references[0]);
        lemma_cases_count_alike(a, b, case, one, two);
        cases_keep_the_balance(a, case, one);
        cases_keep_the_balance(b, case, two);
        if let (Some(next), Some(twin)) = (a.with_case(case, one), b.with_case(case, two)) {
            lemma_continuous_counts_alike(
                next,
                twin,
                shell,
                references.drop_first(),
                one,
                two,
            );
        }
    }
}

proof fn lemma_references_count_alike(
    a: DraftModel,
    b: DraftModel,
    shell: ShellModel,
    references: ReferencesModel,
    pre_open_only: bool,
    one: Retention,
    two: Retention,
)
    requires
        a.balanced(),
        b.balanced(),
        a.counts_as(b),
    ensures
        count_alike(
            a.with_references(shell, references, pre_open_only, one),
            b.with_references(shell, references, pre_open_only, two),
        ),
{
    let opening = ValidationAnchor::PreOpen;
    if references.pre_open is Some {
        let case = shell.case(opening, references.pre_open->0);
        lemma_cases_count_alike(a, b, case, one, two);
        cases_keep_the_balance(a, case, one);
        cases_keep_the_balance(b, case, two);
    }
    let opened = a.with_single(shell, opening, references.pre_open, one);
    let twin = b.with_single(shell, opening, references.pre_open, two);
    if !pre_open_only && opened is Some {
        let continuous = references.continuous_trading;
        lemma_continuous_counts_alike(opened->0, twin->0, shell, continuous, one, two);
        lemma_continuous_balance(opened->0, shell, continuous, one);
        lemma_continuous_balance(twin->0, shell, continuous, two);
        let traded = opened->0.with_continuous(shell, continuous, one);
        if traded is Some && references.market_close is Some {
            lemma_cases_count_alike(
                traded->0,
                twin->0.with_continuous(shell, continuous, two)->0,
                shell.case(ValidationAnchor::MarketClose, references.market_close->0),
                one,
                two,
            );
        }
    }
}

/// Which details a report keeps changes none of its counts: they always cover every reference.
pub proof fn retention_changes_no_count(
    a: DraftModel,
    b: DraftModel,
    observer: ObserverModel,
    symbols: Seq<Seq<char>>,
    after_close: Map<Seq<char>, u64>,
    one: Retention,
    two: Retention,
)
    requires
        a.balanced(),
        b.balanced(),
        a.counts_as(b),
    ensures
        count_alike(
            a.with_symbols(observer, symbols, after_close, one),
            b.with_symbols(observer, symbols, after_close, two),
        ),
    decreases symbols.len(),
{
    if symbols.len() > 0 {
        let symbol = symbols[0];
        let state = observer.symbol(symbol);
        let shell = shell_of(observer, symbol, after_close);
        let coverage = a.coverage.observed(
            report_market(observer.market),
            class_name(observer.market, symbol),
            audit_of(observer, symbol),
            observer.pre_open_only,
        );
        if coverage is Some {
            let covered = DraftModel { coverage: coverage->0, ..a };
            let twin = DraftModel { coverage: coverage->0, ..b };
            lemma_references_count_alike(
                covered,
                twin,
                shell,
                state.references,
                observer.pre_open_only,
                one,
                two,
            );
            reports_are_complete(a, observer, seq![symbol], after_close, one);
            reports_are_complete(b, observer, seq![symbol], after_close, two);
            assert(seq![symbol].drop_first() =~= Seq::<Seq<char>>::empty());
            let next = a.with_symbol(observer, symbol, after_close, one);
            let other = b.with_symbol(observer, symbol, after_close, two);
            if next is Some {
                assert(next->0.with_symbols(
                    observer,
                    seq![symbol].drop_first(),
                    after_close,
                    one,
                ) == next);
                assert(other->0.with_symbols(
                    observer,
                    seq![symbol].drop_first(),
                    after_close,
                    two,
                ) == other);
                assert(a.with_symbols(observer, seq![symbol], after_close, one) == next);
                assert(b.with_symbols(observer, seq![symbol], after_close, two) == other);
                retention_changes_no_count(
                    next->0,
                    other->0,
                    observer,
                    symbols.drop_first(),
                    after_close,
                    one,
                    two,
                );
            }
        }
    }
}

/// Whether no record precedes one before it.
pub open spec fn in_order(records: Seq<RecordModel>) -> bool {
    forall|i: int, j: int|
        0 <= i < j < records.len() ==> !precedes(#[trigger] records[j], #[trigger] records[i])
}

proof fn lemma_order_is_transitive(a: RecordModel, b: RecordModel, c: RecordModel)
    requires
        !precedes(b, a),
        !precedes(c, b),
    ensures
        !precedes(c, a),
{
    text_order_is_total(a.symbol, b.symbol);
    text_order_is_total(b.symbol, c.symbol);
    text_order_is_total(a.symbol, c.symbol);
    if a.symbol != b.symbol && b.symbol != c.symbol {
        text_order_is_transitive(a.symbol, b.symbol, c.symbol);
    }
}

proof fn lemma_place_in_order(records: Seq<RecordModel>, record: RecordModel)
    requires
        in_order(records),
    ensures
        ({
            let place = record_place(records, record);
            &&& 0 <= place <= records.len()
            &&& forall|i: int| 0 <= i < place ==> !precedes(record, #[trigger] records[i])
            &&& forall|i: int| place <= i < records.len() ==> precedes(record, #[trigger] records[i])
        }),
    decreases records.len(),
{
    if records.len() > 0 {
        let last = records.last();
        if precedes(record, last) {
            let front = records.drop_last();
            assert forall|i: int, j: int| 0 <= i < j < front.len() implies !precedes(
                #[trigger] front[j],
                #[trigger] front[i],
            ) by {
                assert(!precedes(records[j], records[i]));
            }
            lemma_place_in_order(front, record);
            let place = record_place(front, record);
            assert forall|i: int| 0 <= i < place implies !precedes(record, #[trigger] records[i]) by {
                assert(front[i] == records[i]);
            }
            assert forall|i: int| place <= i < records.len() implies precedes(
                record,
                #[trigger] records[i],
            ) by {
                if i < front.len() {
                    assert(front[i] == records[i]);
                }
            }
        } else {
            assert forall|i: int| 0 <= i < records.len() implies !precedes(
                record,
                #[trigger] records[i],
            ) by {
                if i < records.len() - 1 {
                    assert(!precedes(records[records.len() - 1], records[i]));
                    lemma_order_is_transitive(records[i], last, record);
                }
            }
        }
    }
}

/// The records of a report are in order, and are those that were kept.
pub proof fn reports_are_in_order(records: Seq<RecordModel>)
    ensures
        in_order(sorted_records(records)),
        sorted_records(records).to_multiset() == records.to_multiset(),
    decreases records.len(),
{
    broadcast use vstd::seq_lib::group_to_multiset_ensures;

    if records.len() > 0 {
        let front = records.drop_last();
        let record = records.last();
        reports_are_in_order(front);
        let sorted = sorted_records(front);
        lemma_place_in_order(sorted, record);
        let place = record_place(sorted, record);
        let next = sorted.insert(place, record);
        assert forall|i: int, j: int| 0 <= i < j < next.len() implies !precedes(
            #[trigger] next[j],
            #[trigger] next[i],
        ) by {
            let i1 = if i < place {
                i
            } else {
                i - 1
            };
            let j1 = if j < place {
                j
            } else {
                j - 1
            };
            if i == place {
                assert(precedes(record, sorted[j1]));
                lemma_precedes_is_strict(record, sorted[j1]);
            } else if j == place {
                assert(!precedes(record, sorted[i1]));
            } else {
                assert(!precedes(sorted[j1], sorted[i1]));
            }
        }
        assert(records =~= front.push(record));
        assert(next.to_multiset() =~= sorted.to_multiset().insert(record)) by {
            assert(sorted.take(place) + sorted.skip(place) =~= sorted);
            assert(next =~= sorted.take(place).push(record) + sorted.skip(place));
            vstd::seq_lib::lemma_multiset_commutative(sorted.take(place), sorted.skip(place));
            vstd::seq_lib::lemma_multiset_commutative(
                sorted.take(place).push(record),
                sorted.skip(place),
            );
        }
    }
}

proof fn lemma_precedes_is_strict(a: RecordModel, b: RecordModel)
    requires
        precedes(a, b),
    ensures
        !precedes(b, a),
{
    text_order_is_total(a.symbol, b.symbol);
}

} // verus!
