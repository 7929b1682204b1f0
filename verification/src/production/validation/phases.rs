//! Reference eligibility and bounded audit, independent of book comparison results.

use vstd::prelude::*;
use vstd::string::StringExecFns;

use crate::market_data::{Market, TradingDay};
use crate::sums::seq_sum;
use crate::text::{i64_text, int_text, nat_text, same_text, u64_text};

use super::super::count_map::{incremented, CountMap};
use super::super::error::{ErrorModel, ProductionError};
use super::super::types::{is_etf_symbol, spec_is_etf, ValidationAnchor};
use super::close_range::text_view;
use super::rules::{anchor_name, anchor_text};

verus! {

/// The first day on which Shanghai ETFs have a closing auction.
pub const SH_ETF_CLOSING_AUCTION_START: u32 = 20_260_706;

/// Why a reference record is not compared.
#[derive(Clone, Copy, Debug, PartialEq, Eq, PartialOrd, Ord, Structural)]
pub enum SkipReason {
    StatusNotApplicable,
    MissingNormalPredecessor,
    OutsideSelectionWindow,
    UnexpectedPhaseTransition,
    AdditionalStaticFrame,
}

/// The first record that was skipped for a reason.
#[derive(Debug, PartialEq, Eq)]
pub struct SelectionSample {
    pub time_ms: i64,
    pub source_row_no: u64,
    pub previous_status: Option<String>,
    pub status: String,
}

impl Clone for SelectionSample {
    fn clone(&self) -> (r: Self)
        ensures
            r@ == self@,
    {
        SelectionSample {
            time_ms: self.time_ms,
            source_row_no: self.source_row_no,
            previous_status: match &self.previous_status {
                Some(text) => Some(text.clone()),
                None => None,
            },
            status: self.status.clone(),
        }
    }
}

/// The first record that was skipped for a reason, with texts as sequences of characters.
pub struct SampleModel {
    pub time_ms: i64,
    pub source_row_no: u64,
    pub previous_status: Option<Seq<char>>,
    pub status: Seq<char>,
}

impl View for SelectionSample {
    type V = SampleModel;

    open spec fn view(&self) -> SampleModel {
        SampleModel {
            time_ms: self.time_ms,
            source_row_no: self.source_row_no,
            previous_status: text_view(self.previous_status),
            status: self.status@,
        }
    }
}

/// What the reference records of a symbol amount to.
#[derive(Clone, Copy, Debug, PartialEq, Eq, Structural)]
pub enum ReferenceCoverage {
    NoReferenceRecords,
    NoEligibleReferences,
    Selected,
}

/// How many records were skipped for each reason.
#[derive(Clone, Copy, Debug, PartialEq, Eq, Structural)]
pub struct SkipCounts {
    pub status_not_applicable: u64,
    pub missing_normal_predecessor: u64,
    pub outside_selection_window: u64,
    pub unexpected_phase_transition: u64,
    pub additional_static_frame: u64,
}

impl SkipCounts {
    pub open spec fn empty() -> Self {
        SkipCounts {
            status_not_applicable: 0,
            missing_normal_predecessor: 0,
            outside_selection_window: 0,
            unexpected_phase_transition: 0,
            additional_static_frame: 0,
        }
    }

    pub open spec fn of(self, reason: SkipReason) -> u64 {
        match reason {
            SkipReason::StatusNotApplicable => self.status_not_applicable,
            SkipReason::MissingNormalPredecessor => self.missing_normal_predecessor,
            SkipReason::OutsideSelectionWindow => self.outside_selection_window,
            SkipReason::UnexpectedPhaseTransition => self.unexpected_phase_transition,
            SkipReason::AdditionalStaticFrame => self.additional_static_frame,
        }
    }

    pub open spec fn spec_total(self) -> int {
        self.status_not_applicable + self.missing_normal_predecessor
            + self.outside_selection_window + self.unexpected_phase_transition
            + self.additional_static_frame
    }

    pub open spec fn counted(self, reason: SkipReason) -> Self {
        match reason {
            SkipReason::StatusNotApplicable => SkipCounts {
                status_not_applicable: (self.status_not_applicable + 1) as u64,
                ..self
            },
            SkipReason::MissingNormalPredecessor => SkipCounts {
                missing_normal_predecessor: (self.missing_normal_predecessor + 1) as u64,
                ..self
            },
            SkipReason::OutsideSelectionWindow => SkipCounts {
                outside_selection_window: (self.outside_selection_window + 1) as u64,
                ..self
            },
            SkipReason::UnexpectedPhaseTransition => SkipCounts {
                unexpected_phase_transition: (self.unexpected_phase_transition + 1) as u64,
                ..self
            },
            SkipReason::AdditionalStaticFrame => SkipCounts {
                additional_static_frame: (self.additional_static_frame + 1) as u64,
                ..self
            },
        }
    }

    #[must_use]
    pub fn new() -> (r: Self)
        ensures
            r == Self::empty(),
    {
        SkipCounts {
            status_not_applicable: 0,
            missing_normal_predecessor: 0,
            outside_selection_window: 0,
            unexpected_phase_transition: 0,
            additional_static_frame: 0,
        }
    }

    #[must_use]
    pub fn get(&self, reason: SkipReason) -> (r: u64)
        ensures
            r == self.of(reason),
    {
        match reason {
            SkipReason::StatusNotApplicable => self.status_not_applicable,
            SkipReason::MissingNormalPredecessor => self.missing_normal_predecessor,
            SkipReason::OutsideSelectionWindow => self.outside_selection_window,
            SkipReason::UnexpectedPhaseTransition => self.unexpected_phase_transition,
            SkipReason::AdditionalStaticFrame => self.additional_static_frame,
        }
    }

    fn count(&mut self, reason: SkipReason)
        requires
            old(self).spec_total() < u64::MAX,
        ensures
            *final(self) == old(self).counted(reason),
    {
        match reason {
            SkipReason::StatusNotApplicable => {
                self.status_not_applicable = self.status_not_applicable + 1;
            },
            SkipReason::MissingNormalPredecessor => {
                self.missing_normal_predecessor = self.missing_normal_predecessor + 1;
            },
            SkipReason::OutsideSelectionWindow => {
                self.outside_selection_window = self.outside_selection_window + 1;
            },
            SkipReason::UnexpectedPhaseTransition => {
                self.unexpected_phase_transition = self.unexpected_phase_transition + 1;
            },
            SkipReason::AdditionalStaticFrame => {
                self.additional_static_frame = self.additional_static_frame + 1;
            },
        }
    }
}

/// The first records that were skipped for the reasons that point at the source.
#[derive(Debug, PartialEq, Eq)]
pub struct FirstSamples {
    pub missing_normal_predecessor: Option<SelectionSample>,
    pub outside_selection_window: Option<SelectionSample>,
    pub unexpected_phase_transition: Option<SelectionSample>,
}

#[verifier::ext_equal]
pub struct FirstSamplesModel {
    pub missing_normal_predecessor: Option<SampleModel>,
    pub outside_selection_window: Option<SampleModel>,
    pub unexpected_phase_transition: Option<SampleModel>,
}

pub open spec fn sample_view(sample: Option<SelectionSample>) -> Option<SampleModel> {
    match sample {
        Some(sample) => Some(sample@),
        None => None,
    }
}

impl View for FirstSamples {
    type V = FirstSamplesModel;

    open spec fn view(&self) -> FirstSamplesModel {
        FirstSamplesModel {
            missing_normal_predecessor: sample_view(self.missing_normal_predecessor),
            outside_selection_window: sample_view(self.outside_selection_window),
            unexpected_phase_transition: sample_view(self.unexpected_phase_transition),
        }
    }
}

fn cloned_sample(sample: &Option<SelectionSample>) -> (r: Option<SelectionSample>)
    ensures
        sample_view(r) == sample_view(*sample),
{
    match sample {
        Some(sample) => Some(sample.clone()),
        None => None,
    }
}

impl Clone for FirstSamples {
    fn clone(&self) -> (r: Self)
        ensures
            r@ == self@,
    {
        FirstSamples {
            missing_normal_predecessor: cloned_sample(&self.missing_normal_predecessor),
            outside_selection_window: cloned_sample(&self.outside_selection_window),
            unexpected_phase_transition: cloned_sample(&self.unexpected_phase_transition),
        }
    }
}

impl FirstSamplesModel {
    /// The samples after one more skipped record: only the first for a reason stays.
    pub open spec fn noted(self, reason: SkipReason, sample: SampleModel) -> Self {
        match reason {
            SkipReason::MissingNormalPredecessor => if self.missing_normal_predecessor is Some {
                self
            } else {
                FirstSamplesModel { missing_normal_predecessor: Some(sample), ..self }
            },
            SkipReason::OutsideSelectionWindow => if self.outside_selection_window is Some {
                self
            } else {
                FirstSamplesModel { outside_selection_window: Some(sample), ..self }
            },
            SkipReason::UnexpectedPhaseTransition => if self.unexpected_phase_transition is Some {
                self
            } else {
                FirstSamplesModel { unexpected_phase_transition: Some(sample), ..self }
            },
            _ => self,
        }
    }
}

impl FirstSamples {
    #[must_use]
    pub fn get(&self, reason: SkipReason) -> (r: &Option<SelectionSample>)
        requires
            reason is MissingNormalPredecessor || reason is OutsideSelectionWindow
                || reason is UnexpectedPhaseTransition,
        ensures
            *r == match reason {
                SkipReason::MissingNormalPredecessor => self.missing_normal_predecessor,
                SkipReason::OutsideSelectionWindow => self.outside_selection_window,
                _ => self.unexpected_phase_transition,
            },
    {
        match reason {
            SkipReason::MissingNormalPredecessor => &self.missing_normal_predecessor,
            SkipReason::OutsideSelectionWindow => &self.outside_selection_window,
            _ => &self.unexpected_phase_transition,
        }
    }

    /// How many reasons have a first record.
    #[must_use]
    pub fn len(&self) -> (r: usize)
        ensures
            r <= 3,
            r == (if self.missing_normal_predecessor is Some {
                1int
            } else {
                0
            }) + (if self.outside_selection_window is Some {
                1int
            } else {
                0
            }) + (if self.unexpected_phase_transition is Some {
                1int
            } else {
                0
            }),
    {
        let mut count: usize = 0;
        if self.missing_normal_predecessor.is_some() {
            count = count + 1;
        }
        if self.outside_selection_window.is_some() {
            count = count + 1;
        }
        if self.unexpected_phase_transition.is_some() {
            count = count + 1;
        }
        count
    }

    fn note(&mut self, reason: SkipReason, sample: SelectionSample)
        ensures
            final(self)@ == old(self)@.noted(reason, sample@),
    {
        match reason {
            SkipReason::MissingNormalPredecessor => {
                if self.missing_normal_predecessor.is_none() {
                    self.missing_normal_predecessor = Some(sample);
                }
            },
            SkipReason::OutsideSelectionWindow => {
                if self.outside_selection_window.is_none() {
                    self.outside_selection_window = Some(sample);
                }
            },
            SkipReason::UnexpectedPhaseTransition => {
                if self.unexpected_phase_transition.is_none() {
                    self.unexpected_phase_transition = Some(sample);
                }
            },
            _ => {},
        }
    }
}

/// What became of the reference records of a symbol.
#[derive(Debug, PartialEq, Eq)]
pub struct SelectionAudit {
    pub symbol: String,
    pub reference_records: u64,
    pub status_counts: CountMap,
    pub selected_counts: CountMap,
    pub skipped_counts: SkipCounts,
    pub first_samples: FirstSamples,
    pub coverage: ReferenceCoverage,
}

/// What became of the reference records of a symbol, with its collections as mathematical
/// ones.
#[verifier::ext_equal]
pub struct SelectionModel {
    pub symbol: Seq<char>,
    pub reference_records: u64,
    pub status_counts: Map<Seq<char>, u64>,
    pub selected_counts: Map<Seq<char>, u64>,
    pub skipped_counts: SkipCounts,
    pub first_samples: FirstSamplesModel,
    pub coverage: ReferenceCoverage,
}

impl View for SelectionAudit {
    type V = SelectionModel;

    open spec fn view(&self) -> SelectionModel {
        SelectionModel {
            symbol: self.symbol@,
            reference_records: self.reference_records,
            status_counts: self.status_counts@,
            selected_counts: self.selected_counts@,
            skipped_counts: self.skipped_counts,
            first_samples: self.first_samples@,
            coverage: self.coverage,
        }
    }
}

/// How often a text was counted.
pub open spec fn count_of(counts: Map<Seq<char>, u64>, text: Seq<char>) -> u64 {
    if counts.contains_key(text) {
        counts[text]
    } else {
        0
    }
}

impl SelectionModel {
    pub open spec fn empty(symbol: Seq<char>) -> Self {
        SelectionModel {
            symbol,
            reference_records: 0,
            status_counts: Map::empty(),
            selected_counts: Map::empty(),
            skipped_counts: SkipCounts::empty(),
            first_samples: FirstSamplesModel {
                missing_normal_predecessor: None,
                outside_selection_window: None,
                unexpected_phase_transition: None,
            },
            coverage: ReferenceCoverage::NoReferenceRecords,
        }
    }

    /// How many records were selected.
    pub open spec fn selected_total(self) -> int {
        count_of(self.selected_counts, "pre_open"@) + count_of(
            self.selected_counts,
            "continuous_trading"@,
        ) + count_of(self.selected_counts, "market_close"@)
    }

    /// Every record was selected or skipped, and no status was counted more often than there
    /// are records.
    pub open spec fn consistent(self) -> bool {
        &&& self.reference_records == self.selected_total() + self.skipped_counts.spec_total()
        &&& forall|status: Seq<char>| #[trigger]
            count_of(self.status_counts, status) <= self.reference_records
    }

    /// The audit after one more record.
    pub open spec fn recorded(
        self,
        position: (i64, u64),
        previous_status: Option<Seq<char>>,
        status: Seq<char>,
        decision: Result<ValidationAnchor, SkipReason>,
    ) -> Self {
        let counted = SelectionModel {
            reference_records: (self.reference_records + 1) as u64,
            status_counts: incremented(self.status_counts, status),
            ..self
        };
        match decision {
            Ok(anchor) => SelectionModel {
                selected_counts: incremented(self.selected_counts, anchor_name(anchor)),
                coverage: ReferenceCoverage::Selected,
                ..counted
            },
            Err(reason) => SelectionModel {
                skipped_counts: self.skipped_counts.counted(reason),
                coverage: if self.coverage is NoReferenceRecords {
                    ReferenceCoverage::NoEligibleReferences
                } else {
                    self.coverage
                },
                first_samples: self.first_samples.noted(
                    reason,
                    SampleModel {
                        time_ms: whole_millis(position.0),
                        source_row_no: position.1,
                        previous_status,
                        status,
                    },
                ),
                ..counted
            },
        }
    }
}

/// Milliseconds of a time in nanoseconds, towards zero.
pub open spec fn whole_millis(time_ns: i64) -> i64 {
    if time_ns >= 0 {
        (time_ns as int / 1_000_000) as i64
    } else {
        (-((-time_ns) / 1_000_000)) as i64
    }
}

fn truncated_millis(time_ns: i64) -> (r: i64)
    ensures
        r == whole_millis(time_ns),
{
    if time_ns >= 0 {
        time_ns / 1_000_000
    } else {
        let magnitude: i128 = -(time_ns as i128);
        (-(magnitude / 1_000_000)) as i64
    }
}

impl Clone for SelectionAudit {
    fn clone(&self) -> (r: Self)
        ensures
            r@ == self@,
            self.wf() ==> r.wf(),
    {
        SelectionAudit {
            symbol: self.symbol.clone(),
            reference_records: self.reference_records,
            status_counts: self.status_counts.clone(),
            selected_counts: self.selected_counts.clone(),
            skipped_counts: self.skipped_counts,
            first_samples: self.first_samples.clone(),
            coverage: self.coverage,
        }
    }
}

impl SelectionAudit {
    #[must_use]
    pub fn empty(symbol: String) -> (r: Self)
        ensures
            r.wf(),
            r@ == SelectionModel::empty(symbol@),
    {
        let r = SelectionAudit {
            symbol,
            reference_records: 0,
            status_counts: CountMap::new(),
            selected_counts: CountMap::new(),
            skipped_counts: SkipCounts::new(),
            first_samples: FirstSamples {
                missing_normal_predecessor: None,
                outside_selection_window: None,
                unexpected_phase_transition: None,
            },
            coverage: ReferenceCoverage::NoReferenceRecords,
        };
        assert(r@ =~= SelectionModel::empty(symbol@));
        r
    }

    /// Counts one more record.
    fn record(
        &mut self,
        position: (i64, u64),
        last_status: &Option<String>,
        status: &str,
        decision: Result<ValidationAnchor, SkipReason>,
    )
        requires
            old(self).wf(),
            old(self).reference_records < u64::MAX,
        ensures
            final(self).wf(),
            final(self)@ == old(self)@.recorded(
                position,
                text_view(*last_status),
                status@,
                decision,
            ),
    {
        let ghost before = self@;
        proof {
            recording_keeps_consistent(
                before,
                position,
                text_view(*last_status),
                status@,
                decision,
            );
            assert(count_of(before.status_counts, status@) <= before.reference_records);
        }
        self.reference_records = self.reference_records + 1;
        self.status_counts.increment(status);
        match decision {
            Ok(anchor) => {
                self.selected_counts.increment(anchor_text(anchor));
                self.coverage = ReferenceCoverage::Selected;
            },
            Err(reason) => {
                self.skipped_counts.count(reason);
                if self.coverage == ReferenceCoverage::NoReferenceRecords {
                    self.coverage = ReferenceCoverage::NoEligibleReferences;
                }
                let previous_status = match last_status {
                    Some(text) => Some(text.clone()),
                    None => None,
                };
                self.first_samples.note(
                    reason,
                    SelectionSample {
                        time_ms: truncated_millis(position.0),
                        source_row_no: position.1,
                        previous_status,
                        status: String::from_str(status),
                    },
                );
            },
        }
        assert(self@ =~= before.recorded(position, text_view(*last_status), status@, decision));
    }

    pub open spec fn wf(self) -> bool {
        &&& self.status_counts.wf()
        &&& self.selected_counts.wf()
        &&& self@.consistent()
    }
}

/// What the phases of a day have shown so far.
#[derive(Clone, Copy, Debug, PartialEq, Eq, Structural)]
pub struct PhaseFlags {
    pub sh_continuous_close: bool,
    pub opening: bool,
    pub traded: bool,
    pub closing: bool,
    pub closing_valid: bool,
    pub pre_open_selected: bool,
    pub close_selected: bool,
}

/// A decision about a record, and the flags it leaves.
pub struct PhaseStep {
    pub flags: PhaseFlags,
    pub decision: Result<ValidationAnchor, SkipReason>,
}

impl PhaseFlags {
    pub open spec fn skip(self, reason: SkipReason) -> PhaseStep {
        PhaseStep { flags: self, decision: Err(reason) }
    }

    pub open spec fn take(self, anchor: ValidationAnchor) -> PhaseStep {
        PhaseStep { flags: self, decision: Ok(anchor) }
    }

    /// The phases before the close may still come.
    pub open spec fn before_close(self) -> bool {
        !self.closing && !self.close_selected
    }

    /// What a Shanghai record comes to.
    pub open spec fn sh_step(
        self,
        last_status: Option<Seq<char>>,
        time: i64,
        status: Seq<char>,
        start: i64,
        continuous: i64,
    ) -> PhaseStep {
        let opens = start <= time < continuous;
        if status == "CLOSE"@ {
            let valid = if self.sh_continuous_close {
                self.traded && !self.closing && last_status == Some("TRADE"@)
            } else {
                self.closing_valid && last_status == Some("CCALL"@)
            };
            if self.close_selected {
                self.skip(SkipReason::AdditionalStaticFrame)
            } else if valid {
                PhaseFlags { close_selected: true, ..self }.take(ValidationAnchor::MarketClose)
            } else {
                self.skip(SkipReason::MissingNormalPredecessor)
            }
        } else if status == "TRADE"@ {
            if opens && self.pre_open_selected && !self.traded && self.before_close() {
                self.skip(SkipReason::AdditionalStaticFrame)
            } else if !self.before_close() {
                self.skip(SkipReason::UnexpectedPhaseTransition)
            } else if opens {
                if self.opening && last_status == Some("OCALL"@) {
                    PhaseFlags { pre_open_selected: true, ..self }.take(ValidationAnchor::PreOpen)
                } else {
                    self.skip(SkipReason::MissingNormalPredecessor)
                }
            } else if time >= continuous {
                PhaseFlags { traded: true, ..self }.take(ValidationAnchor::ContinuousTrading)
            } else {
                self.skip(SkipReason::OutsideSelectionWindow)
            }
        } else if status == "OCALL"@ {
            if !self.traded && self.before_close() {
                PhaseFlags { opening: true, ..self }.skip(SkipReason::StatusNotApplicable)
            } else {
                self.skip(SkipReason::UnexpectedPhaseTransition)
            }
        } else if status == "CCALL"@ {
            self.closing_step()
        } else {
            self.other_step()
        }
    }

    /// What a closing call comes to.
    pub open spec fn closing_step(self) -> PhaseStep {
        if self.close_selected {
            self.skip(SkipReason::UnexpectedPhaseTransition)
        } else {
            PhaseFlags { closing: true, closing_valid: true, ..self }.skip(
                SkipReason::StatusNotApplicable,
            )
        }
    }

    /// What any other status comes to: it breaks the predecessors off.
    pub open spec fn other_step(self) -> PhaseStep {
        PhaseFlags { opening: false, closing_valid: false, ..self }.skip(
            SkipReason::StatusNotApplicable,
        )
    }

    /// What a Shenzhen record comes to.
    pub open spec fn sz_step(self, last_status: Option<Seq<char>>, status: Seq<char>) -> PhaseStep {
        if status == "E0"@ {
            if self.close_selected {
                self.skip(SkipReason::AdditionalStaticFrame)
            } else if self.closing_valid && last_status == Some("C0"@) {
                PhaseFlags { close_selected: true, ..self }.take(ValidationAnchor::MarketClose)
            } else {
                self.skip(SkipReason::MissingNormalPredecessor)
            }
        } else if status == "B0"@ {
            if self.pre_open_selected && !self.traded && self.before_close() {
                self.skip(SkipReason::AdditionalStaticFrame)
            } else if !self.before_close() {
                self.skip(SkipReason::UnexpectedPhaseTransition)
            } else if self.traded {
                self.skip(SkipReason::StatusNotApplicable)
            } else if self.opening && last_status == Some("O0"@) {
                PhaseFlags { pre_open_selected: true, ..self }.take(ValidationAnchor::PreOpen)
            } else {
                self.skip(SkipReason::MissingNormalPredecessor)
            }
        } else if status == "O0"@ {
            if !self.traded && self.before_close() {
                PhaseFlags { opening: true, ..self }.skip(SkipReason::StatusNotApplicable)
            } else {
                self.skip(SkipReason::UnexpectedPhaseTransition)
            }
        } else if status == "T0"@ {
            if !self.before_close() {
                self.skip(SkipReason::UnexpectedPhaseTransition)
            } else {
                PhaseFlags { traded: true, ..self }.take(ValidationAnchor::ContinuousTrading)
            }
        } else if status == "C0"@ {
            self.closing_step()
        } else {
            self.other_step()
        }
    }
}

fn is_status(status: &Option<String>, text: &str) -> (r: bool)
    ensures
        r == (text_view(*status) == Some(text@)),
{
    match status {
        Some(status) => same_text(status.as_str(), text),
        None => false,
    }
}

fn skip(flags: PhaseFlags, reason: SkipReason) -> (r: (
    PhaseFlags,
    Result<ValidationAnchor, SkipReason>,
))
    ensures
        r.0 == flags,
        r.1 == Err::<ValidationAnchor, SkipReason>(reason),
{
    (flags, Err(reason))
}

fn step_sh(
    flags: PhaseFlags,
    last_status: &Option<String>,
    time: i64,
    status: &str,
    start: i64,
    continuous: i64,
) -> (r: (PhaseFlags, Result<ValidationAnchor, SkipReason>))
    ensures
        ({
            let step = flags.sh_step(text_view(*last_status), time, status@, start, continuous);
            r.0 == step.flags && r.1 == step.decision
        }),
{
    let opens = start <= time && time < continuous;
    let before_close = !flags.closing && !flags.close_selected;
    let mut next = flags;
    if same_text(status, "CLOSE") {
        if flags.close_selected {
            return skip(flags, SkipReason::AdditionalStaticFrame);
        }
        let valid = if flags.sh_continuous_close {
            flags.traded && !flags.closing && is_status(last_status, "TRADE")
        } else {
            flags.closing_valid && is_status(last_status, "CCALL")
        };
        if !valid {
            return skip(flags, SkipReason::MissingNormalPredecessor);
        }
        next.close_selected = true;
        (next, Ok(ValidationAnchor::MarketClose))
    } else if same_text(status, "TRADE") {
        if opens && flags.pre_open_selected && !flags.traded && before_close {
            skip(flags, SkipReason::AdditionalStaticFrame)
        } else if !before_close {
            skip(flags, SkipReason::UnexpectedPhaseTransition)
        } else if opens {
            if flags.opening && is_status(last_status, "OCALL") {
                next.pre_open_selected = true;
                (next, Ok(ValidationAnchor::PreOpen))
            } else {
                skip(flags, SkipReason::MissingNormalPredecessor)
            }
        } else if time >= continuous {
            next.traded = true;
            (next, Ok(ValidationAnchor::ContinuousTrading))
        } else {
            skip(flags, SkipReason::OutsideSelectionWindow)
        }
    } else if same_text(status, "OCALL") {
        if !flags.traded && before_close {
            next.opening = true;
            skip(next, SkipReason::StatusNotApplicable)
        } else {
            skip(flags, SkipReason::UnexpectedPhaseTransition)
        }
    } else if same_text(status, "CCALL") {
        step_closing(flags)
    } else {
        step_other(flags)
    }
}

fn step_closing(flags: PhaseFlags) -> (r: (PhaseFlags, Result<ValidationAnchor, SkipReason>))
    ensures
        r.0 == flags.closing_step().flags && r.1 == flags.closing_step().decision,
{
    if flags.close_selected {
        return skip(flags, SkipReason::UnexpectedPhaseTransition);
    }
    let mut next = flags;
    next.closing = true;
    next.closing_valid = true;
    skip(next, SkipReason::StatusNotApplicable)
}

fn step_other(flags: PhaseFlags) -> (r: (PhaseFlags, Result<ValidationAnchor, SkipReason>))
    ensures
        r.0 == flags.other_step().flags && r.1 == flags.other_step().decision,
{
    let mut next = flags;
    next.opening = false;
    next.closing_valid = false;
    skip(next, SkipReason::StatusNotApplicable)
}

fn step_sz(flags: PhaseFlags, last_status: &Option<String>, status: &str) -> (r: (
    PhaseFlags,
    Result<ValidationAnchor, SkipReason>,
))
    ensures
        ({
            let step = flags.sz_step(text_view(*last_status), status@);
            r.0 == step.flags && r.1 == step.decision
        }),
{
    let before_close = !flags.closing && !flags.close_selected;
    let mut next = flags;
    if same_text(status, "E0") {
        if flags.close_selected {
            skip(flags, SkipReason::AdditionalStaticFrame)
        } else if flags.closing_valid && is_status(last_status, "C0") {
            next.close_selected = true;
            (next, Ok(ValidationAnchor::MarketClose))
        } else {
            skip(flags, SkipReason::MissingNormalPredecessor)
        }
    } else if same_text(status, "B0") {
        if flags.pre_open_selected && !flags.traded && before_close {
            skip(flags, SkipReason::AdditionalStaticFrame)
        } else if !before_close {
            skip(flags, SkipReason::UnexpectedPhaseTransition)
        } else if flags.traded {
            skip(flags, SkipReason::StatusNotApplicable)
        } else if flags.opening && is_status(last_status, "O0") {
            next.pre_open_selected = true;
            (next, Ok(ValidationAnchor::PreOpen))
        } else {
            skip(flags, SkipReason::MissingNormalPredecessor)
        }
    } else if same_text(status, "O0") {
        if !flags.traded && before_close {
            next.opening = true;
            skip(next, SkipReason::StatusNotApplicable)
        } else {
            skip(flags, SkipReason::UnexpectedPhaseTransition)
        }
    } else if same_text(status, "T0") {
        if !before_close {
            skip(flags, SkipReason::UnexpectedPhaseTransition)
        } else {
            next.traded = true;
            (next, Ok(ValidationAnchor::ContinuousTrading))
        }
    } else if same_text(status, "C0") {
        step_closing(flags)
    } else {
        step_other(flags)
    }
}

/// Follows the trading phases of a symbol through its reference records.
pub struct PhaseTracker {
    pub audit: SelectionAudit,
    pub flags: PhaseFlags,
    pub last_position: Option<(i64, u64)>,
    pub last_status: Option<String>,
    pub pre_open_only: bool,
}

/// The phases of a symbol so far, with its collections as mathematical ones.
#[verifier::ext_equal]
pub struct PhaseModel {
    pub audit: SelectionModel,
    pub flags: PhaseFlags,
    pub last_position: Option<(i64, u64)>,
    pub last_status: Option<Seq<char>>,
    pub pre_open_only: bool,
}

impl View for PhaseTracker {
    type V = PhaseModel;

    open spec fn view(&self) -> PhaseModel {
        PhaseModel {
            audit: self.audit@,
            flags: self.flags,
            last_position: self.last_position,
            last_status: text_view(self.last_status),
            pre_open_only: self.pre_open_only,
        }
    }
}

impl PhaseModel {
    pub open spec fn fresh(
        market: Market,
        day: TradingDay,
        symbol: Seq<char>,
        pre_open_only: bool,
    ) -> Self {
        PhaseModel {
            audit: SelectionModel::empty(symbol),
            flags: PhaseFlags {
                sh_continuous_close: market == Market::Sse && spec_is_etf(market, symbol)
                    && day.spec_value() < SH_ETF_CLOSING_AUCTION_START,
                opening: false,
                traded: false,
                closing: false,
                closing_valid: false,
                pre_open_selected: false,
                close_selected: false,
            },
            last_position: None,
            last_status: None,
            pre_open_only,
        }
    }

    /// Why a record cannot follow the one before it. Corrupt positions are not skipped.
    pub open spec fn position_error(self, position: (i64, u64)) -> Option<ErrorModel> {
        if self.last_position is Some && (position.0 < (self.last_position->0).0 || position.1
            <= (self.last_position->0).1) {
            Some(
                ErrorModel::Validation(
                    "reference time or source row is non-increasing for "@ + self.audit.symbol
                        + " at "@ + int_text(whole_millis(position.0) as int) + " source_row="@
                        + nat_text(position.1 as nat),
                ),
            )
        } else if self.audit.reference_records == u64::MAX {
            Some(ErrorModel::Arithmetic("reference record count"@))
        } else {
            None
        }
    }

    /// What a record comes to by its phase.
    pub open spec fn phase_step(
        self,
        market: Market,
        time: i64,
        status: Seq<char>,
        opening_start: i64,
        continuous_start: i64,
    ) -> PhaseStep {
        match market {
            Market::Sse => self.flags.sh_step(
                self.last_status,
                time,
                status,
                opening_start,
                continuous_start,
            ),
            Market::Szse => self.flags.sz_step(self.last_status, status),
        }
    }

    /// Whether a record is compared, and as what.
    pub open spec fn decision(
        self,
        market: Market,
        time: i64,
        status: Seq<char>,
        opening_start: i64,
        continuous_start: i64,
    ) -> Result<ValidationAnchor, SkipReason> {
        match self.phase_step(market, time, status, opening_start, continuous_start).decision {
            Ok(anchor) => if self.pre_open_only && anchor != ValidationAnchor::PreOpen {
                Err(SkipReason::StatusNotApplicable)
            } else {
                Ok(anchor)
            },
            Err(reason) => Err(reason),
        }
    }

    /// The phases after one more record.
    pub open spec fn observed(
        self,
        market: Market,
        position: (i64, u64),
        status: Seq<char>,
        opening_start: i64,
        continuous_start: i64,
    ) -> Self {
        PhaseModel {
            audit: self.audit.recorded(
                position,
                self.last_status,
                status,
                self.decision(market, position.0, status, opening_start, continuous_start),
            ),
            flags: self.phase_step(
                market,
                position.0,
                status,
                opening_start,
                continuous_start,
            ).flags,
            last_position: Some(position),
            last_status: Some(status),
            ..self
        }
    }
}

/// The names of the anchors differ.
proof fn anchor_names_differ()
    ensures
        "pre_open"@ != "continuous_trading"@,
        "pre_open"@ != "market_close"@,
        "continuous_trading"@ != "market_close"@,
{
    reveal_strlit("pre_open");
    reveal_strlit("continuous_trading");
    reveal_strlit("market_close");
    assert("pre_open"@.len() == 8);
    assert("continuous_trading"@.len() == 18);
    assert("market_close"@.len() == 12);
}

/// Recording a record keeps an audit consistent.
pub proof fn recording_keeps_consistent(
    audit: SelectionModel,
    position: (i64, u64),
    previous_status: Option<Seq<char>>,
    status: Seq<char>,
    decision: Result<ValidationAnchor, SkipReason>,
)
    requires
        audit.consistent(),
        audit.reference_records < u64::MAX,
    ensures
        audit.recorded(position, previous_status, status, decision).consistent(),
{
    anchor_names_differ();
    let next = audit.recorded(position, previous_status, status, decision);
    assert(count_of(audit.status_counts, status) <= audit.reference_records);
    assert forall|other: Seq<char>| #[trigger] count_of(next.status_counts, other)
        <= next.reference_records by {
        assert(count_of(audit.status_counts, other) <= audit.reference_records);
    }
}

/// The frame before the open and the frame of the close are each selected at most once, and
/// nothing is selected behind the close. In Shanghai the open is told by time, so a frame must
/// not lie before continuous trading once there was trading.
pub proof fn single_frames_come_once(
    phases: PhaseModel,
    market: Market,
    time: i64,
    status: Seq<char>,
    opening_start: i64,
    continuous_start: i64,
)
    requires
        market == Market::Sse && phases.flags.traded ==> time >= continuous_start,
    ensures
        ({
            let step = phases.phase_step(market, time, status, opening_start, continuous_start);
            let decision = phases.decision(market, time, status, opening_start, continuous_start);
            &&& phases.flags.pre_open_selected ==> step.flags.pre_open_selected && decision != Ok::<
                ValidationAnchor,
                SkipReason,
            >(ValidationAnchor::PreOpen)
            &&& phases.flags.close_selected ==> step.flags.close_selected && decision is Err
            &&& decision == Ok::<ValidationAnchor, SkipReason>(ValidationAnchor::PreOpen)
                ==> step.flags.pre_open_selected
            &&& decision == Ok::<ValidationAnchor, SkipReason>(ValidationAnchor::MarketClose)
                ==> step.flags.close_selected
        }),
{
}

/// A record of a symbol as its phases see it.
pub struct PhaseRecord {
    pub position: (i64, u64),
    pub status: Seq<char>,
}

impl PhaseModel {
    /// The phases after several records.
    pub open spec fn followed(
        self,
        market: Market,
        records: Seq<PhaseRecord>,
        opening_start: i64,
        continuous_start: i64,
    ) -> Self
        decreases records.len(),
    {
        if records.len() == 0 {
            self
        } else {
            self.followed(
                market,
                records.drop_last(),
                opening_start,
                continuous_start,
            ).observed(
                market,
                records.last().position,
                records.last().status,
                opening_start,
                continuous_start,
            )
        }
    }

    /// Whether every record may follow the one before it.
    pub open spec fn admits(
        self,
        market: Market,
        records: Seq<PhaseRecord>,
        opening_start: i64,
        continuous_start: i64,
    ) -> bool
        decreases records.len(),
    {
        records.len() == 0 || {
            &&& self.admits(market, records.drop_last(), opening_start, continuous_start)
            &&& self.followed(
                market,
                records.drop_last(),
                opening_start,
                continuous_start,
            ).position_error(records.last().position) is None
        }
    }

    /// The anchors for which records were selected, in their order.
    pub open spec fn selections(
        self,
        market: Market,
        records: Seq<PhaseRecord>,
        opening_start: i64,
        continuous_start: i64,
    ) -> Seq<ValidationAnchor>
        decreases records.len(),
    {
        if records.len() == 0 {
            Seq::empty()
        } else {
            let earlier = self.selections(
                market,
                records.drop_last(),
                opening_start,
                continuous_start,
            );
            match self.followed(
                market,
                records.drop_last(),
                opening_start,
                continuous_start,
            ).decision(
                market,
                records.last().position.0,
                records.last().status,
                opening_start,
                continuous_start,
            ) {
                Ok(anchor) => earlier.push(anchor),
                Err(_) => earlier,
            }
        }
    }
}

/// How many records have a status.
pub open spec fn records_with(records: Seq<PhaseRecord>, status: Seq<char>) -> nat
    decreases records.len(),
{
    if records.len() == 0 {
        0
    } else {
        records_with(records.drop_last(), status) + if records.last().status == status {
            1nat
        } else {
            0nat
        }
    }
}

/// What the flags of the phases say of the records that were selected.
spec fn flags_tell(
    phases: PhaseModel,
    market: Market,
    selected: Seq<ValidationAnchor>,
    continuous_start: i64,
) -> bool {
    &&& forall|i: int|
        0 <= i < selected.len() ==> match #[trigger] selected[i] {
            ValidationAnchor::PreOpen => phases.flags.pre_open_selected,
            ValidationAnchor::ContinuousTrading => phases.flags.traded,
            ValidationAnchor::MarketClose => phases.flags.close_selected,
        }
    &&& market == Market::Sse && phases.flags.traded ==> {
        &&& phases.last_position is Some
        &&& (phases.last_position->0).0 >= continuous_start
    }
}

/// The order in which records are selected.
spec fn phases_in_order(selected: Seq<ValidationAnchor>) -> bool {
    forall|i: int, j: int|
        0 <= i < j < selected.len() ==> #[trigger] selected[i] != ValidationAnchor::MarketClose
            && #[trigger] selected[j] != ValidationAnchor::PreOpen
}

spec fn with_decision(
    selected: Seq<ValidationAnchor>,
    decision: Result<ValidationAnchor, SkipReason>,
) -> Seq<ValidationAnchor> {
    match decision {
        Ok(anchor) => selected.push(anchor),
        Err(_) => selected,
    }
}

/// A decision fits the flags, and the flags after it fit the decision.
proof fn lemma_decision(
    phases: PhaseModel,
    market: Market,
    time: i64,
    status: Seq<char>,
    opening_start: i64,
    continuous_start: i64,
)
    requires
        market == Market::Sse && phases.flags.traded ==> time >= continuous_start,
    ensures
        ({
            let flags = phases.phase_step(
                market,
                time,
                status,
                opening_start,
                continuous_start,
            ).flags;
            &&& phases.flags.pre_open_selected ==> flags.pre_open_selected
            &&& phases.flags.traded ==> flags.traded
            &&& phases.flags.close_selected ==> flags.close_selected
            &&& market == Market::Sse && flags.traded ==> time >= continuous_start
            &&& match phases.decision(market, time, status, opening_start, continuous_start) {
                Ok(ValidationAnchor::PreOpen) => {
                    &&& !phases.flags.pre_open_selected
                    &&& !phases.flags.traded
                    &&& !phases.flags.close_selected
                    &&& flags.pre_open_selected
                },
                Ok(ValidationAnchor::ContinuousTrading) => {
                    &&& !phases.flags.close_selected
                    &&& flags.traded
                    &&& !phases.pre_open_only
                },
                Ok(ValidationAnchor::MarketClose) => {
                    &&& !phases.flags.close_selected
                    &&& flags.close_selected
                    &&& !phases.pre_open_only
                },
                Err(_) => true,
            }
        }),
{
}

proof fn lemma_selection_step(
    phases: PhaseModel,
    market: Market,
    record: PhaseRecord,
    opening_start: i64,
    continuous_start: i64,
    selected: Seq<ValidationAnchor>,
)
    requires
        phases.position_error(record.position) is None,
        flags_tell(phases, market, selected, continuous_start),
        phases_in_order(selected),
    ensures
        ({
            let next = phases.observed(
                market,
                record.position,
                record.status,
                opening_start,
                continuous_start,
            );
            let decision = phases.decision(
                market,
                record.position.0,
                record.status,
                opening_start,
                continuous_start,
            );
            let chosen = with_decision(selected, decision);
            &&& flags_tell(next, market, chosen, continuous_start)
            &&& phases_in_order(chosen)
            &&& decision is Ok && phases.pre_open_only ==> decision->Ok_0
                == ValidationAnchor::PreOpen
        }),
{
    lemma_decision(
        phases,
        market,
        record.position.0,
        record.status,
        opening_start,
        continuous_start,
    );
    let step = phases.phase_step(
        market,
        record.position.0,
        record.status,
        opening_start,
        continuous_start,
    );
    let decision = phases.decision(
        market,
        record.position.0,
        record.status,
        opening_start,
        continuous_start,
    );
    let next = phases.observed(
        market,
        record.position,
        record.status,
        opening_start,
        continuous_start,
    );
    let chosen = with_decision(selected, decision);
    assert(next.flags == step.flags);
    assert(next.last_position == Some(record.position));
    assert forall|i: int| 0 <= i < chosen.len() implies match #[trigger] chosen[i] {
        ValidationAnchor::PreOpen => next.flags.pre_open_selected,
        ValidationAnchor::ContinuousTrading => next.flags.traded,
        ValidationAnchor::MarketClose => next.flags.close_selected,
    } by {
        if i < selected.len() {
            assert(chosen[i] == selected[i]);
        }
    }
    assert forall|i: int, j: int| 0 <= i < j < chosen.len() implies #[trigger] chosen[i]
        != ValidationAnchor::MarketClose && #[trigger] chosen[j] != ValidationAnchor::PreOpen by {
        assert(chosen[i] == selected[i]);
        if j < selected.len() {
            assert(chosen[j] == selected[j]);
        }
    }
}

proof fn lemma_audit_step(
    audit: SelectionModel,
    record: PhaseRecord,
    previous_status: Option<Seq<char>>,
    decision: Result<ValidationAnchor, SkipReason>,
)
    requires
        audit.consistent(),
        audit.reference_records < u64::MAX,
    ensures
        ({
            let next = audit.recorded(record.position, previous_status, record.status, decision);
            &&& next.consistent()
            &&& next.reference_records == audit.reference_records + 1
            &&& next.selected_total() == audit.selected_total() + if decision is Ok {
                1int
            } else {
                0int
            }
            &&& forall|status: Seq<char>| #[trigger]
                count_of(next.status_counts, status) == count_of(audit.status_counts, status)
                    + if record.status == status {
                    1int
                } else {
                    0int
                }
        }),
{
    anchor_names_differ();
    recording_keeps_consistent(
        audit,
        record.position,
        previous_status,
        record.status,
        decision,
    );
    assert(count_of(audit.status_counts, record.status) <= audit.reference_records);
}

proof fn lemma_phases_follow(
    start: PhaseModel,
    market: Market,
    records: Seq<PhaseRecord>,
    opening_start: i64,
    continuous_start: i64,
)
    requires
        start.audit == SelectionModel::empty(start.audit.symbol),
        !start.flags.traded,
        start.admits(market, records, opening_start, continuous_start),
    ensures
        ({
            let phases = start.followed(market, records, opening_start, continuous_start);
            let selected = start.selections(market, records, opening_start, continuous_start);
            &&& flags_tell(phases, market, selected, continuous_start)
            &&& phases_in_order(selected)
            &&& forall|i: int|
                0 <= i < selected.len() && start.pre_open_only ==> #[trigger] selected[i]
                    == ValidationAnchor::PreOpen
            &&& phases.pre_open_only == start.pre_open_only
            &&& phases.audit.consistent()
            &&& phases.audit.reference_records == records.len()
            &&& phases.audit.selected_total() == selected.len()
            &&& forall|status: Seq<char>| #[trigger]
                count_of(phases.audit.status_counts, status) == records_with(records, status)
        }),
    decreases records.len(),
{
    if records.len() > 0 {
        let earlier = records.drop_last();
        let last = records.last();
        lemma_phases_follow(start, market, earlier, opening_start, continuous_start);
        let before = start.followed(market, earlier, opening_start, continuous_start);
        let chosen = start.selections(market, earlier, opening_start, continuous_start);
        lemma_selection_step(before, market, last, opening_start, continuous_start, chosen);
        lemma_audit_step(
            before.audit,
            last,
            before.last_status,
            before.decision(
                market,
                last.position.0,
                last.status,
                opening_start,
                continuous_start,
            ),
        );
        let phases = start.followed(market, records, opening_start, continuous_start);
        assert forall|status: Seq<char>| #[trigger]
            count_of(phases.audit.status_counts, status) == records_with(records, status) by {
            assert(count_of(before.audit.status_counts, status) == records_with(earlier, status));
        }
    }
}

/// One record more counts once among statuses that are listed once.
proof fn lemma_one_status_more(
    front: Seq<PhaseRecord>,
    record: PhaseRecord,
    statuses: Seq<Seq<char>>,
)
    requires
        statuses.no_duplicates(),
    ensures
        seq_sum(statuses, counted_in(front.push(record))) == seq_sum(statuses, counted_in(front))
            + if statuses.contains(record.status) {
            1int
        } else {
            0int
        },
    decreases statuses.len(),
{
    let records = front.push(record);
    assert(records.drop_last() =~= front);
    if statuses.len() > 0 {
        let rest = statuses.drop_last();
        let last = statuses.last();
        lemma_one_status_more(front, record, rest);
        if last == record.status {
            if rest.contains(last) {
                let i = choose|i: int| 0 <= i < rest.len() && rest[i] == last;
                assert(statuses[i] == statuses[statuses.len() - 1]);
            }
            assert(statuses.contains(record.status));
        } else if rest.contains(record.status) {
            let i = choose|i: int| 0 <= i < rest.len() && rest[i] == record.status;
            assert(statuses[i] == record.status);
        } else if statuses.contains(record.status) {
            let i = choose|i: int| 0 <= i < statuses.len() && statuses[i] == record.status;
            assert(rest[i] == record.status);
        }
    }
}

/// How many records have a status, as a function of the status.
spec fn counted_in(records: Seq<PhaseRecord>) -> spec_fn(Seq<char>) -> int {
    |status: Seq<char>| records_with(records, status) as int
}

/// Whether a list has every status of some records, and none twice.
pub open spec fn lists_statuses(statuses: Seq<Seq<char>>, records: Seq<PhaseRecord>) -> bool {
    &&& statuses.no_duplicates()
    &&& forall|i: int| 0 <= i < records.len() ==> statuses.contains((#[trigger] records[i]).status)
}

impl SelectionModel {
    /// How often a status was counted, as a function of the status.
    pub open spec fn status_count(self) -> spec_fn(Seq<char>) -> int {
        |status: Seq<char>| count_of(self.status_counts, status) as int
    }
}

/// The records with each of their statuses, taken together, are all records.
proof fn lemma_statuses_sum(records: Seq<PhaseRecord>, statuses: Seq<Seq<char>>)
    requires
        lists_statuses(statuses, records),
    ensures
        seq_sum(statuses, counted_in(records)) == records.len(),
    decreases records.len(),
{
    if records.len() == 0 {
        lemma_no_statuses(records, statuses);
    } else {
        let front = records.drop_last();
        assert forall|i: int| 0 <= i < front.len() implies statuses.contains(
            (#[trigger] front[i]).status,
        ) by {
            assert(records[i] == front[i]);
        }
        lemma_statuses_sum(front, statuses);
        lemma_one_status_more(front, records.last(), statuses);
        assert(front.push(records.last()) =~= records);
        assert(statuses.contains(records[records.len() - 1].status));
    }
}

proof fn lemma_no_statuses(records: Seq<PhaseRecord>, statuses: Seq<Seq<char>>)
    requires
        records.len() == 0,
    ensures
        seq_sum(statuses, counted_in(records)) == 0,
    decreases statuses.len(),
{
    if statuses.len() > 0 {
        lemma_no_statuses(records, statuses.drop_last());
    }
}

/// The records of a symbol that are selected over a day follow its phases: at most one before
/// the open, and nothing ahead of it; then those of continuous trading; then at most one of
/// the close, and nothing behind it. With only the open wanted, no other is selected. The
/// audit counts every record, every status as often as it came, so that the statuses sum to
/// the records, and every selection.
pub proof fn selections_follow_the_phases(
    market: Market,
    day: TradingDay,
    symbol: Seq<char>,
    pre_open_only: bool,
    records: Seq<PhaseRecord>,
    opening_start: i64,
    continuous_start: i64,
)
    requires
        PhaseModel::fresh(market, day, symbol, pre_open_only).admits(
            market,
            records,
            opening_start,
            continuous_start,
        ),
    ensures
        ({
            let start = PhaseModel::fresh(market, day, symbol, pre_open_only);
            let audit = start.followed(market, records, opening_start, continuous_start).audit;
            let selected = start.selections(market, records, opening_start, continuous_start);
            &&& forall|i: int, j: int|
                0 <= i < j < selected.len() ==> #[trigger] selected[i]
                    != ValidationAnchor::MarketClose && #[trigger] selected[j]
                    != ValidationAnchor::PreOpen
            &&& forall|i: int|
                0 <= i < selected.len() && pre_open_only ==> #[trigger] selected[i]
                    == ValidationAnchor::PreOpen
            &&& audit.reference_records == records.len()
            &&& audit.selected_total() == selected.len()
            &&& audit.skipped_counts.spec_total() == records.len() - selected.len()
            &&& forall|status: Seq<char>| #[trigger]
                count_of(audit.status_counts, status) == records_with(records, status)
            &&& forall|statuses: Seq<Seq<char>>| #[trigger]
                lists_statuses(statuses, records) ==> seq_sum(statuses, audit.status_count())
                    == records.len()
        }),
{
    let start = PhaseModel::fresh(market, day, symbol, pre_open_only);
    lemma_phases_follow(start, market, records, opening_start, continuous_start);
    let audit = start.followed(market, records, opening_start, continuous_start).audit;
    assert forall|statuses: Seq<Seq<char>>| #[trigger]
        lists_statuses(statuses, records) implies seq_sum(statuses, audit.status_count())
        == records.len() by {
        lemma_statuses_sum(records, statuses);
        assert(audit.status_count() =~= counted_in(records)) by {
            assert forall|status: Seq<char>|
                #[trigger] (audit.status_count())(status) == (counted_in(records))(status) by {
                assert(count_of(audit.status_counts, status) == records_with(records, status));
            }
        }
    }
}

impl PhaseTracker {
    pub open spec fn wf(self) -> bool {
        self.audit.wf()
    }

    pub fn new(market: Market, day: TradingDay, symbol: &str) -> (r: Self)
        ensures
            r.wf(),
            r@ == PhaseModel::fresh(market, day, symbol@, false),
    {
        Self {
            audit: SelectionAudit::empty(String::from_str(symbol)),
            flags: PhaseFlags {
                sh_continuous_close: market == Market::Sse && is_etf_symbol(market, symbol)
                    && day.as_yyyymmdd() < SH_ETF_CLOSING_AUCTION_START,
                opening: false,
                traded: false,
                closing: false,
                closing_valid: false,
                pre_open_selected: false,
                close_selected: false,
            },
            last_position: None,
            last_status: None,
            pre_open_only: false,
        }
    }

    #[must_use]
    pub fn with_pre_open_only(self, enabled: bool) -> (r: Self)
        requires
            self.wf(),
        ensures
            r.wf(),
            r@ == (PhaseModel { pre_open_only: enabled, ..self@ }),
    {
        PhaseTracker {
            audit: self.audit,
            flags: self.flags,
            last_position: self.last_position,
            last_status: self.last_status,
            pre_open_only: enabled,
        }
    }

    /// Positions establish native reference order; corrupt positions are not eligibility skips.
    pub fn observe(
        &mut self,
        market: Market,
        position: (i64, u64),
        status: &str,
        opening_start: i64,
        continuous_start: i64,
    ) -> (r: Result<Option<ValidationAnchor>, ProductionError>)
        requires
            old(self).wf(),
        ensures
            final(self).wf(),
            match old(self)@.position_error(position) {
                Some(error) => r is Err && r->Err_0@ == error && final(self)@ == old(self)@,
                None => {
                    &&& r is Ok
                    &&& r->Ok_0 == match old(self)@.decision(
                        market,
                        position.0,
                        status@,
                        opening_start,
                        continuous_start,
                    ) {
                        Ok(anchor) => Some(anchor),
                        Err(_) => None,
                    }
                    &&& final(self)@ == old(self)@.observed(
                        market,
                        position,
                        status@,
                        opening_start,
                        continuous_start,
                    )
                },
            },
    {
        if let Some(last) = self.last_position {
            if position.0 < last.0 || position.1 <= last.1 {
                let mut detail = String::from_str(
                    "reference time or source row is non-increasing for ",
                );
                detail.append(self.audit.symbol.as_str());
                detail.append(" at ");
                detail.append(i64_text(truncated_millis(position.0)).as_str());
                detail.append(" source_row=");
                detail.append(u64_text(position.1).as_str());
                return Err(ProductionError::Validation(detail));
            }
        }
        if self.audit.reference_records == u64::MAX {
            return Err(ProductionError::Arithmetic("reference record count"));
        }
        let ghost before = self@;
        let (flags, phase) = match market {
            Market::Sse => step_sh(
                self.flags,
                &self.last_status,
                position.0,
                status,
                opening_start,
                continuous_start,
            ),
            Market::Szse => step_sz(self.flags, &self.last_status, status),
        };
        let decision = match phase {
            Ok(anchor) => if self.pre_open_only && anchor != ValidationAnchor::PreOpen {
                Err(SkipReason::StatusNotApplicable)
            } else {
                Ok(anchor)
            },
            Err(reason) => Err(reason),
        };
        self.audit.record(position, &self.last_status, status, decision);
        self.flags = flags;
        self.last_position = Some(position);
        self.last_status = Some(String::from_str(status));
        assert(self@ =~= before.observed(
            market,
            position,
            status@,
            opening_start,
            continuous_start,
        ));
        match decision {
            Ok(anchor) => Ok(Some(anchor)),
            Err(_) => Ok(None),
        }
    }
}

} // verus!
