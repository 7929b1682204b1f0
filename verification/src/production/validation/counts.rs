//! Outcomes, their counts and the coverage of references.

use vstd::prelude::*;
use vstd::string::StringExecFns;

use super::super::count_map::{incremented, is_full, CountMap};
use super::super::error::{ErrorModel, ProductionError};
use super::super::symbol_map::SymbolMap;
use super::super::types::ValidationAnchor;
use super::close_range::text_view;
use super::difference::{difference_views, DifferenceModel, FieldDifference};
use super::phases::{count_of, ReferenceCoverage, SelectionAudit, SelectionModel};
use super::rules::{anchor_name, anchor_text};

verus! {

/// What became of a reference.
#[derive(Clone, Copy, Debug, PartialEq, Eq, Structural)]
pub enum ValidationOutcome {
    Matched,
    Mismatched,
    DataError,
    MissingSource,
}

/// How often each outcome came up.
#[derive(Clone, Copy, Debug, PartialEq, Eq, Structural)]
pub struct ValidationCounts {
    pub total: u64,
    pub comparable: u64,
    pub matched: u64,
    pub mismatched: u64,
    pub data_errors: u64,
    pub missing_source: u64,
}

impl ValidationCounts {
    pub open spec fn zero() -> Self {
        ValidationCounts {
            total: 0,
            comparable: 0,
            matched: 0,
            mismatched: 0,
            data_errors: 0,
            missing_source: 0,
        }
    }

    /// Every reference has one outcome, and those that were compared match or do not.
    pub open spec fn consistent(self) -> bool {
        &&& self.total == self.comparable + self.data_errors + self.missing_source
        &&& self.comparable == self.matched + self.mismatched
    }

    pub open spec fn counted(self, outcome: ValidationOutcome) -> Self {
        let total = (self.total + 1) as u64;
        match outcome {
            ValidationOutcome::Matched => ValidationCounts {
                total,
                comparable: (self.comparable + 1) as u64,
                matched: (self.matched + 1) as u64,
                ..self
            },
            ValidationOutcome::Mismatched => ValidationCounts {
                total,
                comparable: (self.comparable + 1) as u64,
                mismatched: (self.mismatched + 1) as u64,
                ..self
            },
            ValidationOutcome::DataError => ValidationCounts {
                total,
                data_errors: (self.data_errors + 1) as u64,
                ..self
            },
            ValidationOutcome::MissingSource => ValidationCounts {
                total,
                missing_source: (self.missing_source + 1) as u64,
                ..self
            },
        }
    }

    #[must_use]
    pub fn new() -> (r: Self)
        ensures
            r == Self::zero(),
            r.consistent(),
    {
        ValidationCounts {
            total: 0,
            comparable: 0,
            matched: 0,
            mismatched: 0,
            data_errors: 0,
            missing_source: 0,
        }
    }

    pub fn observe(&mut self, outcome: ValidationOutcome)
        requires
            old(self).consistent(),
            old(self).total < u64::MAX,
        ensures
            *final(self) == old(self).counted(outcome),
            final(self).consistent(),
    {
        self.total = self.total + 1;
        match outcome {
            ValidationOutcome::Matched => {
                self.comparable = self.comparable + 1;
                self.matched = self.matched + 1;
            },
            ValidationOutcome::Mismatched => {
                self.comparable = self.comparable + 1;
                self.mismatched = self.mismatched + 1;
            },
            ValidationOutcome::DataError => {
                self.data_errors = self.data_errors + 1;
            },
            ValidationOutcome::MissingSource => {
                self.missing_source = self.missing_source + 1;
            },
        }
    }
}

/// How a run of a day ended.
#[derive(Clone, Copy, Debug, PartialEq, Eq, Structural)]
pub enum RunOutcome {
    Passed,
    NoEligibleReferences,
    Failed,
}

/// The coverage of one stage.
#[derive(Clone, Copy, Debug, PartialEq, Eq, Structural)]
pub struct CoverageCounts {
    pub symbols: u64,
    pub covered_symbols: u64,
    pub selected_references: u64,
}

impl CoverageCounts {
    pub open spec fn zero() -> Self {
        CoverageCounts { symbols: 0, covered_symbols: 0, selected_references: 0 }
    }

    /// The coverage with the references of one more symbol, where it can be counted.
    pub open spec fn counted(self, selected: u64) -> Option<Self> {
        if self.symbols == u64::MAX || self.covered_symbols == u64::MAX || self.selected_references
            + selected > u64::MAX {
            None
        } else {
            Some(
                CoverageCounts {
                    symbols: (self.symbols + 1) as u64,
                    covered_symbols: (self.covered_symbols + if selected > 0 {
                        1int
                    } else {
                        0
                    }) as u64,
                    selected_references: (self.selected_references + selected) as u64,
                },
            )
        }
    }
}

/// Which symbols and stages have references.
pub struct CoverageSummary {
    pub symbols: u64,
    pub symbols_with_selected_references: u64,
    pub symbols_without_reference_records: u64,
    pub symbols_without_eligible_references: u64,
    /// Key: market.instrument_class.anchor; includes zero-coverage stages.
    pub by_stage: SymbolMap<CoverageCounts>,
}

/// Which symbols and stages have references, with its collection as a mathematical one.
#[verifier::ext_equal]
pub struct CoverageModel {
    pub symbols: u64,
    pub symbols_with_selected_references: u64,
    pub symbols_without_reference_records: u64,
    pub symbols_without_eligible_references: u64,
    pub by_stage: Map<Seq<char>, CoverageCounts>,
}

impl View for CoverageSummary {
    type V = CoverageModel;

    open spec fn view(&self) -> CoverageModel {
        CoverageModel {
            symbols: self.symbols,
            symbols_with_selected_references: self.symbols_with_selected_references,
            symbols_without_reference_records: self.symbols_without_reference_records,
            symbols_without_eligible_references: self.symbols_without_eligible_references,
            by_stage: self.by_stage@,
        }
    }
}

/// The name of a stage.
pub open spec fn stage_name(market: Seq<char>, class: Seq<char>, anchor: ValidationAnchor) -> Seq<
    char,
> {
    market + "."@ + class + "."@ + anchor_name(anchor)
}

impl CoverageModel {
    pub open spec fn empty() -> Self {
        CoverageModel {
            symbols: 0,
            symbols_with_selected_references: 0,
            symbols_without_reference_records: 0,
            symbols_without_eligible_references: 0,
            by_stage: Map::empty(),
        }
    }

    /// Every symbol is counted once by what its references amount to.
    pub open spec fn consistent(self) -> bool {
        self.symbols == self.symbols_with_selected_references
            + self.symbols_without_reference_records + self.symbols_without_eligible_references
    }

    pub open spec fn stage(self, name: Seq<char>) -> CoverageCounts {
        if self.by_stage.contains_key(name) {
            self.by_stage[name]
        } else {
            CoverageCounts::zero()
        }
    }

    /// The coverage with one stage of a symbol more.
    pub open spec fn with_stage(
        self,
        market: Seq<char>,
        class: Seq<char>,
        anchor: ValidationAnchor,
        audit: SelectionModel,
    ) -> Option<Self> {
        let name = stage_name(market, class, anchor);
        match self.stage(name).counted(count_of(audit.selected_counts, anchor_name(anchor))) {
            Some(stage) => Some(
                CoverageModel { by_stage: self.by_stage.insert(name, stage), ..self },
            ),
            None => None,
        }
    }

    pub open spec fn with_symbol(self, coverage: ReferenceCoverage) -> Self {
        let counted = CoverageModel { symbols: (self.symbols + 1) as u64, ..self };
        match coverage {
            ReferenceCoverage::NoReferenceRecords => CoverageModel {
                symbols_without_reference_records: (self.symbols_without_reference_records
                    + 1) as u64,
                ..counted
            },
            ReferenceCoverage::NoEligibleReferences => CoverageModel {
                symbols_without_eligible_references: (self.symbols_without_eligible_references
                    + 1) as u64,
                ..counted
            },
            ReferenceCoverage::Selected => CoverageModel {
                symbols_with_selected_references: (self.symbols_with_selected_references
                    + 1) as u64,
                ..counted
            },
        }
    }

    /// The coverage with one symbol more, where it can be counted.
    pub open spec fn observed(
        self,
        market: Seq<char>,
        class: Seq<char>,
        audit: SelectionModel,
        pre_open_only: bool,
    ) -> Option<Self> {
        if self.symbols == u64::MAX {
            None
        } else {
            let opened = self.with_symbol(audit.coverage).with_stage(
                market,
                class,
                ValidationAnchor::PreOpen,
                audit,
            );
            if pre_open_only || opened is None {
                opened
            } else {
                let traded = opened->0.with_stage(
                    market,
                    class,
                    ValidationAnchor::ContinuousTrading,
                    audit,
                );
                match traded {
                    Some(traded) => traded.with_stage(
                        market,
                        class,
                        ValidationAnchor::MarketClose,
                        audit,
                    ),
                    None => None,
                }
            }
        }
    }
}

/// The error of a count that is too large.
pub open spec fn count_error() -> ErrorModel {
    ErrorModel::Arithmetic("report count"@)
}

pub(crate) fn too_many() -> (r: ProductionError)
    ensures
        r@ == count_error(),
{
    ProductionError::Arithmetic("report count")
}

impl CoverageSummary {
    pub open spec fn wf(self) -> bool {
        self.by_stage.wf() && self@.consistent()
    }

    #[must_use]
    pub fn new() -> (r: Self)
        ensures
            r.wf(),
            r@ == CoverageModel::empty(),
    {
        CoverageSummary {
            symbols: 0,
            symbols_with_selected_references: 0,
            symbols_without_reference_records: 0,
            symbols_without_eligible_references: 0,
            by_stage: SymbolMap::new(),
        }
    }

    fn observe_stage(
        &mut self,
        market: &str,
        class: &str,
        anchor: ValidationAnchor,
        audit: &SelectionAudit,
    ) -> (r: Result<(), ProductionError>)
        requires
            old(self).wf(),
            audit.wf(),
        ensures
            final(self).wf(),
            match old(self)@.with_stage(market@, class@, anchor, audit@) {
                Some(next) => r is Ok && final(self)@ == next,
                None => r is Err && r->Err_0@ == count_error(),
            },
    {
        let ghost before = self@;
        let selected: u64 = match audit.selected_counts.get(anchor_text(anchor)) {
            Some(count) => count,
            None => 0,
        };
        let mut name = String::from_str(market);
        name.append(".");
        name.append(class);
        name.append(".");
        name.append(anchor_text(anchor));
        if !self.by_stage.contains_key(name.as_str()) {
            self.by_stage.insert(
                name.as_str(),
                CoverageCounts { symbols: 0, covered_symbols: 0, selected_references: 0 },
            );
        }
        let stage = self.by_stage.get_mut(name.as_str());
        if stage.symbols == u64::MAX || stage.covered_symbols == u64::MAX || stage.selected_references
            > u64::MAX - selected {
            return Err(too_many());
        }
        let covered: u64 = if selected > 0 {
            1
        } else {
            0
        };
        *stage = CoverageCounts {
            symbols: stage.symbols + 1,
            covered_symbols: stage.covered_symbols + covered,
            selected_references: stage.selected_references + selected,
        };
        proof {
            let stage_now = before.stage(name@).counted(selected)->0;
            assert(self@.by_stage =~= before.by_stage.insert(name@, stage_now));
        }
        Ok(())
    }

    /// Counts the references of one more symbol.
    pub fn observe(
        &mut self,
        market: &str,
        class: &str,
        audit: &SelectionAudit,
        pre_open_only: bool,
    ) -> (r: Result<(), ProductionError>)
        requires
            old(self).wf(),
            audit.wf(),
        ensures
            final(self).wf(),
            match old(self)@.observed(market@, class@, audit@, pre_open_only) {
                Some(next) => r is Ok && final(self)@ == next,
                None => r is Err && r->Err_0@ == count_error(),
            },
    {
        if self.symbols == u64::MAX {
            return Err(too_many());
        }
        self.symbols = self.symbols + 1;
        match audit.coverage {
            ReferenceCoverage::NoReferenceRecords => {
                self.symbols_without_reference_records = self.symbols_without_reference_records
                    + 1;
            },
            ReferenceCoverage::NoEligibleReferences => {
                self.symbols_without_eligible_references = self.symbols_without_eligible_references
                    + 1;
            },
            ReferenceCoverage::Selected => {
                self.symbols_with_selected_references = self.symbols_with_selected_references + 1;
            },
        }
        match self.observe_stage(market, class, ValidationAnchor::PreOpen, audit) {
            Ok(()) => {},
            Err(error) => return Err(error),
        }
        if pre_open_only {
            return Ok(());
        }
        match self.observe_stage(market, class, ValidationAnchor::ContinuousTrading, audit) {
            Ok(()) => {},
            Err(error) => return Err(error),
        }
        self.observe_stage(market, class, ValidationAnchor::MarketClose, audit)
    }
}

/// A count with one occurrence more, where it can be counted.
pub open spec fn bumped(counts: Map<Seq<char>, u64>, text: Seq<char>) -> Option<
    Map<Seq<char>, u64>,
> {
    if is_full(counts, text) {
        None
    } else {
        Some(incremented(counts, text))
    }
}

/// A count with the occurrences of the fields of differences.
pub open spec fn bumped_fields(
    counts: Map<Seq<char>, u64>,
    differences: Seq<DifferenceModel>,
) -> Option<Map<Seq<char>, u64>>
    decreases differences.len(),
{
    if differences.len() == 0 {
        Some(counts)
    } else {
        match bumped(counts, differences[0].field) {
            Some(next) => bumped_fields(next, differences.drop_first()),
            None => None,
        }
    }
}

pub(crate) fn bump_text(counts: &mut CountMap, text: &str) -> (r: Result<(), ProductionError>)
    requires
        old(counts).wf(),
    ensures
        final(counts).wf(),
        match bumped(old(counts)@, text@) {
            Some(next) => r is Ok && final(counts)@ == next,
            None => r is Err && r->Err_0@ == count_error(),
        },
{
    if let Some(count) = counts.get(text) {
        if count == u64::MAX {
            return Err(too_many());
        }
    }
    counts.increment(text);
    Ok(())
}

/// Counts of a report.
pub struct ReportCounts {
    pub totals: ValidationCounts,
    pub breakdown: SymbolMap<ValidationCounts>,
    pub mismatch_fields: CountMap,
    pub mismatch_reasons: CountMap,
    pub failure_reasons: CountMap,
    pub mismatched_symbols: SymbolMap<bool>,
    pub match_tags: CountMap,
}

/// Counts of a report, with its collections as mathematical ones.
#[verifier::ext_equal]
pub struct CountsModel {
    pub totals: ValidationCounts,
    pub breakdown: Map<Seq<char>, ValidationCounts>,
    pub mismatch_fields: Map<Seq<char>, u64>,
    pub mismatch_reasons: Map<Seq<char>, u64>,
    pub failure_reasons: Map<Seq<char>, u64>,
    pub mismatched_symbols: Set<Seq<char>>,
    pub match_tags: Map<Seq<char>, u64>,
}

impl View for ReportCounts {
    type V = CountsModel;

    open spec fn view(&self) -> CountsModel {
        CountsModel {
            totals: self.totals,
            breakdown: self.breakdown@,
            mismatch_fields: self.mismatch_fields@,
            mismatch_reasons: self.mismatch_reasons@,
            failure_reasons: self.failure_reasons@,
            mismatched_symbols: self.mismatched_symbols@.dom(),
            match_tags: self.match_tags@,
        }
    }
}

pub open spec fn class_stage(class: Seq<char>, anchor: ValidationAnchor) -> Seq<char> {
    class + "."@ + anchor_name(anchor)
}

pub open spec fn turnover_tag() -> Seq<char> {
    "MISSING_RECEPTION_TURNOVER_12_DIGITS"@
}

pub open spec fn upper_limit_tag() -> Seq<char> {
    "MISSING_RECEPTION_SZ_UPPER_LIMIT_SENTINEL"@
}

/// A count with one occurrence more of a text that may be there.
pub open spec fn bumped_if(
    counts: Option<Map<Seq<char>, u64>>,
    wanted: bool,
    text: Option<Seq<char>>,
) -> Option<Map<Seq<char>, u64>> {
    if counts is Some && wanted && text is Some {
        bumped(counts->0, text->0)
    } else {
        counts
    }
}

impl CountsModel {
    pub open spec fn empty() -> Self {
        CountsModel {
            totals: ValidationCounts::zero(),
            breakdown: Map::empty(),
            mismatch_fields: Map::empty(),
            mismatch_reasons: Map::empty(),
            failure_reasons: Map::empty(),
            mismatched_symbols: Set::empty(),
            match_tags: Map::empty(),
        }
    }

    pub open spec fn stage(self, name: Seq<char>) -> ValidationCounts {
        if self.breakdown.contains_key(name) {
            self.breakdown[name]
        } else {
            ValidationCounts::zero()
        }
    }

    /// The counts with one reference more, where it can be counted.
    pub open spec fn observed(
        self,
        class: Seq<char>,
        symbol: Seq<char>,
        anchor: ValidationAnchor,
        outcome: ValidationOutcome,
        reason: Option<Seq<char>>,
        differences: Seq<DifferenceModel>,
    ) -> Option<Self> {
        let name = class_stage(class, anchor);
        let mismatched = outcome == ValidationOutcome::Mismatched;
        let fields = if mismatched {
            bumped_fields(self.mismatch_fields, differences)
        } else {
            Some(self.mismatch_fields)
        };
        let mismatch_reasons = bumped_if(Some(self.mismatch_reasons), mismatched, reason);
        let failure_reasons = bumped_if(
            Some(self.failure_reasons),
            outcome != ValidationOutcome::Matched,
            reason,
        );
        if self.totals.total == u64::MAX || self.stage(name).total == u64::MAX || fields is None
            || mismatch_reasons is None || failure_reasons is None {
            None
        } else {
            Some(
                CountsModel {
                    totals: self.totals.counted(outcome),
                    breakdown: self.breakdown.insert(name, self.stage(name).counted(outcome)),
                    mismatch_fields: fields->0,
                    mismatch_reasons: mismatch_reasons->0,
                    failure_reasons: failure_reasons->0,
                    mismatched_symbols: if mismatched {
                        self.mismatched_symbols.insert(symbol)
                    } else {
                        self.mismatched_symbols
                    },
                    ..self
                },
            )
        }
    }

    /// The counts with the rules by which a reference matched.
    pub open spec fn tagged(
        self,
        tag: Option<Seq<char>>,
        turnover: bool,
        upper_limit: bool,
    ) -> Option<Self> {
        let tags = bumped_if(Some(self.match_tags), true, tag);
        let tags = bumped_if(tags, turnover, Some(turnover_tag()));
        match bumped_if(tags, upper_limit, Some(upper_limit_tag())) {
            Some(match_tags) => Some(CountsModel { match_tags, ..self }),
            None => None,
        }
    }
}

impl ReportCounts {
    pub open spec fn wf(self) -> bool {
        &&& self.totals.consistent()
        &&& self.breakdown.wf()
        &&& forall|name: Seq<char>| #[trigger]
            self.breakdown@.contains_key(name) ==> self.breakdown@[name].consistent()
        &&& self.mismatch_fields.wf()
        &&& self.mismatch_reasons.wf()
        &&& self.failure_reasons.wf()
        &&& self.mismatched_symbols.wf()
        &&& self.match_tags.wf()
    }

    #[must_use]
    pub fn new() -> (r: Self)
        ensures
            r.wf(),
            r@ == CountsModel::empty(),
    {
        let r = ReportCounts {
            totals: ValidationCounts::new(),
            breakdown: SymbolMap::new(),
            mismatch_fields: CountMap::new(),
            mismatch_reasons: CountMap::new(),
            failure_reasons: CountMap::new(),
            mismatched_symbols: SymbolMap::new(),
            match_tags: CountMap::new(),
        };
        assert(r@ =~= CountsModel::empty());
        r
    }

    fn observe_stage(&mut self, class: &str, anchor: ValidationAnchor, outcome: ValidationOutcome)
        -> (r: Result<(), ProductionError>)
        requires
            old(self).wf(),
        ensures
            final(self).wf(),
            ({
                let name = class_stage(class@, anchor);
                let stage = old(self)@.stage(name);
                if stage.total == u64::MAX {
                    r is Err && r->Err_0@ == count_error()
                } else {
                    r is Ok && final(self)@ == (CountsModel {
                        breakdown: old(self)@.breakdown.insert(name, stage.counted(outcome)),
                        ..old(self)@
                    })
                }
            }),
    {
        let ghost before = *self;
        let mut name = String::from_str(class);
        name.append(".");
        name.append(anchor_text(anchor));
        if !self.breakdown.contains_key(name.as_str()) {
            self.breakdown.insert(name.as_str(), ValidationCounts::new());
        }
        let ghost middle = self.breakdown@;
        let stage = self.breakdown.get_mut(name.as_str());
        if stage.total == u64::MAX {
            return Err(too_many());
        }
        stage.observe(outcome);
        proof {
            assert(self@.breakdown =~= before@.breakdown.insert(
                name@,
                before@.stage(name@).counted(outcome),
            ));
            assert forall|other: Seq<char>| #[trigger] self.breakdown@.contains_key(
                other,
            ) implies self.breakdown@[other].consistent() by {
                if other != name@ {
                    assert(before.breakdown@.contains_key(other));
                }
            }
        }
        Ok(())
    }

    fn observe_fields(&mut self, differences: &Vec<FieldDifference>, Ghost(models): Ghost<
        Seq<DifferenceModel>,
    >) -> (r: Result<(), ProductionError>)
        requires
            old(self).wf(),
            models == difference_views(differences@),
        ensures
            final(self).wf(),
            match bumped_fields(old(self)@.mismatch_fields, models) {
                Some(fields) => r is Ok && final(self)@ == (CountsModel {
                    mismatch_fields: fields,
                    ..old(self)@
                }),
                None => r is Err && r->Err_0@ == count_error(),
            },
    {
        let mut at: usize = 0;
        assert(models.skip(0) =~= models);
        while at < differences.len()
            invariant
                self.wf(),
                models == difference_views(differences@),
                at <= differences@.len(),
                self@ == (CountsModel { mismatch_fields: self@.mismatch_fields, ..old(self)@ }),
                bumped_fields(old(self)@.mismatch_fields, models) == bumped_fields(
                    self@.mismatch_fields,
                    models.skip(at as int),
                ),
            decreases differences@.len() - at,
        {
            proof {
                assert(models.skip(at as int)[0] == differences@[at as int]@);
                assert(models.skip(at as int).drop_first() =~= models.skip(at + 1));
            }
            match bump_text(&mut self.mismatch_fields, differences[at].field.as_str()) {
                Ok(()) => {},
                Err(error) => return Err(error),
            }
            at = at + 1;
        }
        Ok(())
    }

    /// Counts one reference more.
    pub fn observe(
        &mut self,
        class: &str,
        symbol: &str,
        anchor: ValidationAnchor,
        outcome: ValidationOutcome,
        reason: &Option<String>,
        differences: &Vec<FieldDifference>,
    ) -> (r: Result<(), ProductionError>)
        requires
            old(self).wf(),
        ensures
            final(self).wf(),
            match old(self)@.observed(
                class@,
                symbol@,
                anchor,
                outcome,
                text_view(*reason),
                difference_views(differences@),
            ) {
                Some(next) => r is Ok && final(self)@ == next,
                None => r is Err && r->Err_0@ == count_error(),
            },
    {
        let ghost before = self@;
        let ghost models = difference_views(differences@);
        if self.totals.total == u64::MAX {
            return Err(too_many());
        }
        self.totals.observe(outcome);
        match self.observe_stage(class, anchor, outcome) {
            Ok(()) => {},
            Err(error) => return Err(error),
        }
        if outcome == ValidationOutcome::Mismatched {
            if !self.mismatched_symbols.contains_key(symbol) {
                self.mismatched_symbols.insert(symbol, true);
            }
            assert(self@.mismatched_symbols =~= before.mismatched_symbols.insert(symbol@));
            match self.observe_fields(differences, Ghost(models)) {
                Ok(()) => {},
                Err(error) => return Err(error),
            }
            if let Some(reason) = reason {
                match bump_text(&mut self.mismatch_reasons, reason.as_str()) {
                    Ok(()) => {},
                    Err(error) => return Err(error),
                }
            }
        }
        if outcome != ValidationOutcome::Matched {
            if let Some(reason) = reason {
                match bump_text(&mut self.failure_reasons, reason.as_str()) {
                    Ok(()) => {},
                    Err(error) => return Err(error),
                }
            }
        }
        Ok(())
    }

    /// Counts the rules by which a reference matched.
    pub fn observe_match_tags(&mut self, tag: Option<&str>, turnover: bool, upper_limit: bool) -> (r:
        Result<(), ProductionError>)
        requires
            old(self).wf(),
        ensures
            final(self).wf(),
            match old(self)@.tagged(
                match tag {
                    Some(tag) => Some(tag@),
                    None => None,
                },
                turnover,
                upper_limit,
            ) {
                Some(next) => r is Ok && final(self)@ == next,
                None => r is Err && r->Err_0@ == count_error(),
            },
    {
        if let Some(tag) = tag {
            match bump_text(&mut self.match_tags, tag) {
                Ok(()) => {},
                Err(error) => return Err(error),
            }
        }
        if turnover {
            match bump_text(&mut self.match_tags, "MISSING_RECEPTION_TURNOVER_12_DIGITS") {
                Ok(()) => {},
                Err(error) => return Err(error),
            }
        }
        if upper_limit {
            match bump_text(&mut self.match_tags, "MISSING_RECEPTION_SZ_UPPER_LIMIT_SENTINEL") {
                Ok(()) => {},
                Err(error) => return Err(error),
            }
        }
        Ok(())
    }
}

} // verus!
