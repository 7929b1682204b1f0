//! The windows in which a book is compared with the references of its symbol.

use vstd::prelude::*;

use crate::market_data::Market;
use crate::order_book::revision_next;

use super::super::error::{ErrorModel, ProductionError};
use super::super::replay::ObservationPoint;
use super::super::types::ValidationAnchor;
use super::candidate::{
    changes_leave_the_cache_behind, compare_candidate, limits_view,
    open_references_match_what_agrees, reference_mask, rules_fit, scalar_view, tracker_view,
    AnchorModel, CacheModel, CandidateCache, CandidateContext, Compared, ContextModel,
    ReferenceModel, ReferenceSnapshot,
};
use super::close_range::{DayLimits, LimitsModel};
use super::rules::{
    price_quantum, SymbolValidationRules, REFERENCE_MILLISECOND_NS, REFERENCE_SECOND_NS,
};
use super::sz_close_price::{SzClosePriceTracker, TrackerModel};

verus! {

/// The references of a symbol.
pub struct SymbolReferences {
    pub pre_open: Option<ReferenceSnapshot>,
    pub continuous_trading: Vec<ReferenceSnapshot>,
    pub market_close: Option<ReferenceSnapshot>,
}

/// The references of a symbol, with lists as sequences.
#[verifier::ext_equal]
pub struct ReferencesModel {
    pub pre_open: Option<ReferenceModel>,
    pub continuous_trading: Seq<ReferenceModel>,
    pub market_close: Option<ReferenceModel>,
}

pub open spec fn reference_view(reference: Option<ReferenceSnapshot>) -> Option<ReferenceModel> {
    match reference {
        Some(reference) => Some(reference@),
        None => None,
    }
}

pub open spec fn reference_views(references: Seq<ReferenceSnapshot>) -> Seq<ReferenceModel> {
    references.map_values(|reference: ReferenceSnapshot| reference@)
}

impl View for SymbolReferences {
    type V = ReferencesModel;

    open spec fn view(&self) -> ReferencesModel {
        ReferencesModel {
            pre_open: reference_view(self.pre_open),
            continuous_trading: reference_views(self.continuous_trading@),
            market_close: reference_view(self.market_close),
        }
    }
}

impl ReferencesModel {
    pub open spec fn empty() -> Self {
        ReferencesModel { pre_open: None, continuous_trading: Seq::empty(), market_close: None }
    }
}

impl Default for SymbolReferences {
    fn default() -> (r: Self)
        ensures
            r@ == ReferencesModel::empty(),
    {
        let r = SymbolReferences {
            pre_open: None,
            continuous_trading: Vec::new(),
            market_close: None,
        };
        assert(r@ =~= ReferencesModel::empty());
        r
    }
}

impl SymbolReferences {
    /// The reference of an anchor at a time, among references in ascending order of time.
    pub fn get(&self, anchor: ValidationAnchor, time_ns: i64) -> (r: Option<&ReferenceSnapshot>)
        ensures
            match anchor {
                ValidationAnchor::PreOpen => match self.pre_open {
                    Some(reference) if reference.time_ns == time_ns => r is Some && *r->0
                        == reference,
                    _ => r is None,
                },
                ValidationAnchor::MarketClose => match self.market_close {
                    Some(reference) if reference.time_ns == time_ns => r is Some && *r->0
                        == reference,
                    _ => r is None,
                },
                ValidationAnchor::ContinuousTrading => {
                    if r is Some {
                        self.continuous_trading@.contains(*r->0) && r->0.time_ns == time_ns
                    } else {
                        forall|i: int|
                            0 <= i < self.continuous_trading@.len() ==> (
                            #[trigger] self.continuous_trading@[i]).time_ns != time_ns
                    }
                },
            },
    {
        match anchor {
            ValidationAnchor::PreOpen => match &self.pre_open {
                Some(reference) => if reference.time_ns == time_ns {
                    Some(reference)
                } else {
                    None
                },
                None => None,
            },
            ValidationAnchor::MarketClose => match &self.market_close {
                Some(reference) => if reference.time_ns == time_ns {
                    Some(reference)
                } else {
                    None
                },
                None => None,
            },
            ValidationAnchor::ContinuousTrading => {
                let mut at: usize = 0;
                while at < self.continuous_trading.len()
                    invariant
                        anchor == ValidationAnchor::ContinuousTrading,
                        at <= self.continuous_trading@.len(),
                        forall|i: int|
                            0 <= i < at ==> (#[trigger] self.continuous_trading@[i]).time_ns
                                != time_ns,
                    decreases self.continuous_trading@.len() - at,
                {
                    if self.continuous_trading[at].time_ns == time_ns {
                        assert(self.continuous_trading@.contains(
                            self.continuous_trading@[at as int],
                        ));
                        return Some(&self.continuous_trading[at]);
                    }
                    at = at + 1;
                }
                None
            },
        }
    }
}

/// What is known of a symbol while its books are compared.
pub struct SymbolValidationState {
    pub rules: Option<SymbolValidationRules>,
    pub limits: Option<DayLimits>,
    pub cache: CandidateCache,
    pub references: SymbolReferences,
    pub continuous_position: usize,
    pub seen: bool,
    pub close_price: Option<SzClosePriceTracker>,
    pub channel: Option<u32>,
}

/// What is known of a symbol, with its collections as mathematical ones.
#[verifier::ext_equal]
pub struct SymbolModel {
    pub rules: Option<SymbolValidationRules>,
    pub limits: Option<LimitsModel>,
    pub cache: CacheModel,
    pub references: ReferencesModel,
    pub continuous_position: usize,
    pub seen: bool,
    pub close_price: Option<TrackerModel>,
    pub channel: Option<u32>,
}

impl View for SymbolValidationState {
    type V = SymbolModel;

    open spec fn view(&self) -> SymbolModel {
        SymbolModel {
            rules: self.rules,
            limits: limits_view(self.limits),
            cache: self.cache@,
            references: self.references@,
            continuous_position: self.continuous_position,
            seen: self.seen,
            close_price: tracker_view(self.close_price),
            channel: self.channel,
        }
    }
}

impl SymbolModel {
    /// A symbol with references of which nothing is known yet.
    pub open spec fn of(references: ReferencesModel) -> Self {
        SymbolModel {
            rules: None,
            limits: None,
            cache: CacheModel::empty(),
            references,
            continuous_position: 0,
            seen: false,
            close_price: None,
            channel: None,
        }
    }

    pub open spec fn fresh() -> Self {
        Self::of(ReferencesModel::empty())
    }
}

/// The windows of references.
#[derive(Clone, Copy, Debug, PartialEq, Eq, Structural)]
pub struct WindowConfig {
    pub pre_open_only: bool,
    pub lookback_ns: i64,
    pub lookahead_ns: i64,
}

impl WindowConfig {
    /// Windows look back at most a second, and ahead between a millisecond and three seconds.
    pub open spec fn wf(self) -> bool {
        &&& 0 <= self.lookback_ns <= REFERENCE_SECOND_NS
        &&& REFERENCE_MILLISECOND_NS <= self.lookahead_ns <= 3 * REFERENCE_SECOND_NS
    }
}

/// The time of an event, and whether the event is still to come.
pub open spec fn timed(point: ObservationPoint) -> Option<(i64, bool)> {
    match point {
        ObservationPoint::BeforeEvent(time) => Some((time, true)),
        ObservationPoint::AfterEvent(time) => Some((time, false)),
        _ => None,
    }
}

/// The time of a candidate: its own, or the last millisecond of a window that has passed.
pub open spec fn candidate_time(time: i64, end: int) -> i64 {
    if time >= end {
        (end - REFERENCE_MILLISECOND_NS) as i64
    } else {
        time
    }
}

impl ReferenceModel {
    /// The reference with the outcome of a comparison.
    pub open spec fn after(self, compared: Compared) -> Self {
        ReferenceModel { state: compared.state, ..self }
    }

    /// The reference, final if its window has passed.
    pub open spec fn closed_if(self, passed: bool) -> Self {
        ReferenceModel {
            state: AnchorModel { finalized: self.state.finalized || passed, ..self.state },
            ..self
        }
    }
}

impl ContextModel {
    /// The comparison of an event with a reference whose window ends at a time. A state before
    /// an event counts for the window that the event leaves behind.
    pub open spec fn compared_in_window(
        self,
        reference: ReferenceModel,
        cache: CacheModel,
        anchor: ValidationAnchor,
        end: int,
        time: i64,
        before: bool,
    ) -> Compared {
        if time < end || before {
            self.compared(reference, cache, anchor, Some(candidate_time(time, end)))
        } else {
            Compared { state: reference.state, cache, error: None }
        }
    }
}

/// What an observation leaves of a single reference.
pub struct SingleStep {
    pub reference: Option<ReferenceModel>,
    pub cache: CacheModel,
    pub error: Option<ErrorModel>,
}

/// What an observation leaves of the reference before the open. Its window is the second
/// after its time.
pub open spec fn pre_open_step(
    ctx: ContextModel,
    reference: Option<ReferenceModel>,
    cache: CacheModel,
    point: ObservationPoint,
) -> SingleStep {
    let unchanged = SingleStep { reference, cache, error: None };
    if reference is None {
        unchanged
    } else {
        let r = reference->0;
        let end = r.time_ns + REFERENCE_SECOND_NS;
        if end > i64::MAX {
            SingleStep {
                error: Some(ErrorModel::Arithmetic("reference candidate window"@)),
                ..unchanged
            }
        } else if timed(point) is Some {
            let (time, before) = timed(point)->0;
            let compared = if time >= r.time_ns {
                ctx.compared_in_window(r, cache, ValidationAnchor::PreOpen, end, time, before)
            } else {
                Compared { state: r.state, cache, error: None }
            };
            SingleStep {
                reference: Some(
                    r.after(compared).closed_if(compared.error is None && time >= end),
                ),
                cache: compared.cache,
                error: compared.error,
            }
        } else if point == ObservationPoint::ChannelFinished {
            let compared = ctx.compared(
                r,
                cache,
                ValidationAnchor::PreOpen,
                Some((end - REFERENCE_MILLISECOND_NS) as i64),
            );
            SingleStep {
                reference: Some(r.after(compared).closed_if(compared.error is None)),
                cache: compared.cache,
                error: compared.error,
            }
        } else {
            unchanged
        }
    }
}

/// What an observation leaves of the reference of the close.
pub open spec fn close_step(
    ctx: ContextModel,
    reference: Option<ReferenceModel>,
    cache: CacheModel,
    boundary: i64,
) -> SingleStep {
    match reference {
        Some(r) => {
            let compared = ctx.compared(r, cache, ValidationAnchor::MarketClose, Some(boundary));
            SingleStep {
                reference: Some(r.after(compared).closed_if(compared.error is None)),
                cache: compared.cache,
                error: compared.error,
            }
        },
        None => SingleStep { reference, cache, error: None },
    }
}

/// What an observation leaves of the references of continuous trading.
#[verifier::ext_equal]
pub struct Walk {
    pub references: Seq<ReferenceModel>,
    pub cache: CacheModel,
    pub position: int,
    pub error: Option<ErrorModel>,
}

/// Compares an event with the references from a place on, up to the first whose window is
/// still to come. The position is the first reference that is not final.
pub open spec fn walked(
    ctx: ContextModel,
    windows: WindowConfig,
    time: i64,
    before: bool,
    references: Seq<ReferenceModel>,
    cache: CacheModel,
    at: int,
    first_pending: Option<int>,
) -> Walk
    decreases references.len() - at,
{
    let position = if first_pending is Some {
        first_pending->0
    } else {
        at
    };
    let stopped = Walk { references, cache, position, error: None };
    if at < 0 || at >= references.len() {
        stopped
    } else {
        let r = references[at];
        let start = r.time_ns - windows.lookback_ns;
        let end = r.time_ns + windows.lookahead_ns;
        if start < i64::MIN {
            Walk {
                error: Some(ErrorModel::Arithmetic("continuous reference window start"@)),
                ..stopped
            }
        } else if time < start {
            stopped
        } else if end > i64::MAX {
            Walk {
                error: Some(ErrorModel::Arithmetic("continuous reference second"@)),
                ..stopped
            }
        } else {
            let compared = ctx.compared_in_window(
                r,
                cache,
                ValidationAnchor::ContinuousTrading,
                end,
                time,
                before,
            );
            let next = r.after(compared).closed_if(compared.error is None && time >= end);
            if compared.error is Some {
                Walk {
                    references: references.update(at, next),
                    cache: compared.cache,
                    error: compared.error,
                    ..stopped
                }
            } else {
                walked(
                    ctx,
                    windows,
                    time,
                    before,
                    references.update(at, next),
                    compared.cache,
                    at + 1,
                    if first_pending is None && !next.state.finalized {
                        Some(at)
                    } else {
                        first_pending
                    },
                )
            }
        }
    }
}

/// Compares the last state with the references from a place on, which are then final.
pub open spec fn finished(
    ctx: ContextModel,
    windows: WindowConfig,
    references: Seq<ReferenceModel>,
    cache: CacheModel,
    at: int,
) -> Walk
    decreases references.len() - at,
{
    let stopped = Walk { references, cache, position: at, error: None };
    if at < 0 || at >= references.len() {
        stopped
    } else {
        let r = references[at];
        let time = r.time_ns + (windows.lookahead_ns - REFERENCE_MILLISECOND_NS);
        if time > i64::MAX {
            Walk {
                error: Some(ErrorModel::Arithmetic("continuous reference candidate time"@)),
                ..stopped
            }
        } else {
            let compared = ctx.compared(
                r,
                cache,
                ValidationAnchor::ContinuousTrading,
                Some(time as i64),
            );
            let next = r.after(compared).closed_if(compared.error is None);
            if compared.error is Some {
                Walk {
                    references: references.update(at, next),
                    cache: compared.cache,
                    error: compared.error,
                    ..stopped
                }
            } else {
                finished(ctx, windows, references.update(at, next), compared.cache, at + 1)
            }
        }
    }
}

/// What an observation leaves of a symbol.
pub struct SymbolStep {
    pub state: SymbolModel,
    pub error: Option<ErrorModel>,
}

impl SymbolModel {
    /// The context of a comparison, with the limits and trades of the symbol.
    pub open spec fn context(self, ctx: ContextModel) -> ContextModel {
        ContextModel { limits: self.limits, close_price: self.close_price, ..ctx }
    }

    pub open spec fn with_pre_open(self, step: SingleStep) -> Self {
        SymbolModel {
            references: ReferencesModel { pre_open: step.reference, ..self.references },
            cache: step.cache,
            ..self
        }
    }

    pub open spec fn with_close(self, step: SingleStep) -> Self {
        SymbolModel {
            references: ReferencesModel { market_close: step.reference, ..self.references },
            cache: step.cache,
            ..self
        }
    }

    /// The symbol after a walk. The position moves on where the walk came to its end.
    pub open spec fn with_walk(self, walk: Walk) -> Self {
        SymbolModel {
            references: ReferencesModel {
                continuous_trading: walk.references,
                ..self.references
            },
            cache: walk.cache,
            continuous_position: if walk.error is None {
                walk.position as usize
            } else {
                self.continuous_position
            },
            ..self
        }
    }

    /// What an observation leaves after the reference before the open.
    pub open spec fn later_step(
        self,
        ctx: ContextModel,
        point: ObservationPoint,
        windows: WindowConfig,
    ) -> SymbolStep {
        match point {
            ObservationPoint::MarketClose(boundary) => {
                let step = close_step(ctx, self.references.market_close, self.cache, boundary);
                SymbolStep { state: self.with_close(step), error: step.error }
            },
            ObservationPoint::ChannelFinished => {
                let walk = finished(
                    ctx,
                    windows,
                    self.references.continuous_trading,
                    self.cache,
                    self.continuous_position as int,
                );
                SymbolStep { state: self.with_walk(walk), error: walk.error }
            },
            _ => {
                let (time, before) = timed(point)->0;
                let walk = walked(
                    ctx,
                    windows,
                    time,
                    before,
                    self.references.continuous_trading,
                    self.cache,
                    self.continuous_position as int,
                    None,
                );
                SymbolStep { state: self.with_walk(walk), error: walk.error }
            },
        }
    }

    /// What an observation leaves of a symbol.
    pub open spec fn observed(
        self,
        outer: ContextModel,
        point: ObservationPoint,
        windows: WindowConfig,
    ) -> SymbolStep {
        let ctx = self.context(outer);
        let opening = pre_open_step(ctx, self.references.pre_open, self.cache, point);
        let opened = self.with_pre_open(opening);
        if opening.error is Some || windows.pre_open_only {
            SymbolStep { state: opened, error: opening.error }
        } else {
            opened.later_step(ctx, point, windows)
        }
    }
}

/// The walk ends at a place among the references.
proof fn lemma_walk_position(
    ctx: ContextModel,
    windows: WindowConfig,
    time: i64,
    before: bool,
    references: Seq<ReferenceModel>,
    cache: CacheModel,
    at: int,
    first_pending: Option<int>,
)
    requires
        0 <= at <= references.len(),
        first_pending matches Some(pending) ==> 0 <= pending <= at,
    ensures
        ({
            let walk = walked(ctx, windows, time, before, references, cache, at, first_pending);
            &&& walk.references.len() == references.len()
            &&& 0 <= walk.position <= references.len()
        }),
    decreases references.len() - at,
{
    if at < references.len() {
        let r = references[at];
        let end = r.time_ns + windows.lookahead_ns;
        let compared = ctx.compared_in_window(
            r,
            cache,
            ValidationAnchor::ContinuousTrading,
            end,
            time,
            before,
        );
        let next = r.after(compared).closed_if(compared.error is None && time >= end);
        lemma_walk_position(
            ctx,
            windows,
            time,
            before,
            references.update(at, next),
            compared.cache,
            at + 1,
            if first_pending is None && !next.state.finalized {
                Some(at)
            } else {
                first_pending
            },
        );
    }
}

/// Whether the references before a place are final.
pub open spec fn final_before(references: Seq<ReferenceModel>, place: int) -> bool {
    forall|i: int|
        0 <= i < place && i < references.len() ==> (#[trigger] references[i]).state.finalized
}

/// Every reference before the position that a walk leaves is final: later events need not look
/// at it again.
pub proof fn walks_leave_only_final_references_behind(
    ctx: ContextModel,
    windows: WindowConfig,
    time: i64,
    before: bool,
    references: Seq<ReferenceModel>,
    cache: CacheModel,
    at: int,
    first_pending: Option<int>,
)
    requires
        0 <= at <= references.len(),
        match first_pending {
            Some(pending) => pending <= at && final_before(references, pending),
            None => final_before(references, at),
        },
    ensures
        ({
            let walk = walked(ctx, windows, time, before, references, cache, at, first_pending);
            walk.error is None ==> final_before(walk.references, walk.position)
        }),
    decreases references.len() - at,
{
    if at < references.len() {
        let r = references[at];
        let end = r.time_ns + windows.lookahead_ns;
        let compared = ctx.compared_in_window(
            r,
            cache,
            ValidationAnchor::ContinuousTrading,
            end,
            time,
            before,
        );
        let next = r.after(compared).closed_if(compared.error is None && time >= end);
        walks_leave_only_final_references_behind(
            ctx,
            windows,
            time,
            before,
            references.update(at, next),
            compared.cache,
            at + 1,
            if first_pending is None && !next.state.finalized {
                Some(at)
            } else {
                first_pending
            },
        );
    }
}

/// Once a channel has come to its end, every reference of continuous trading is final.
pub proof fn finished_references_are_final(
    ctx: ContextModel,
    windows: WindowConfig,
    references: Seq<ReferenceModel>,
    cache: CacheModel,
    at: int,
)
    requires
        0 <= at <= references.len(),
        final_before(references, at),
    ensures
        ({
            let walk = finished(ctx, windows, references, cache, at);
            walk.error is None ==> final_before(walk.references, references.len() as int)
                && walk.references.len() == references.len()
        }),
    decreases references.len() - at,
{
    if at < references.len() {
        let r = references[at];
        let time = r.time_ns + (windows.lookahead_ns - REFERENCE_MILLISECOND_NS);
        let compared = ctx.compared(
            r,
            cache,
            ValidationAnchor::ContinuousTrading,
            Some(time as i64),
        );
        let next = r.after(compared).closed_if(compared.error is None);
        if time <= i64::MAX && compared.error is None {
            finished_references_are_final(
                ctx,
                windows,
                references.update(at, next),
                compared.cache,
                at + 1,
            );
        }
    }
}

/// A symbol whose only reference is one of continuous trading that is still to be decided.
pub open spec fn awaits(state: SymbolModel, reference: ReferenceModel) -> bool {
    &&& state.references.pre_open is None
    &&& state.references.continuous_trading == seq![reference]
    &&& state.continuous_position == 0
    &&& reference.view is Some
    &&& !reference.state.matched
    &&& !reference.state.finalized
}

/// The window of a reference of continuous trading is half open. Where an event makes a book
/// agree with the reference, the reference is matched by it if and only if the event comes no
/// earlier than the window looks back and before the window has passed; the match then bears
/// the time of the event.
pub proof fn windows_are_half_open(
    state: SymbolModel,
    reference: ReferenceModel,
    before: ContextModel,
    after: ContextModel,
    windows: WindowConfig,
    time: i64,
)
    requires
        windows.wf(),
        !windows.pre_open_only,
        i64::MIN <= reference.time_ns - windows.lookback_ns,
        reference.time_ns + windows.lookahead_ns <= i64::MAX,
        awaits(state, reference),
        before.rules == after.rules,
        scalar_view(before.book, before.rules.price_quantum) is Ok,
        scalar_view(after.book, after.rules.price_quantum) is Ok,
        state.cache.tracks(before.book, before.rules.price_quantum),
        after.book.revision == revision_next(before.book.revision),
        !before.agrees(reference),
        after.agrees(reference),
    ensures
        ({
            let first = state.observed(before, ObservationPoint::BeforeEvent(time), windows);
            let last = first.state.observed(after, ObservationPoint::AfterEvent(time), windows);
            let decided = last.state.references.continuous_trading[0].state;
            &&& first.error is None
            &&& last.error is None
            &&& last.state.references.continuous_trading.len() == 1
            &&& decided.matched <==> reference.time_ns - windows.lookback_ns <= time
                < reference.time_ns + windows.lookahead_ns
            &&& decided.matched ==> decided.matched_candidate_time_ns == Some(time)
        }),
{
    reveal_with_fuel(walked, 2);
    let start = reference.time_ns - windows.lookback_ns;
    let end = reference.time_ns + windows.lookahead_ns;
    let anchor = ValidationAnchor::ContinuousTrading;
    let inner = state.context(before);
    let first = state.observed(before, ObservationPoint::BeforeEvent(time), windows);
    let outer = first.state.context(after);
    assert(inner.agrees(reference) == before.agrees(reference));
    if time >= start {
        open_references_match_what_agrees(
            inner,
            reference,
            state.cache,
            anchor,
            Some(candidate_time(time, end)),
        );
        let seen = first.state.references.continuous_trading[0];
        assert(!seen.state.matched);
        assert(seen.state.finalized <==> time >= end);
        if time < end {
            assert(outer.agrees(seen) == after.agrees(reference)) by {
                reveal(reference_mask);
            }
            changes_leave_the_cache_behind(
                first.state.cache,
                before.book,
                after.book,
                before.rules.price_quantum,
            );
            open_references_match_what_agrees(outer, seen, first.state.cache, anchor, Some(time));
        }
    }
}

/// Ends a reference whose window has passed.
fn close_reference(reference: &mut ReferenceSnapshot, passed: bool)
    ensures
        final(reference)@ == old(reference)@.closed_if(passed),
{
    if passed {
        reference.state.finalized = true;
    }
}

/// Compares an event with a reference whose window ends at a time.
fn compare_in_window(
    ctx: CandidateContext<'_>,
    reference: &mut ReferenceSnapshot,
    cache: &mut CandidateCache,
    anchor: ValidationAnchor,
    end: i64,
    time: i64,
    before: bool,
) -> (r: Result<(), ProductionError>)
    requires
        ctx.wf(),
        old(cache)@.wf(ctx.rules.price_quantum),
        end >= i64::MIN + REFERENCE_MILLISECOND_NS,
    ensures
        final(cache)@.wf(ctx.rules.price_quantum),
        ({
            let compared = ctx.model().compared_in_window(
                old(reference)@,
                old(cache)@,
                anchor,
                end as int,
                time,
                before,
            );
            &&& final(reference)@ == old(reference)@.after(compared).closed_if(
                compared.error is None && time >= end,
            )
            &&& final(cache)@ == compared.cache
            &&& match compared.error {
                Some(error) => r is Err && r->Err_0@ == error,
                None => r is Ok,
            }
        }),
{
    if time < end || before {
        let shown: i64 = if time >= end {
            end - REFERENCE_MILLISECOND_NS
        } else {
            time
        };
        match compare_candidate(ctx, reference, cache, anchor, Some(shown)) {
            Ok(()) => {},
            Err(error) => return Err(error),
        }
    }
    close_reference(reference, time >= end);
    Ok(())
}

/// Compares a state with a reference that is then final.
fn compare_last(
    ctx: CandidateContext<'_>,
    reference: &mut ReferenceSnapshot,
    cache: &mut CandidateCache,
    anchor: ValidationAnchor,
    time: i64,
) -> (r: Result<(), ProductionError>)
    requires
        ctx.wf(),
        old(cache)@.wf(ctx.rules.price_quantum),
    ensures
        final(cache)@.wf(ctx.rules.price_quantum),
        ({
            let compared = ctx.model().compared(old(reference)@, old(cache)@, anchor, Some(time));
            &&& final(reference)@ == old(reference)@.after(compared).closed_if(
                compared.error is None,
            )
            &&& final(cache)@ == compared.cache
            &&& match compared.error {
                Some(error) => r is Err && r->Err_0@ == error,
                None => r is Ok,
            }
        }),
{
    match compare_candidate(ctx, reference, cache, anchor, Some(time)) {
        Ok(()) => {},
        Err(error) => return Err(error),
    }
    close_reference(reference, true);
    Ok(())
}

/// Whether an outcome is the error of a step, or success where it has none.
pub open spec fn outcome_is(r: Result<(), ProductionError>, error: Option<ErrorModel>) -> bool {
    match error {
        Some(error) => r is Err && r->Err_0@ == error,
        None => r is Ok,
    }
}

fn observe_pre_open(
    ctx: CandidateContext<'_>,
    reference: &mut Option<ReferenceSnapshot>,
    cache: &mut CandidateCache,
    point: ObservationPoint,
) -> (r: Result<(), ProductionError>)
    requires
        ctx.wf(),
        old(cache)@.wf(ctx.rules.price_quantum),
    ensures
        final(cache)@.wf(ctx.rules.price_quantum),
        ({
            let step = pre_open_step(
                ctx.model(),
                reference_view(*old(reference)),
                old(cache)@,
                point,
            );
            &&& reference_view(*final(reference)) == step.reference
            &&& final(cache)@ == step.cache
            &&& outcome_is(r, step.error)
        }),
{
    match reference {
        None => Ok(()),
        Some(r) => {
            let end: i64 = match r.time_ns.checked_add(REFERENCE_SECOND_NS) {
                Some(end) => end,
                None => return Err(ProductionError::Arithmetic("reference candidate window")),
            };
            match point {
                ObservationPoint::BeforeEvent(time) => {
                    if time >= r.time_ns {
                        compare_in_window(
                            ctx,
                            r,
                            cache,
                            ValidationAnchor::PreOpen,
                            end,
                            time,
                            true,
                        )
                    } else {
                        Ok(())
                    }
                },
                ObservationPoint::AfterEvent(time) => {
                    if time >= r.time_ns {
                        compare_in_window(
                            ctx,
                            r,
                            cache,
                            ValidationAnchor::PreOpen,
                            end,
                            time,
                            false,
                        )
                    } else {
                        Ok(())
                    }
                },
                ObservationPoint::ChannelFinished => compare_last(
                    ctx,
                    r,
                    cache,
                    ValidationAnchor::PreOpen,
                    end - REFERENCE_MILLISECOND_NS,
                ),
                ObservationPoint::MarketClose(_) => Ok(()),
            }
        },
    }
}

fn observe_close(
    ctx: CandidateContext<'_>,
    reference: &mut Option<ReferenceSnapshot>,
    cache: &mut CandidateCache,
    boundary: i64,
) -> (r: Result<(), ProductionError>)
    requires
        ctx.wf(),
        old(cache)@.wf(ctx.rules.price_quantum),
    ensures
        final(cache)@.wf(ctx.rules.price_quantum),
        ({
            let step = close_step(
                ctx.model(),
                reference_view(*old(reference)),
                old(cache)@,
                boundary,
            );
            &&& reference_view(*final(reference)) == step.reference
            &&& final(cache)@ == step.cache
            &&& outcome_is(r, step.error)
        }),
{
    match reference {
        None => Ok(()),
        Some(r) => compare_last(ctx, r, cache, ValidationAnchor::MarketClose, boundary),
    }
}

fn walk(
    ctx: CandidateContext<'_>,
    windows: WindowConfig,
    time: i64,
    before: bool,
    references: &mut Vec<ReferenceSnapshot>,
    cache: &mut CandidateCache,
    from: usize,
) -> (r: Result<usize, ProductionError>)
    requires
        ctx.wf(),
        windows.wf(),
        old(cache)@.wf(ctx.rules.price_quantum),
        from <= old(references)@.len(),
    ensures
        final(cache)@.wf(ctx.rules.price_quantum),
        ({
            let walk = walked(
                ctx.model(),
                windows,
                time,
                before,
                reference_views(old(references)@),
                old(cache)@,
                from as int,
                None,
            );
            &&& reference_views(final(references)@) == walk.references
            &&& final(cache)@ == walk.cache
            &&& match walk.error {
                Some(error) => r is Err && r->Err_0@ == error,
                None => r is Ok && r->Ok_0 == walk.position,
            }
        }),
{
    let mut at: usize = from;
    let mut pending: Option<usize> = None;
    let count: usize = references.len();
    let ghost start = reference_views(references@);
    let ghost start_cache = cache@;
    while at < count
        invariant
            ctx.wf(),
            windows.wf(),
            cache@.wf(ctx.rules.price_quantum),
            start == reference_views(old(references)@),
            start_cache == old(cache)@,
            count == references@.len(),
            count == old(references)@.len(),
            at <= count,
            walked(ctx.model(), windows, time, before, start, start_cache, from as int, None)
                == walked(
                ctx.model(),
                windows,
                time,
                before,
                reference_views(references@),
                cache@,
                at as int,
                match pending {
                    Some(p) => Some(p as int),
                    None => None,
                },
            ),
        decreases count - at,
    {
        let ghost here = reference_views(references@);
        assert(here[at as int] == references@[at as int]@);
        let reference_time: i64 = references[at].time_ns;
        let start_time: i64 = match reference_time.checked_sub(windows.lookback_ns) {
            Some(value) => value,
            None => return Err(ProductionError::Arithmetic("continuous reference window start")),
        };
        if time < start_time {
            return Ok(
                match pending {
                    Some(p) => p,
                    None => at,
                },
            );
        }
        let end: i64 = match reference_time.checked_add(windows.lookahead_ns) {
            Some(value) => value,
            None => return Err(ProductionError::Arithmetic("continuous reference second")),
        };
        let outcome = compare_in_window(
            ctx,
            &mut references[at],
            cache,
            ValidationAnchor::ContinuousTrading,
            end,
            time,
            before,
        );
        assert(reference_views(references@) =~= here.update(
            at as int,
            references@[at as int]@,
        ));
        match outcome {
            Ok(()) => {},
            Err(error) => return Err(error),
        }
        if pending.is_none() && !references[at].state.finalized {
            pending = Some(at);
        }
        at = at + 1;
    }
    Ok(
        match pending {
            Some(p) => p,
            None => at,
        },
    )
}

fn finish(
    ctx: CandidateContext<'_>,
    windows: WindowConfig,
    references: &mut Vec<ReferenceSnapshot>,
    cache: &mut CandidateCache,
    from: usize,
) -> (r: Result<usize, ProductionError>)
    requires
        ctx.wf(),
        windows.wf(),
        old(cache)@.wf(ctx.rules.price_quantum),
        from <= old(references)@.len(),
    ensures
        final(cache)@.wf(ctx.rules.price_quantum),
        ({
            let walk = finished(
                ctx.model(),
                windows,
                reference_views(old(references)@),
                old(cache)@,
                from as int,
            );
            &&& reference_views(final(references)@) == walk.references
            &&& final(cache)@ == walk.cache
            &&& match walk.error {
                Some(error) => r is Err && r->Err_0@ == error,
                None => r is Ok && r->Ok_0 == walk.position,
            }
        }),
        final(references)@.len() == old(references)@.len(),
        r is Ok ==> r->Ok_0 == old(references)@.len(),
{
    let mut at: usize = from;
    let count: usize = references.len();
    let ghost start = reference_views(references@);
    let ghost start_cache = cache@;
    while at < count
        invariant
            ctx.wf(),
            windows.wf(),
            cache@.wf(ctx.rules.price_quantum),
            start == reference_views(old(references)@),
            start_cache == old(cache)@,
            count == references@.len(),
            count == old(references)@.len(),
            at <= count,
            finished(ctx.model(), windows, start, start_cache, from as int) == finished(
                ctx.model(),
                windows,
                reference_views(references@),
                cache@,
                at as int,
            ),
        decreases count - at,
    {
        let ghost here = reference_views(references@);
        assert(here[at as int] == references@[at as int]@);
        let reference_time: i64 = references[at].time_ns;
        let ahead: i64 = windows.lookahead_ns - REFERENCE_MILLISECOND_NS;
        let time: i64 = match reference_time.checked_add(ahead) {
            Some(value) => value,
            None => return Err(
                ProductionError::Arithmetic("continuous reference candidate time"),
            ),
        };
        let outcome = compare_last(
            ctx,
            &mut references[at],
            cache,
            ValidationAnchor::ContinuousTrading,
            time,
        );
        assert(reference_views(references@) =~= here.update(
            at as int,
            references@[at as int]@,
        ));
        match outcome {
            Ok(()) => {},
            Err(error) => return Err(error),
        }
        at = at + 1;
    }
    Ok(at)
}

impl SymbolValidationState {
    /// Rules, cache and trades are those of the symbol, and the position is a place among the
    /// references.
    pub open spec fn wf(self, market: Market, symbol: Seq<char>) -> bool {
        &&& self.continuous_position <= self.references.continuous_trading@.len()
        &&& self.cache@.wf(price_quantum(market, symbol))
        &&& self.rules matches Some(rules) ==> rules_fit(rules, market, symbol)
            && REFERENCE_MILLISECOND_NS <= rules.lookahead_ns <= 3 * REFERENCE_SECOND_NS
        &&& self.close_price matches Some(tracker) ==> tracker.wf()
    }

    /// A symbol with references of which nothing is known yet.
    pub fn new(references: SymbolReferences) -> (r: Self)
        ensures
            r@ == SymbolModel::of(references@),
            forall|market: Market, symbol: Seq<char>| #[trigger] r.wf(market, symbol),
    {
        SymbolValidationState {
            rules: None,
            limits: None,
            cache: CandidateCache::default(),
            references,
            continuous_position: 0,
            seen: false,
            close_price: None,
            channel: None,
        }
    }

    /// Compares an observed state with the references whose windows it falls in.
    pub fn observe_candidates(
        &mut self,
        ctx: CandidateContext<'_>,
        point: ObservationPoint,
        windows: WindowConfig,
    ) -> (r: Result<(), ProductionError>)
        requires
            old(self).wf(ctx.market, ctx.symbol@),
            ctx.wf(),
            windows.wf(),
        ensures
            final(self).wf(ctx.market, ctx.symbol@),
            ({
                let step = old(self)@.observed(ctx.model(), point, windows);
                final(self)@ == step.state && outcome_is(r, step.error)
            }),
    {
        let ghost start = self@;
        let inner = CandidateContext {
            market: ctx.market,
            rules: ctx.rules,
            symbol: ctx.symbol,
            book: ctx.book,
            limits: self.limits.as_ref(),
            close_price: self.close_price.as_ref(),
        };
        assert(inner.model() == start.context(ctx.model()));
        match observe_pre_open(inner, &mut self.references.pre_open, &mut self.cache, point) {
            Ok(()) => {},
            Err(error) => return Err(error),
        }
        if windows.pre_open_only {
            return Ok(());
        }
        let from: usize = self.continuous_position;
        let ghost opened = self@;
        match point {
            ObservationPoint::MarketClose(boundary) => observe_close(
                inner,
                &mut self.references.market_close,
                &mut self.cache,
                boundary,
            ),
            ObservationPoint::ChannelFinished => {
                let outcome = finish(
                    inner,
                    windows,
                    &mut self.references.continuous_trading,
                    &mut self.cache,
                    from,
                );
                match outcome {
                    Ok(position) => {
                        self.continuous_position = position;
                        Ok(())
                    },
                    Err(error) => Err(error),
                }
            },
            ObservationPoint::BeforeEvent(time) => {
                proof {
                    lemma_walk_position(
                        inner.model(),
                        windows,
                        time,
                        true,
                        opened.references.continuous_trading,
                        opened.cache,
                        from as int,
                        None,
                    );
                }
                let outcome = walk(
                    inner,
                    windows,
                    time,
                    true,
                    &mut self.references.continuous_trading,
                    &mut self.cache,
                    from,
                );
                match outcome {
                    Ok(position) => {
                        self.continuous_position = position;
                        Ok(())
                    },
                    Err(error) => Err(error),
                }
            },
            ObservationPoint::AfterEvent(time) => {
                proof {
                    lemma_walk_position(
                        inner.model(),
                        windows,
                        time,
                        false,
                        opened.references.continuous_trading,
                        opened.cache,
                        from as int,
                        None,
                    );
                }
                let outcome = walk(
                    inner,
                    windows,
                    time,
                    false,
                    &mut self.references.continuous_trading,
                    &mut self.cache,
                    from,
                );
                match outcome {
                    Ok(position) => {
                        self.continuous_position = position;
                        Ok(())
                    },
                    Err(error) => Err(error),
                }
            },
        }
    }
}

} // verus!
