//! Comparison of a book with a reference. Candidate extraction is cached, never candidate
//! eligibility or match timing.

use vstd::prelude::*;
use vstd::string::StringExecFns;

use crate::market_data::{Market, Side};
use crate::order_book::{revision_next, BookModel, MetaModel, OrderBook};

use super::super::error::{ErrorModel, ProductionError};
use super::super::snapshot::{
    optional_units, price_units, shown_levels, SnapshotBookModel, SnapshotBookView, SnapshotLevels,
};
use super::super::types::{spec_is_etf, ValidationAnchor};
use super::close_range::{
    project, projection, text_view, BandModel, ClosePriceBandAudit, DayLimits, LimitsModel,
};
use super::difference::{
    compare_reference_scalars, difference_views, lemma_depth_adds, list_differences, listed,
    masks_count_their_differences, DifferenceMask, DifferenceModel, FieldDifference,
};
use super::precision::{precision_result, turnover_precision, TurnoverPrecisionAudit};
use super::reference::ReferenceBookView;
use super::rules::{
    price_quantum, published_price, published_prices_are_rounded,
    published_weighted_price_with_quantum, quantizable, SymbolValidationRules,
};
use super::sz_close_price::{
    close_price_tag, reconcile_sz_market_close_price, SzClosePriceTracker, TrackerModel,
};

verus! {

/// How the comparison with a reference stands.
pub struct AnchorState {
    pub matched: bool,
    pub finalized: bool,
    pub matched_candidate_time_ns: Option<i64>,
    pub matched_candidate_raw_sequence: Option<u64>,
    pub matched_candidate_apply_sequence: Option<u64>,
    pub best_candidate_time_ns: Option<i64>,
    pub best_candidate_raw_sequence: Option<u64>,
    pub match_tag: Option<&'static str>,
    pub comparison_error: Option<String>,
    pub close_price_band: Option<ClosePriceBandAudit>,
    pub best_differences: Option<Vec<FieldDifference>>,
    pub turnover_precision: Option<TurnoverPrecisionAudit>,
}

/// How the comparison with a reference stands, with texts as sequences of characters.
#[verifier::ext_equal]
pub struct AnchorModel {
    pub matched: bool,
    pub finalized: bool,
    pub matched_candidate_time_ns: Option<i64>,
    pub matched_candidate_raw_sequence: Option<u64>,
    pub matched_candidate_apply_sequence: Option<u64>,
    pub best_candidate_time_ns: Option<i64>,
    pub best_candidate_raw_sequence: Option<u64>,
    pub match_tag: Option<Seq<char>>,
    pub comparison_error: Option<Seq<char>>,
    pub close_price_band: Option<BandModel>,
    pub best_differences: Option<Seq<DifferenceModel>>,
    pub turnover_precision: Option<TurnoverPrecisionAudit>,
}

pub open spec fn tag_view(tag: Option<&'static str>) -> Option<Seq<char>> {
    match tag {
        Some(tag) => Some(tag@),
        None => None,
    }
}

pub open spec fn band_view(band: Option<ClosePriceBandAudit>) -> Option<BandModel> {
    match band {
        Some(band) => Some(band@),
        None => None,
    }
}

pub open spec fn best_view(best: Option<Vec<FieldDifference>>) -> Option<Seq<DifferenceModel>> {
    match best {
        Some(best) => Some(difference_views(best@)),
        None => None,
    }
}

impl View for AnchorState {
    type V = AnchorModel;

    open spec fn view(&self) -> AnchorModel {
        AnchorModel {
            matched: self.matched,
            finalized: self.finalized,
            matched_candidate_time_ns: self.matched_candidate_time_ns,
            matched_candidate_raw_sequence: self.matched_candidate_raw_sequence,
            matched_candidate_apply_sequence: self.matched_candidate_apply_sequence,
            best_candidate_time_ns: self.best_candidate_time_ns,
            best_candidate_raw_sequence: self.best_candidate_raw_sequence,
            match_tag: tag_view(self.match_tag),
            comparison_error: text_view(self.comparison_error),
            close_price_band: band_view(self.close_price_band),
            best_differences: best_view(self.best_differences),
            turnover_precision: self.turnover_precision,
        }
    }
}

impl AnchorModel {
    pub open spec fn fresh() -> Self {
        AnchorModel {
            matched: false,
            finalized: false,
            matched_candidate_time_ns: None,
            matched_candidate_raw_sequence: None,
            matched_candidate_apply_sequence: None,
            best_candidate_time_ns: None,
            best_candidate_raw_sequence: None,
            match_tag: None,
            comparison_error: None,
            close_price_band: None,
            best_differences: None,
            turnover_precision: None,
        }
    }

    /// Whether so many differences are fewer than those of the best candidate so far.
    pub open spec fn improves(self, count: int) -> bool {
        self.best_differences is None || count < self.best_differences->0.len()
    }
}

impl Default for AnchorState {
    fn default() -> (r: Self)
        ensures
            r@ == AnchorModel::fresh(),
    {
        AnchorState {
            matched: false,
            finalized: false,
            matched_candidate_time_ns: None,
            matched_candidate_raw_sequence: None,
            matched_candidate_apply_sequence: None,
            best_candidate_time_ns: None,
            best_candidate_raw_sequence: None,
            match_tag: None,
            comparison_error: None,
            close_price_band: None,
            best_differences: None,
            turnover_precision: None,
        }
    }
}

impl AnchorState {
    /// Whether so many differences are fewer than those of the best candidate so far.
    fn improved_by(&self, count: usize) -> (r: bool)
        ensures
            r == self@.improves(count as int),
    {
        match &self.best_differences {
            Some(best) => count < best.len(),
            None => true,
        }
    }
}

/// A reference that books are compared with.
pub struct ReferenceSnapshot {
    pub time_ns: i64,
    pub view: Option<ReferenceBookView>,
    pub load_error: Option<String>,
    pub source_row_no: u64,
    pub missing_reception: bool,
    pub pre_close_price_units: Option<i64>,
    pub state: AnchorState,
}

/// A reference that books are compared with, with texts and levels as sequences.
#[verifier::ext_equal]
pub struct ReferenceModel {
    pub time_ns: i64,
    pub view: Option<SnapshotBookModel>,
    pub load_error: Option<Seq<char>>,
    pub source_row_no: u64,
    pub missing_reception: bool,
    pub pre_close_price_units: Option<i64>,
    pub state: AnchorModel,
}

pub open spec fn compact_view(view: Option<ReferenceBookView>) -> Option<SnapshotBookModel> {
    match view {
        Some(view) => Some(view@),
        None => None,
    }
}

impl View for ReferenceSnapshot {
    type V = ReferenceModel;

    open spec fn view(&self) -> ReferenceModel {
        ReferenceModel {
            time_ns: self.time_ns,
            view: compact_view(self.view),
            load_error: text_view(self.load_error),
            source_row_no: self.source_row_no,
            missing_reception: self.missing_reception,
            pre_close_price_units: self.pre_close_price_units,
            state: self.state@,
        }
    }
}

/// What candidates are compared by.
#[derive(Clone, Copy)]
pub struct CandidateContext<'a> {
    pub market: Market,
    pub rules: SymbolValidationRules,
    pub symbol: &'a str,
    pub book: &'a OrderBook,
    pub limits: Option<&'a DayLimits>,
    pub close_price: Option<&'a SzClosePriceTracker>,
}

/// What candidates are compared by, with texts and collections as mathematical ones.
pub struct ContextModel {
    pub market: Market,
    pub rules: SymbolValidationRules,
    pub symbol: Seq<char>,
    pub book: BookModel,
    pub limits: Option<LimitsModel>,
    pub close_price: Option<TrackerModel>,
}

pub open spec fn limits_view(limits: Option<DayLimits>) -> Option<LimitsModel> {
    match limits {
        Some(limits) => Some(limits@),
        None => None,
    }
}

pub open spec fn tracker_view(tracker: Option<SzClosePriceTracker>) -> Option<TrackerModel> {
    match tracker {
        Some(tracker) => Some(tracker@),
        None => None,
    }
}

impl<'a> CandidateContext<'a> {
    pub open spec fn model(self) -> ContextModel {
        ContextModel {
            market: self.market,
            rules: self.rules,
            symbol: self.symbol@,
            book: self.book@,
            limits: match self.limits {
                Some(limits) => Some(limits@),
                None => None,
            },
            close_price: match self.close_price {
                Some(tracker) => Some(tracker@),
                None => None,
            },
        }
    }

    /// The rules are those of the symbol, and book and trades are in order.
    pub open spec fn wf(self) -> bool {
        &&& self.book.wf()
        &&& rules_fit(self.rules, self.market, self.symbol@)
        &&& self.close_price matches Some(tracker) ==> tracker.wf()
    }
}

/// Whether rules are those of a symbol.
pub open spec fn rules_fit(
    rules: SymbolValidationRules,
    market: Market,
    symbol: Seq<char>,
) -> bool {
    &&& rules.is_etf == spec_is_etf(market, symbol)
    &&& rules.price_quantum == price_quantum(market, symbol)
}

/// What a book shows besides its levels, or why that cannot be told.
pub open spec fn scalar_view(m: BookModel, quantum: i64) -> Result<SnapshotBookModel, ErrorModel> {
    let bid = published_price(m.bids, quantum as int);
    let ask = published_price(m.asks, quantum as int);
    if bid is Err {
        Err(bid->Err_0)
    } else if ask is Err {
        Err(ask->Err_0)
    } else {
        Ok(
            SnapshotBookModel {
                bids: Seq::empty(),
                asks: Seq::empty(),
                total_bid_quantity: m.bids.total_quantity as u64,
                weighted_bid_price_units: bid->Ok_0,
                total_ask_quantity: m.asks.total_quantity as u64,
                weighted_ask_price_units: ask->Ok_0,
                last_price_units: price_units(m.statistics.last_price),
                high_price_units: price_units(m.statistics.high_price),
                low_price_units: price_units(m.statistics.low_price),
                trade_count: m.statistics.trade_count,
                trade_quantity: m.statistics.total_quantity,
                turnover_units: m.statistics.total_turnover_units,
            },
        )
    }
}

/// A view with the ten best levels of each side of a book.
pub open spec fn with_depth(view: SnapshotBookModel, m: BookModel) -> SnapshotBookModel {
    SnapshotBookModel {
        bids: shown_levels(m, Side::Buy, 10),
        asks: shown_levels(m, Side::Sell, 10),
        ..view
    }
}

/// Whether the average prices of a view can be rounded.
pub open spec fn view_quantizable(view: SnapshotBookModel, quantum: i64) -> bool {
    &&& quantizable(quantum, view.weighted_bid_price_units)
    &&& quantizable(quantum, view.weighted_ask_price_units)
}

fn scalars(ctx: CandidateContext<'_>) -> (r: Result<SnapshotBookView, ProductionError>)
    requires
        ctx.wf(),
    ensures
        match scalar_view(ctx.book@, ctx.rules.price_quantum) {
            Ok(view) => r is Ok && r->Ok_0@ == view && view_quantizable(
                view,
                ctx.rules.price_quantum,
            ),
            Err(error) => r is Err && r->Err_0@ == error,
        },
{
    let quantum: i64 = ctx.rules.price_quantum;
    let stats = ctx.book.statistics();
    let (total_bid_quantity, _) = ctx.book.visible_aggregate(Side::Buy);
    let (total_ask_quantity, _) = ctx.book.visible_aggregate(Side::Sell);
    let bid = match published_weighted_price_with_quantum(ctx.book, Side::Buy, quantum) {
        Ok(price) => price,
        Err(error) => return Err(error),
    };
    let ask = match published_weighted_price_with_quantum(ctx.book, Side::Sell, quantum) {
        Ok(price) => price,
        Err(error) => return Err(error),
    };
    proof {
        if total_bid_quantity > 0 {
            published_prices_are_rounded(ctx.book@.bids, quantum);
        }
        if total_ask_quantity > 0 {
            published_prices_are_rounded(ctx.book@.asks, quantum);
        }
    }
    Ok(
        SnapshotBookView {
            bids: SnapshotLevels::new(),
            asks: SnapshotLevels::new(),
            total_bid_quantity,
            weighted_bid_price_units: bid,
            total_ask_quantity,
            weighted_ask_price_units: ask,
            last_price_units: optional_units(stats.last_price),
            high_price_units: optional_units(stats.high_price),
            low_price_units: optional_units(stats.low_price),
            trade_count: stats.trade_count,
            trade_quantity: stats.total_quantity,
            turnover_units: stats.total_turnover_units,
        },
    )
}

/// What a book showed last. Owned by one symbol's validator for one book: a revision is no
/// global identifier and must not be shared across books.
pub struct CandidateCache {
    pub revision: Option<u64>,
    pub view: Option<SnapshotBookView>,
    pub depth_ready: bool,
}

/// What a book showed last, with levels as sequences.
#[verifier::ext_equal]
pub struct CacheModel {
    pub revision: Option<u64>,
    pub view: Option<SnapshotBookModel>,
    pub depth_ready: bool,
}

pub open spec fn book_view(view: Option<SnapshotBookView>) -> Option<SnapshotBookModel> {
    match view {
        Some(view) => Some(view@),
        None => None,
    }
}

impl View for CandidateCache {
    type V = CacheModel;

    open spec fn view(&self) -> CacheModel {
        CacheModel {
            revision: self.revision,
            view: book_view(self.view),
            depth_ready: self.depth_ready,
        }
    }
}

/// The revision by which a book's views are cached.
pub open spec fn cache_key(m: BookModel) -> Option<u64> {
    if m.revision == u64::MAX {
        None
    } else {
        Some(m.revision)
    }
}

impl CacheModel {
    pub open spec fn empty() -> Self {
        CacheModel { revision: None, view: None, depth_ready: false }
    }

    /// Average prices of a cached view can be rounded.
    pub open spec fn wf(self, quantum: i64) -> bool {
        self.view matches Some(view) ==> view_quantizable(view, quantum)
    }

    /// Whether the cache has a view for the revision of a book.
    pub open spec fn hits(self, m: BookModel) -> bool {
        cache_key(m) is Some && self.revision == cache_key(m) && self.view is Some
    }

    /// The cache once it has a view of a book.
    pub open spec fn prepared(self, m: BookModel, quantum: i64) -> Result<Self, ErrorModel> {
        if self.hits(m) {
            Ok(self)
        } else {
            match scalar_view(m, quantum) {
                Ok(view) => Ok(
                    CacheModel { revision: cache_key(m), view: Some(view), depth_ready: false },
                ),
                Err(error) => Err(error),
            }
        }
    }

    /// The cache once its view has levels.
    pub open spec fn deepened(self, m: BookModel) -> Self {
        if self.depth_ready {
            self
        } else {
            CacheModel {
                view: match self.view {
                    Some(view) => Some(with_depth(view, m)),
                    None => None,
                },
                depth_ready: true,
                ..self
            }
        }
    }

    /// Whether a view for the revision of a book is what the book shows, and no view is for a
    /// later revision.
    pub open spec fn tracks(self, m: BookModel, quantum: i64) -> bool {
        &&& self.revision matches Some(revision) ==> revision <= m.revision
        &&& self.hits(m) ==> {
            let fresh = scalar_view(m, quantum);
            &&& fresh is Ok
            &&& self.view->0 == if self.depth_ready {
                with_depth(fresh->Ok_0, m)
            } else {
                fresh->Ok_0
            }
        }
    }
}

impl Default for CandidateCache {
    fn default() -> (r: Self)
        ensures
            r@ == CacheModel::empty(),
    {
        CandidateCache { revision: None, view: None, depth_ready: false }
    }
}

impl CandidateCache {
    /// Takes a view of a book, unless there is one for its revision.
    pub fn prepare(&mut self, ctx: CandidateContext<'_>) -> (r: Result<(), ProductionError>)
        requires
            ctx.wf(),
            old(self)@.wf(ctx.rules.price_quantum),
        ensures
            match old(self)@.prepared(ctx.book@, ctx.rules.price_quantum) {
                Ok(cache) => r is Ok && final(self)@ == cache && cache.view is Some && cache.wf(
                    ctx.rules.price_quantum,
                ),
                Err(error) => r is Err && r->Err_0@ == error && final(self)@ == old(self)@,
            },
    {
        let revision = ctx.book.cache_revision();
        if revision.is_some() && self.revision == revision && self.view.is_some() {
            return Ok(());
        }
        let view = match scalars(ctx) {
            Ok(view) => view,
            Err(error) => return Err(error),
        };
        self.view = Some(view);
        self.revision = revision;
        self.depth_ready = false;
        Ok(())
    }
}

/// What came out of a comparison.
pub struct Judgment {
    pub mask: DifferenceMask,
    pub expected: SnapshotBookModel,
    pub actual: SnapshotBookModel,
    pub precision: Option<TurnoverPrecisionAudit>,
    pub band: Option<BandModel>,
    pub tag: Option<Seq<char>>,
}

pub open spec fn raw_sequence_of(meta: Option<MetaModel>) -> Option<u64> {
    match meta {
        Some(meta) => Some(meta.raw_sequence.spec_get()),
        None => None,
    }
}

pub open spec fn apply_sequence_of(meta: Option<MetaModel>) -> Option<u64> {
    match meta {
        Some(meta) => Some(meta.apply_sequence.spec_get()),
        None => None,
    }
}

impl AnchorModel {
    /// How a comparison stands after one more candidate. The first candidate without a
    /// difference matches; otherwise the one with the fewest differences is kept, the
    /// earliest of those.
    #[verifier::opaque]
    pub open spec fn judged(
        self,
        judgment: Judgment,
        quantum: i64,
        meta: Option<MetaModel>,
        time_ns: Option<i64>,
    ) -> Self {
        let banded = AnchorModel {
            close_price_band: if judgment.band is Some {
                judgment.band
            } else {
                self.close_price_band
            },
            ..self
        };
        if judgment.mask == DifferenceMask::none() {
            AnchorModel {
                turnover_precision: if judgment.precision is Some {
                    judgment.precision
                } else {
                    self.turnover_precision
                },
                matched: true,
                finalized: true,
                best_differences: None,
                matched_candidate_time_ns: time_ns,
                matched_candidate_raw_sequence: raw_sequence_of(meta),
                matched_candidate_apply_sequence: apply_sequence_of(meta),
                match_tag: judgment.tag,
                ..banded
            }
        } else if self.improves(judgment.mask.spec_count()) {
            AnchorModel {
                best_differences: Some(
                    listed(judgment.mask, quantum, judgment.expected, judgment.actual),
                ),
                best_candidate_time_ns: time_ns,
                best_candidate_raw_sequence: raw_sequence_of(meta),
                ..banded
            }
        } else {
            banded
        }
    }
}

fn sequences(book: &OrderBook) -> (r: (Option<u64>, Option<u64>))
    requires
        book.wf(),
    ensures
        r.0 == raw_sequence_of(book@.last_meta),
        r.1 == apply_sequence_of(book@.last_meta),
{
    match book.last_applied_meta() {
        Some(meta) => (Some(meta.raw_sequence.get()), Some(meta.apply_sequence.get())),
        None => (None, None),
    }
}

impl AnchorState {
    fn judge(
        &mut self,
        mask: DifferenceMask,
        expected: &ReferenceBookView,
        actual: &SnapshotBookView,
        precision: Option<TurnoverPrecisionAudit>,
        band: Option<ClosePriceBandAudit>,
        tag: Option<&'static str>,
        ctx: CandidateContext<'_>,
        time_ns: Option<i64>,
    )
        requires
            ctx.wf(),
            view_quantizable(actual@, ctx.rules.price_quantum),
        ensures
            final(self)@ == old(self)@.judged(
                Judgment {
                    mask,
                    expected: expected@,
                    actual: actual@,
                    precision,
                    band: band_view(band),
                    tag: tag_view(tag),
                },
                ctx.rules.price_quantum,
                ctx.book@.last_meta,
                time_ns,
            ),
    {
        proof {
            reveal(AnchorModel::judged);
        }
        let (raw_sequence, apply_sequence) = sequences(ctx.book);
        let improved = self.improved_by(mask.count());
        if band.is_some() {
            self.close_price_band = band;
        }
        if mask.is_empty() {
            if precision.is_some() {
                self.turnover_precision = precision;
            }
            self.matched = true;
            self.finalized = true;
            self.best_differences = None;
            self.matched_candidate_time_ns = time_ns;
            self.matched_candidate_raw_sequence = raw_sequence;
            self.matched_candidate_apply_sequence = apply_sequence;
            self.match_tag = tag;
        } else if improved {
            let differences = list_differences(
                mask,
                ctx.rules.price_quantum,
                &expected.expand(),
                actual,
            );
            self.best_differences = Some(differences);
            self.best_candidate_time_ns = time_ns;
            self.best_candidate_raw_sequence = raw_sequence;
        }
    }
}

/// What a comparison leaves.
pub struct Compared {
    pub state: AnchorModel,
    pub cache: CacheModel,
    pub error: Option<ErrorModel>,
}

/// Why a turnover is tolerated, where it is.
pub open spec fn tolerated(
    reference: ReferenceModel,
    actual: SnapshotBookModel,
) -> Option<TurnoverPrecisionAudit> {
    precision_result(
        reference.missing_reception,
        reference.view->0.turnover_units,
        actual.turnover_units,
    )
}

/// The mask between a reference and what a book shows.
#[verifier::opaque]
pub open spec fn reference_mask(
    reference: ReferenceModel,
    actual: SnapshotBookModel,
    quantum: i64,
) -> DifferenceMask {
    DifferenceMask::of(quantum, reference.view->0, actual).tolerating_turnover(
        tolerated(reference, actual) is Some,
    )
}

/// The mask between a reference and what a book shows besides its levels.
#[verifier::opaque]
pub open spec fn reference_scalar_mask(
    reference: ReferenceModel,
    actual: SnapshotBookModel,
    quantum: i64,
) -> DifferenceMask {
    DifferenceMask::of_scalars(quantum, reference.view->0, actual).tolerating_turnover(
        tolerated(reference, actual) is Some,
    )
}

/// Whether a mask names nothing but the last price.
#[verifier::opaque]
pub open spec fn is_last_price_only(mask: DifferenceMask) -> bool {
    mask == (DifferenceMask { last_price: true, ..DifferenceMask::none() })
}

fn only_last_price(mask: DifferenceMask) -> (r: bool)
    ensures
        r == is_last_price_only(mask),
{
    reveal(is_last_price_only);
    mask.is_only_last_price()
}

impl ReferenceSnapshot {
    fn precision(&self, expected: &ReferenceBookView, actual: &SnapshotBookView) -> (r: Option<
        TurnoverPrecisionAudit,
    >)
        requires
            self@.view == Some(expected@),
        ensures
            r == tolerated(self@, actual@),
    {
        turnover_precision(self.missing_reception, expected.turnover_units, actual.turnover_units)
    }

    fn scalar_mask(
        &self,
        expected: &ReferenceBookView,
        actual: &SnapshotBookView,
        quantum: i64,
        tolerate: bool,
    ) -> (r: DifferenceMask)
        requires
            self@.view == Some(expected@),
            0 < quantum,
            view_quantizable(actual@, quantum),
            tolerate == (tolerated(self@, actual@) is Some),
        ensures
            r == reference_scalar_mask(self@, actual@, quantum),
    {
        reveal(reference_scalar_mask);
        compare_reference_scalars(quantum, expected, actual).tolerating(tolerate)
    }

    fn mask(
        &self,
        expected: &ReferenceBookView,
        actual: &SnapshotBookView,
        quantum: i64,
        tolerate: bool,
    ) -> (r: DifferenceMask)
        requires
            self@.view == Some(expected@),
            0 < quantum,
            view_quantizable(actual@, quantum),
            tolerate == (tolerated(self@, actual@) is Some),
        ensures
            r == reference_mask(self@, actual@, quantum),
    {
        reveal(reference_mask);
        reveal(reference_scalar_mask);
        let mask = self.scalar_mask(expected, actual, quantum, tolerate);
        mask.with_depth(expected.depth_differences(actual))
    }
}

impl ContextModel {
    /// Whether a candidate cannot improve on the best one so far, whatever its levels are.
    pub open spec fn rejects(self, reference: ReferenceModel, actual: SnapshotBookModel) -> bool {
        let mask = reference_scalar_mask(reference, actual, self.rules.price_quantum);
        mask != DifferenceMask::none() && !reference.state.improves(mask.spec_count())
    }

    /// The comparison with a reference while the market is open.
    pub open spec fn compared_open(
        self,
        reference: ReferenceModel,
        cache: CacheModel,
        time_ns: Option<i64>,
    ) -> Compared {
        let quantum = self.rules.price_quantum;
        match cache.prepared(self.book, quantum) {
            Err(error) => Compared { state: reference.state, cache, error: Some(error) },
            Ok(prepared) => if self.rejects(reference, prepared.view->0) {
                Compared { state: reference.state, cache: prepared, error: None }
            } else {
                let deepened = prepared.deepened(self.book);
                let actual = deepened.view->0;
                Compared {
                    state: reference.state.judged(
                        Judgment {
                            mask: reference_mask(reference, actual, quantum),
                            expected: reference.view->0,
                            actual,
                            precision: tolerated(reference, actual),
                            band: None,
                            tag: None,
                        },
                        quantum,
                        self.book.last_meta,
                        time_ns,
                    ),
                    cache: deepened,
                    error: None,
                }
            },
        }
    }
}

/// A book at the close: what it shows, or why it is not compared, or why the run ends.
pub enum CloseCandidate {
    Shown(SnapshotBookModel, Option<BandModel>),
    Refused(Seq<char>),
    Failed(ErrorModel),
}

impl ContextModel {
    pub open spec fn plain_close(self) -> CloseCandidate {
        match scalar_view(self.book, self.rules.price_quantum) {
            Ok(view) => CloseCandidate::Shown(with_depth(view, self.book), None),
            Err(error) => CloseCandidate::Failed(error),
        }
    }

    pub open spec fn day_limits(self) -> LimitsModel {
        match self.limits {
            Some(limits) => limits,
            None => LimitsModel::empty(),
        }
    }

    /// What a book shows at the close. A Shenzhen stock without price limits shows what lies
    /// in the closing range around its last trade before the closing auction.
    pub open spec fn close_candidate(self) -> CloseCandidate {
        if self.market == Market::Szse && !self.rules.is_etf {
            match self.day_limits().unlimited() {
                Err(detail) => CloseCandidate::Refused(detail),
                Ok(false) => self.plain_close(),
                Ok(true) => if self.close_price is Some && self.close_price->0.range_base is Some {
                    match projection(
                        self.book,
                        self.close_price->0.range_base->0,
                        self.day_limits(),
                    ) {
                        Ok((view, band)) => CloseCandidate::Shown(view, Some(band)),
                        Err(error) => CloseCandidate::Refused(error.text()),
                    }
                } else {
                    CloseCandidate::Refused(
                        "missing pre-14:57 successful trade for SZ E0 range"@,
                    )
                },
            }
        } else {
            self.plain_close()
        }
    }

    /// The rule by which the last price of a reference is accepted.
    pub open spec fn close_tag(
        self,
        reference: ReferenceModel,
        actual: SnapshotBookModel,
    ) -> Result<Option<Seq<char>>, ErrorModel> {
        if self.market == Market::Szse && is_last_price_only(
            reference_mask(reference, actual, self.rules.price_quantum),
        ) {
            close_price_tag(
                self.symbol,
                reference.pre_close_price_units,
                self.close_price,
                reference.view->0.last_price_units,
            )
        } else {
            Ok(None)
        }
    }

    /// The comparison with a reference at the close.
    pub open spec fn compared_close(
        self,
        reference: ReferenceModel,
        time_ns: Option<i64>,
    ) -> (AnchorModel, Option<ErrorModel>) {
        let quantum = self.rules.price_quantum;
        match self.close_candidate() {
            CloseCandidate::Failed(error) => (reference.state, Some(error)),
            CloseCandidate::Refused(detail) => (
                AnchorModel {
                    comparison_error: Some(detail),
                    finalized: true,
                    ..reference.state
                },
                None,
            ),
            CloseCandidate::Shown(shown, band) => match self.close_tag(reference, shown) {
                Err(error) => (reference.state, Some(error)),
                Ok(tag) => {
                    let actual = if tag is Some {
                        SnapshotBookModel {
                            last_price_units: reference.view->0.last_price_units,
                            ..shown
                        }
                    } else {
                        shown
                    };
                    (
                        reference.state.judged(
                            Judgment {
                                mask: reference_mask(reference, actual, quantum),
                                expected: reference.view->0,
                                actual,
                                precision: tolerated(reference, actual),
                                band,
                                tag,
                            },
                            quantum,
                            self.book.last_meta,
                            time_ns,
                        ),
                        None,
                    )
                },
            },
        }
    }

    /// The comparison with a reference. Close projections and closing-price reconciliation
    /// neither use nor change the cache.
    pub open spec fn compared(
        self,
        reference: ReferenceModel,
        cache: CacheModel,
        anchor: ValidationAnchor,
        time_ns: Option<i64>,
    ) -> Compared {
        if reference.state.matched || reference.state.finalized || reference.view is None {
            Compared { state: reference.state, cache, error: None }
        } else if anchor == ValidationAnchor::MarketClose {
            let (state, error) = self.compared_close(reference, time_ns);
            Compared { state, cache, error }
        } else {
            self.compared_open(reference, cache, time_ns)
        }
    }
}

/// A close candidate as the code holds it.
enum CloseView {
    Shown(SnapshotBookView, Option<ClosePriceBandAudit>),
    Refused(String),
}

fn plain_close(ctx: CandidateContext<'_>) -> (r: Result<CloseView, ProductionError>)
    requires
        ctx.wf(),
    ensures
        close_view_is(r, ctx.model().plain_close(), ctx.rules.price_quantum),
{
    match scalars(ctx) {
        Ok(view) => {
            let mut view = view;
            view.fill_depth(ctx.book, 10);
            Ok(CloseView::Shown(view, None))
        },
        Err(error) => Err(error),
    }
}

spec fn close_view_is(
    r: Result<CloseView, ProductionError>,
    candidate: CloseCandidate,
    quantum: i64,
) -> bool {
    match candidate {
        CloseCandidate::Shown(view, band) => {
            &&& r is Ok
            &&& r->Ok_0 is Shown
            &&& r->Ok_0->Shown_0@ == view
            &&& band_view(r->Ok_0->Shown_1) == band
            &&& view_quantizable(view, quantum)
        },
        CloseCandidate::Refused(detail) => r is Ok && r->Ok_0 is Refused
            && r->Ok_0->Refused_0@ == detail,
        CloseCandidate::Failed(error) => r is Err && r->Err_0@ == error,
    }
}

fn close_view(ctx: CandidateContext<'_>) -> (r: Result<CloseView, ProductionError>)
    requires
        ctx.wf(),
    ensures
        close_view_is(r, ctx.model().close_candidate(), ctx.rules.price_quantum),
{
    if ctx.market != Market::Szse || ctx.rules.is_etf {
        return plain_close(ctx);
    }
    let missing = DayLimits::default();
    let limits = match ctx.limits {
        Some(limits) => limits,
        None => &missing,
    };
    match limits.unlimited() {
        Err(detail) => Ok(CloseView::Refused(detail)),
        Ok(false) => plain_close(ctx),
        Ok(true) => {
            let base = match ctx.close_price {
                Some(tracker) => tracker.range_base(),
                None => None,
            };
            match base {
                None => Ok(
                    CloseView::Refused(
                        String::from_str("missing pre-14:57 successful trade for SZ E0 range"),
                    ),
                ),
                Some(base) => match project(ctx.book, &base, limits) {
                    Ok((view, band)) => Ok(CloseView::Shown(view, Some(band))),
                    Err(error) => Ok(CloseView::Refused(error.message())),
                },
            }
        },
    }
}

fn compare_close(
    ctx: CandidateContext<'_>,
    reference: &mut ReferenceSnapshot,
    expected: &ReferenceBookView,
    time_ns: Option<i64>,
) -> (r: Result<(), ProductionError>)
    requires
        ctx.wf(),
        old(reference)@.view == Some(expected@),
    ensures
        ({
            let (state, error) = ctx.model().compared_close(old(reference)@, time_ns);
            &&& final(reference)@ == (ReferenceModel { state, ..old(reference)@ })
            &&& match error {
                Some(error) => r is Err && r->Err_0@ == error,
                None => r is Ok,
            }
        }),
{
    let quantum: i64 = ctx.rules.price_quantum;
    match close_view(ctx) {
        Err(error) => Err(error),
        Ok(CloseView::Refused(detail)) => {
            reference.state.comparison_error = Some(detail);
            reference.state.finalized = true;
            Ok(())
        },
        Ok(CloseView::Shown(view, band)) => {
            let mut actual = view;
            let precision = reference.precision(expected, &actual);
            let tolerate = precision.is_some();
            let mut mask = reference.mask(expected, &actual, quantum, tolerate);
            let tag = if ctx.market == Market::Szse {
                match reconcile_sz_market_close_price(
                    ctx.symbol,
                    reference.pre_close_price_units,
                    ctx.close_price,
                    expected.last_price_units,
                    only_last_price(mask),
                ) {
                    Ok(tag) => tag,
                    Err(error) => return Err(error),
                }
            } else {
                None
            };
            if tag.is_some() {
                actual.last_price_units = expected.last_price_units;
                mask = reference.mask(expected, &actual, quantum, tolerate);
            }
            reference.state.judge(mask, expected, &actual, precision, band, tag, ctx, time_ns);
            Ok(())
        },
    }
}

fn compare_open(
    ctx: CandidateContext<'_>,
    reference: &mut ReferenceSnapshot,
    expected: &ReferenceBookView,
    cache: &mut CandidateCache,
    time_ns: Option<i64>,
) -> (r: Result<(), ProductionError>)
    requires
        ctx.wf(),
        old(cache)@.wf(ctx.rules.price_quantum),
        old(reference)@.view == Some(expected@),
    ensures
        final(cache)@.wf(ctx.rules.price_quantum),
        ({
            let compared = ctx.model().compared_open(old(reference)@, old(cache)@, time_ns);
            &&& final(reference)@ == (ReferenceModel { state: compared.state, ..old(reference)@ })
            &&& final(cache)@ == compared.cache
            &&& match compared.error {
                Some(error) => r is Err && r->Err_0@ == error,
                None => r is Ok,
            }
        }),
{
    let quantum: i64 = ctx.rules.price_quantum;
    match cache.prepare(ctx) {
        Ok(()) => {},
        Err(error) => return Err(error),
    }
    let ghost prepared = cache@;
    let mut actual = match cache.view.take() {
        Some(view) => view,
        None => return Err(ProductionError::Arithmetic("missing candidate cache")),
    };
    let precision = reference.precision(expected, &actual);
    let mask = reference.scalar_mask(expected, &actual, quantum, precision.is_some());
    if !mask.is_empty() && !reference.state.improved_by(mask.count()) {
        cache.view = Some(actual);
        assert(cache@ =~= prepared);
        return Ok(());
    }
    if !cache.depth_ready {
        actual.fill_depth(ctx.book, 10);
        cache.depth_ready = true;
    }
    let mask = reference.mask(expected, &actual, quantum, precision.is_some());
    reference.state.judge(mask, expected, &actual, precision, None, None, ctx, time_ns);
    cache.view = Some(actual);
    assert(cache@ =~= prepared.deepened(ctx.book@));
    Ok(())
}

/// Compares a book with a reference that is neither matched nor final.
pub fn compare_candidate(
    ctx: CandidateContext<'_>,
    reference: &mut ReferenceSnapshot,
    cache: &mut CandidateCache,
    anchor: ValidationAnchor,
    candidate_time_ns: Option<i64>,
) -> (r: Result<(), ProductionError>)
    requires
        ctx.wf(),
        old(cache)@.wf(ctx.rules.price_quantum),
    ensures
        final(cache)@.wf(ctx.rules.price_quantum),
        ({
            let compared = ctx.model().compared(
                old(reference)@,
                old(cache)@,
                anchor,
                candidate_time_ns,
            );
            &&& final(reference)@ == (ReferenceModel { state: compared.state, ..old(reference)@ })
            &&& final(cache)@ == compared.cache
            &&& match compared.error {
                Some(error) => r is Err && r->Err_0@ == error,
                None => r is Ok,
            }
        }),
{
    if reference.state.matched || reference.state.finalized {
        return Ok(());
    }
    let expected = match reference.view {
        Some(view) => view,
        None => return Ok(()),
    };
    if anchor == ValidationAnchor::MarketClose {
        compare_close(ctx, reference, &expected, candidate_time_ns)
    } else {
        compare_open(ctx, reference, &expected, cache, candidate_time_ns)
    }
}

/// A match is final: no later candidate changes it.
pub proof fn matches_are_final(
    ctx: ContextModel,
    reference: ReferenceModel,
    cache: CacheModel,
    anchor: ValidationAnchor,
    time_ns: Option<i64>,
)
    requires
        reference.state.matched || reference.state.finalized,
    ensures
        ctx.compared(reference, cache, anchor, time_ns).state == reference.state,
        ctx.compared(reference, cache, anchor, time_ns).cache == cache,
        ctx.compared(reference, cache, anchor, time_ns).error is None,
{
}

/// A candidate that is rejected for its scalars would not have changed anything with its
/// levels either.
pub proof fn early_rejections_change_nothing(
    ctx: ContextModel,
    reference: ReferenceModel,
    scalars: SnapshotBookModel,
    time_ns: Option<i64>,
)
    requires
        reference.view is Some,
        ctx.rejects(reference, scalars),
    ensures
        ({
            let actual = with_depth(scalars, ctx.book);
            reference.state.judged(
                Judgment {
                    mask: reference_mask(reference, actual, ctx.rules.price_quantum),
                    expected: reference.view->0,
                    actual,
                    precision: tolerated(reference, actual),
                    band: None,
                    tag: None,
                },
                ctx.rules.price_quantum,
                ctx.book.last_meta,
                time_ns,
            ) == reference.state
        }),
{
    reveal(AnchorModel::judged);
    reveal(reference_mask);
    reveal(reference_scalar_mask);
    let quantum = ctx.rules.price_quantum;
    let actual = with_depth(scalars, ctx.book);
    let part = reference_scalar_mask(reference, scalars, quantum);
    let full = reference_mask(reference, actual, quantum);
    lemma_depth_adds(part, full);
    if full == DifferenceMask::none() {
        assert(part == DifferenceMask::none());
    }
}

/// A comparison through a cache that tracks the book comes out as one without a cache, and
/// leaves a cache that tracks the book.
pub proof fn cached_candidates_are_fresh(
    ctx: ContextModel,
    reference: ReferenceModel,
    cache: CacheModel,
    anchor: ValidationAnchor,
    time_ns: Option<i64>,
)
    requires
        cache.tracks(ctx.book, ctx.rules.price_quantum),
    ensures
        ({
            let cached = ctx.compared(reference, cache, anchor, time_ns);
            let fresh = ctx.compared(reference, CacheModel::empty(), anchor, time_ns);
            &&& cached.state == fresh.state
            &&& cached.error == fresh.error
            &&& cached.cache.tracks(ctx.book, ctx.rules.price_quantum)
        }),
{
    let quantum = ctx.rules.price_quantum;
    let m = ctx.book;
    let empty = CacheModel::empty();
    if !(reference.state.matched || reference.state.finalized || reference.view is None
        || anchor == ValidationAnchor::MarketClose) && cache.hits(m) {
        let scalars = scalar_view(m, quantum)->Ok_0;
        let view = cache.view->0;
        assert(reference_scalar_mask(reference, view, quantum) == reference_scalar_mask(
            reference,
            scalars,
            quantum,
        )) by {
            reveal(reference_scalar_mask);
        }
        assert(with_depth(with_depth(scalars, m), m) == with_depth(scalars, m));
    }
}

/// A cache goes on tracking a book that changes: every change gives the book a revision for
/// which nothing is cached.
pub proof fn changes_leave_the_cache_behind(
    cache: CacheModel,
    before: BookModel,
    after: BookModel,
    quantum: i64,
)
    requires
        cache.tracks(before, quantum),
        after.revision == revision_next(before.revision),
    ensures
        cache.tracks(after, quantum),
{
}

/// The best candidate so far never gets worse, and is there after every candidate that did
/// not match.
pub proof fn best_candidates_never_get_worse(
    state: AnchorModel,
    judgment: Judgment,
    quantum: i64,
    meta: Option<MetaModel>,
    time_ns: Option<i64>,
)
    ensures
        ({
            let next = state.judged(judgment, quantum, meta, time_ns);
            if judgment.mask == DifferenceMask::none() {
                next.matched && next.finalized
            } else {
                &&& next.matched == state.matched
                &&& next.best_differences is Some
                &&& next.best_differences->0.len() <= judgment.mask.spec_count()
                &&& state.best_differences is Some ==> next.best_differences->0.len()
                    <= state.best_differences->0.len()
            }
        }),
{
    reveal(AnchorModel::judged);
    masks_count_their_differences(
        judgment.mask,
        quantum,
        judgment.expected,
        judgment.actual,
    );
}

impl ContextModel {
    /// Whether a book shows what a reference says, but for a turnover that is tolerated.
    pub open spec fn agrees(self, reference: ReferenceModel) -> bool {
        match scalar_view(self.book, self.rules.price_quantum) {
            Ok(view) => reference_mask(
                reference,
                with_depth(view, self.book),
                self.rules.price_quantum,
            ) == DifferenceMask::none(),
            Err(_) => false,
        }
    }
}

/// While the market is open, a reference that is still to be decided is matched by just those
/// candidates that agree with it, at the time of the candidate.
pub proof fn open_references_match_what_agrees(
    ctx: ContextModel,
    reference: ReferenceModel,
    cache: CacheModel,
    anchor: ValidationAnchor,
    time_ns: Option<i64>,
)
    requires
        cache.tracks(ctx.book, ctx.rules.price_quantum),
        scalar_view(ctx.book, ctx.rules.price_quantum) is Ok,
        anchor != ValidationAnchor::MarketClose,
        !reference.state.matched,
        !reference.state.finalized,
        reference.view is Some,
    ensures
        ({
            let compared = ctx.compared(reference, cache, anchor, time_ns);
            &&& compared.error is None
            &&& compared.state.matched <==> ctx.agrees(reference)
            &&& compared.state.finalized <==> ctx.agrees(reference)
            &&& ctx.agrees(reference) ==> compared.state.matched_candidate_time_ns == time_ns
            &&& compared.cache.tracks(ctx.book, ctx.rules.price_quantum)
        }),
{
    cached_candidates_are_fresh(ctx, reference, cache, anchor, time_ns);
    let quantum = ctx.rules.price_quantum;
    let scalars = scalar_view(ctx.book, quantum)->Ok_0;
    let actual = with_depth(scalars, ctx.book);
    let part = reference_scalar_mask(reference, scalars, quantum);
    let full = reference_mask(reference, actual, quantum);
    assert(full == DifferenceMask::none() ==> part == DifferenceMask::none()) by {
        reveal(reference_mask);
        reveal(reference_scalar_mask);
        lemma_depth_adds(part, full);
    }
    reveal(AnchorModel::judged);
}

} // verus!
