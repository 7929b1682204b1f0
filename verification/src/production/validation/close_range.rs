//! Validation-only E0 projection. Never changes an OrderBook or replay output.

use vstd::prelude::*;
use vstd::string::StringExecFns;

use crate::market_data::Side;
use crate::order_book::{shown_quantity, shown_weighted, BookModel, LevelView, OrderBook};
use crate::sums::{lemma_sum_prefix, lemma_sum_push, lemma_sum_take, seq_sum};
use crate::text::{i64_text, int_text};

use super::super::error::{ErrorModel, ProductionError};
use super::super::snapshot::{
    snapshot_level, SnapshotBookModel, SnapshotBookView, SnapshotLevel, SnapshotLevels,
};
use super::precision::UpperLimitNormalizationAudit;
use super::rules::{
    lemma_average_fits, multiples_stay, quantizable, round_weighted_to_quantum, weighted_average,
};
use super::sz_close_price::RangeBase;

verus! {

/// The upper limit that marks a day without limits.
pub const NO_UPPER_LIMIT: i64 = 9_999_999_999_999;

/// The same mark after rounding to twelve digits.
pub const ROUNDED_NO_UPPER_LIMIT: i64 = 10_000_000_000_000;

pub const TICK: i64 = 100;

/// The price limits of a day, as its reference records tell them.
#[derive(Debug, PartialEq, Eq)]
pub struct DayLimits {
    pub values: Option<(i64, i64)>,
    pub source: String,
    pub error: Option<String>,
    pub upper_limit_normalization: Option<UpperLimitNormalizationAudit>,
}

/// An audit of normalized limits, with its text as a sequence of characters.
pub struct NormalizationModel {
    pub records: u64,
    pub first_source: Seq<char>,
    pub raw_upper_units: i64,
    pub normalized_upper_units: i64,
}

impl View for UpperLimitNormalizationAudit {
    type V = NormalizationModel;

    open spec fn view(&self) -> NormalizationModel {
        NormalizationModel {
            records: self.records,
            first_source: self.first_source@,
            raw_upper_units: self.raw_upper_units,
            normalized_upper_units: self.normalized_upper_units,
        }
    }
}

pub open spec fn normalization_view(audit: Option<UpperLimitNormalizationAudit>) -> Option<
    NormalizationModel,
> {
    match audit {
        Some(audit) => Some(audit@),
        None => None,
    }
}

pub open spec fn text_view(text: Option<String>) -> Option<Seq<char>> {
    match text {
        Some(text) => Some(text@),
        None => None,
    }
}

/// The price limits of a day, with texts as sequences of characters.
pub struct LimitsModel {
    pub values: Option<(i64, i64)>,
    pub source: Seq<char>,
    pub error: Option<Seq<char>>,
    pub upper_limit_normalization: Option<NormalizationModel>,
}

impl View for DayLimits {
    type V = LimitsModel;

    open spec fn view(&self) -> LimitsModel {
        LimitsModel {
            values: self.values,
            source: self.source@,
            error: text_view(self.error),
            upper_limit_normalization: normalization_view(self.upper_limit_normalization),
        }
    }
}

/// What a reference record tells of the limits: the upper and the lower, or what is wrong.
pub open spec fn values_view(values: Result<(i64, i64), String>) -> Result<(i64, i64), Seq<char>> {
    match values {
        Ok(values) => Ok(values),
        Err(error) => Err(error@),
    }
}

pub open spec fn pair_text(pair: (i64, i64)) -> Seq<char> {
    "("@ + int_text(pair.0 as int) + ", "@ + int_text(pair.1 as int) + ")"@
}

/// Whether two limits make sense: none at all, or positive whole ticks in order.
pub open spec fn limits_are_valid(high: i64, low: i64) -> bool {
    ||| high == NO_UPPER_LIMIT && (low == TICK || low == -NO_UPPER_LIMIT)
    ||| 0 < high < NO_UPPER_LIMIT && 0 < low <= high && high % TICK == 0 && low % TICK == 0
}

impl LimitsModel {
    pub open spec fn empty() -> Self {
        LimitsModel {
            values: None,
            source: Seq::empty(),
            error: None,
            upper_limit_normalization: None,
        }
    }

    /// Whether a record has to say where it comes from.
    pub open spec fn asks_for_source(self, values: Result<(i64, i64), Seq<char>>) -> bool {
        &&& self.error is None
        &&& !(values is Ok && limits_are_valid(values->Ok_0.0, values->Ok_0.1) && self.values
            == Some(values->Ok_0))
    }

    /// The limits after one more record. The first error stays.
    pub open spec fn observed(self, values: Result<(i64, i64), Seq<char>>, source: Seq<char>) -> Self {
        if self.error is Some {
            self
        } else {
            match values {
                Err(error) => LimitsModel { error: Some(error + " at "@ + source), ..self },
                Ok(pair) => if !limits_are_valid(pair.0, pair.1) {
                    LimitsModel {
                        error: Some(
                            "invalid SZ daily price limits "@ + pair_text(pair) + " at "@ + source,
                        ),
                        ..self
                    }
                } else if self.values is None {
                    LimitsModel { values: Some(pair), source, ..self }
                } else if self.values->0 != pair {
                    LimitsModel {
                        error: Some(
                            "conflicting SZ daily price limits: "@ + pair_text(self.values->0)
                                + " at "@ + self.source + " vs "@ + pair_text(pair) + " at "@
                                + source,
                        ),
                        ..self
                    }
                } else {
                    self
                },
            }
        }
    }

    /// Whether a record carries the rounded mark of a day without limits.
    pub open spec fn is_rounded_mark(
        values: Result<(i64, i64), Seq<char>>,
        missing_reception: bool,
    ) -> bool {
        missing_reception && values == Ok::<(i64, i64), Seq<char>>(
            (ROUNDED_NO_UPPER_LIMIT, TICK),
        )
    }

    /// Whether a reference record has to say where it comes from.
    pub open spec fn asks_for_reference(
        self,
        values: Result<(i64, i64), Seq<char>>,
        missing_reception: bool,
    ) -> bool {
        &&& self.error is None
        &&& Self::is_rounded_mark(values, missing_reception) || self.asks_for_source(values)
    }

    /// The limits after one more record, whose rounded mark counts as the mark where the
    /// record lacks its reception.
    pub open spec fn observed_reference(
        self,
        values: Result<(i64, i64), Seq<char>>,
        missing_reception: bool,
        source: Seq<char>,
    ) -> Self {
        if self.error is Some {
            self
        } else if Self::is_rounded_mark(values, missing_reception) {
            let next = self.observed(Ok((NO_UPPER_LIMIT, TICK)), source);
            if next.error is Some {
                next
            } else {
                LimitsModel {
                    upper_limit_normalization: Some(
                        match self.upper_limit_normalization {
                            Some(audit) => NormalizationModel {
                                records: (audit.records + 1) as u64,
                                ..audit
                            },
                            None => NormalizationModel {
                                records: 1,
                                first_source: source,
                                raw_upper_units: ROUNDED_NO_UPPER_LIMIT,
                                normalized_upper_units: NO_UPPER_LIMIT,
                            },
                        },
                    ),
                    ..next
                }
            }
        } else {
            self.observed(values, source)
        }
    }

    /// Whether the day has no limits, or why that cannot be told.
    pub open spec fn unlimited(self) -> Result<bool, Seq<char>> {
        if self.error is Some {
            Err(self.error->0)
        } else {
            match self.values {
                Some((high, _)) => Ok(high == NO_UPPER_LIMIT),
                None => Err("missing SZ daily price-limit metadata for E0 comparison"@),
            }
        }
    }

    /// How many records were normalized.
    pub open spec fn normalized_records(self) -> u64 {
        match self.upper_limit_normalization {
            Some(audit) => audit.records,
            None => 0,
        }
    }
}

/// The first limits of a day stay, with the place that they come from, and so does the first
/// error: no later record alters them.
pub proof fn first_limits_stay(
    limits: LimitsModel,
    values: Result<(i64, i64), Seq<char>>,
    missing_reception: bool,
    source: Seq<char>,
)
    ensures
        ({
            let plain = limits.observed(values, source);
            let reference = limits.observed_reference(values, missing_reception, source);
            &&& limits.error is Some ==> plain == limits && reference == limits
            &&& limits.values is Some ==> {
                &&& plain.values == limits.values && plain.source == limits.source
                &&& reference.values == limits.values && reference.source == limits.source
            }
            &&& !limits.asks_for_source(values) ==> plain == limits
        }),
{
}

fn pair_string(pair: (i64, i64)) -> (r: String)
    ensures
        r@ == pair_text(pair),
{
    let mut r = String::from_str("(");
    r.append(i64_text(pair.0).as_str());
    r.append(", ");
    r.append(i64_text(pair.1).as_str());
    r.append(")");
    r
}

impl Default for DayLimits {
    fn default() -> (r: Self)
        ensures
            r@ == LimitsModel::empty(),
    {
        let r = DayLimits {
            values: None,
            source: String::new(),
            error: None,
            upper_limit_normalization: None,
        };
        assert(r.source@ =~= Seq::<char>::empty());
        r
    }
}

impl DayLimits {
    /// Takes the limits of a record. The source is asked for only where it is told on.
    pub fn observe_lazy<F: FnOnce() -> String>(
        &mut self,
        values: Result<(i64, i64), String>,
        source: F,
    )
        requires
            source.requires(()),
        ensures
            exists|text: String|
                (old(self)@.asks_for_source(values_view(values)) ==> source.ensures((), text))
                    && final(self)@ == old(self)@.observed(values_view(values), #[trigger] text@),
    {
        if self.error.is_some() {
            proof {
                assert(self@ == self@.observed(values_view(values), self.source@));
            }
            return ;
        }
        let pair = match values {
            Ok((high, low)) => {
                let valid = (high == NO_UPPER_LIMIT && (low == TICK || low == -NO_UPPER_LIMIT)) || (
                high > 0 && high < NO_UPPER_LIMIT && low > 0 && low <= high && high % TICK == 0
                    && low % TICK == 0);
                if !valid {
                    let text = source();
                    let mut detail = String::from_str("invalid SZ daily price limits ");
                    detail.append(pair_string((high, low)).as_str());
                    detail.append(" at ");
                    detail.append(text.as_str());
                    self.error = Some(detail);
                    assert(self@ == old(self)@.observed(values_view(values), text@));
                    return ;
                }
                (high, low)
            },
            Err(error) => {
                let text = source();
                let mut detail = error;
                let ghost head = detail@;
                detail.append(" at ");
                detail.append(text.as_str());
                assert(detail@ == head + " at "@ + text@);
                self.error = Some(detail);
                assert(self@ == old(self)@.observed(values_view(values), text@));
                return ;
            },
        };
        match self.values {
            Some(previous) => {
                if previous.0 != pair.0 || previous.1 != pair.1 {
                    let text = source();
                    let mut detail = String::from_str("conflicting SZ daily price limits: ");
                    detail.append(pair_string(previous).as_str());
                    detail.append(" at ");
                    detail.append(self.source.as_str());
                    detail.append(" vs ");
                    detail.append(pair_string(pair).as_str());
                    detail.append(" at ");
                    detail.append(text.as_str());
                    self.error = Some(detail);
                    assert(self@ == old(self)@.observed(values_view(values), text@));
                } else {
                    assert(self@ == old(self)@.observed(values_view(values), self.source@));
                }
            },
            None => {
                let text = source();
                self.values = Some(pair);
                self.source = text;
                assert(self@ == old(self)@.observed(values_view(values), self.source@));
            },
        }
    }

    /// Takes the limits of a record, with the place that it comes from.
    pub fn observe(&mut self, values: Result<(i64, i64), String>, source: String)
        ensures
            final(self)@ == old(self)@.observed(values_view(values), source@),
    {
        let ghost text = source@;
        let give = move || -> (r: String)
            ensures
                r@ == text,
            { source };
        self.observe_lazy(values, give);
        proof {
            let seen = values_view(values);
            let told = choose|told: String|
                (old(self)@.asks_for_source(seen) ==> give.ensures((), told)) && self@ == old(
                    self,
                )@.observed(seen, #[trigger] told@);
            if old(self)@.asks_for_source(seen) {
                assert(told@ == text);
            } else {
                assert(old(self)@.observed(seen, told@) == old(self)@.observed(seen, text));
            }
        }
    }

    /// Takes the limits of a reference record. The source is asked for only where it is told
    /// on, and for every rounded mark.
    pub fn observe_reference<F: FnOnce() -> String>(
        &mut self,
        values: Result<(i64, i64), String>,
        missing_reception: bool,
        source: F,
    )
        requires
            source.requires(()),
            old(self)@.normalized_records() < u64::MAX,
        ensures
            exists|text: String|
                (old(self)@.asks_for_reference(values_view(values), missing_reception)
                    ==> source.ensures((), text)) && final(self)@ == old(
                    self,
                )@.observed_reference(values_view(values), missing_reception, #[trigger] text@),
            final(self)@.normalized_records() <= old(self)@.normalized_records() + 1,
    {
        if self.error.is_some() {
            proof {
                assert(self@ == self@.observed_reference(
                    values_view(values),
                    missing_reception,
                    self.source@,
                ));
            }
            return ;
        }
        let rounded = match &values {
            Ok(pair) => missing_reception && pair.0 == ROUNDED_NO_UPPER_LIMIT && pair.1 == TICK,
            Err(_) => false,
        };
        if !rounded {
            self.observe_lazy(values, source);
            proof {
                let seen = values_view(values);
                let told = choose|told: String|
                    (old(self)@.asks_for_source(seen) ==> source.ensures((), told)) && self@
                        == old(self)@.observed(seen, #[trigger] told@);
                assert(self@ == old(self)@.observed_reference(seen, missing_reception, told@));
            }
            return ;
        }
        let text = source();
        let first_source = text.clone();
        self.observe(Ok((NO_UPPER_LIMIT, TICK)), text);
        if self.error.is_none() {
            let next = match &self.upper_limit_normalization {
                Some(audit) => UpperLimitNormalizationAudit {
                    records: audit.records + 1,
                    first_source: audit.first_source.clone(),
                    raw_upper_units: audit.raw_upper_units,
                    normalized_upper_units: audit.normalized_upper_units,
                },
                None => UpperLimitNormalizationAudit {
                    records: 1,
                    first_source,
                    raw_upper_units: ROUNDED_NO_UPPER_LIMIT,
                    normalized_upper_units: NO_UPPER_LIMIT,
                },
            };
            self.upper_limit_normalization = Some(next);
        }
        assert(self@ == old(self)@.observed_reference(
            values_view(values),
            missing_reception,
            text@,
        ));
    }

    /// Whether the day has no limits.
    pub fn unlimited(&self) -> (r: Result<bool, String>)
        ensures
            match self@.unlimited() {
                Ok(unlimited) => r == Ok::<bool, String>(unlimited),
                Err(error) => r is Err && r->Err_0@ == error,
            },
    {
        if let Some(error) = &self.error {
            return Err(error.clone());
        }
        match self.values {
            Some((high, _)) => Ok(high == NO_UPPER_LIMIT),
            None => Err(
                String::from_str("missing SZ daily price-limit metadata for E0 comparison"),
            ),
        }
    }
}

/// Rule context, present on successful and failed projected comparisons alike.
#[derive(Debug, PartialEq, Eq)]
pub struct ClosePriceBandAudit {
    pub upper_limit_normalization: Option<UpperLimitNormalizationAudit>,
    pub rule: String,
    pub base_price_units: i64,
    pub base_quote_time_ms: i64,
    pub base_raw_sequence: u64,
    pub lower_price_units: i64,
    pub upper_price_units: i64,
    pub excluded_bid_quantity: u64,
    pub excluded_ask_quantity: u64,
    pub price_limit_metadata_source: String,
}

impl Clone for ClosePriceBandAudit {
    fn clone(&self) -> (r: Self)
        ensures
            r@ == self@,
    {
        ClosePriceBandAudit {
            upper_limit_normalization: match &self.upper_limit_normalization {
                Some(audit) => Some(audit.clone()),
                None => None,
            },
            rule: self.rule.clone(),
            base_price_units: self.base_price_units,
            base_quote_time_ms: self.base_quote_time_ms,
            base_raw_sequence: self.base_raw_sequence,
            lower_price_units: self.lower_price_units,
            upper_price_units: self.upper_price_units,
            excluded_bid_quantity: self.excluded_bid_quantity,
            excluded_ask_quantity: self.excluded_ask_quantity,
            price_limit_metadata_source: self.price_limit_metadata_source.clone(),
        }
    }
}

/// Rule context, with texts as sequences of characters.
pub struct BandModel {
    pub upper_limit_normalization: Option<NormalizationModel>,
    pub rule: Seq<char>,
    pub base_price_units: i64,
    pub base_quote_time_ms: i64,
    pub base_raw_sequence: u64,
    pub lower_price_units: i64,
    pub upper_price_units: i64,
    pub excluded_bid_quantity: u64,
    pub excluded_ask_quantity: u64,
    pub price_limit_metadata_source: Seq<char>,
}

impl View for ClosePriceBandAudit {
    type V = BandModel;

    open spec fn view(&self) -> BandModel {
        BandModel {
            upper_limit_normalization: normalization_view(self.upper_limit_normalization),
            rule: self.rule@,
            base_price_units: self.base_price_units,
            base_quote_time_ms: self.base_quote_time_ms,
            base_raw_sequence: self.base_raw_sequence,
            lower_price_units: self.lower_price_units,
            upper_price_units: self.upper_price_units,
            excluded_bid_quantity: self.excluded_bid_quantity,
            excluded_ask_quantity: self.excluded_ask_quantity,
            price_limit_metadata_source: self.price_limit_metadata_source@,
        }
    }
}

/// A tenth of so many tenths of a price, rounded to whole ticks, halves up.
pub open spec fn tick_share(price: int, factor: int) -> int {
    (price * factor + 500) / 1000 * 100
}

/// The closing range of a price: ten percent either way, at least one tick, never below one.
pub open spec fn range_of(price: int) -> (int, int) {
    let share = tick_share(price, 9);
    let nearer = if share < price - TICK {
        share
    } else {
        price - TICK
    };
    let lower = if nearer > TICK {
        nearer
    } else {
        TICK as int
    };
    let upper = if tick_share(price, 11) > price + TICK {
        tick_share(price, 11)
    } else {
        price + TICK
    };
    (lower, upper)
}

pub open spec fn bounds_error(price: i64) -> Option<ErrorModel> {
    if price <= 0 || price % TICK != 0 {
        Some(ErrorModel::Validation("invalid SZ closing-range base price"@))
    } else if tick_share(price as int, 11) > i64::MAX {
        Some(ErrorModel::Arithmetic("SZ closing range overflow"@))
    } else {
        None
    }
}

/// The closing range of a price.
pub fn bounds(price: i64) -> (r: Result<(i64, i64), ProductionError>)
    ensures
        match bounds_error(price) {
            Some(error) => r is Err && r->Err_0@ == error,
            None => {
                &&& r is Ok
                &&& r->Ok_0.0 == range_of(price as int).0
                &&& r->Ok_0.1 == range_of(price as int).1
            },
        },
{
    if price <= 0 || price % TICK != 0 {
        return Err(
            ProductionError::Validation(String::from_str("invalid SZ closing-range base price")),
        );
    }
    let wide: i128 = price as i128;
    let below: i128 = (wide * 9 + 500) / 1000 * 100;
    let above: i128 = (wide * 11 + 500) / 1000 * 100;
    if above > 0x7fff_ffff_ffff_ffff {
        return Err(ProductionError::Arithmetic("SZ closing range overflow"));
    }
    let share: i64 = below as i64;
    let nearer: i64 = if share < price - TICK {
        share
    } else {
        price - TICK
    };
    let lower: i64 = if nearer > TICK {
        nearer
    } else {
        TICK
    };
    assert(price + TICK <= 0x7fff_ffff_ffff_ffff);
    let next: i64 = price + TICK;
    let upper: i64 = if above as i64 > next {
        above as i64
    } else {
        next
    };
    Ok((lower, upper))
}

/// Whether a level lies in a closing range.
pub open spec fn in_range(level: LevelView, range: (int, int)) -> bool {
    range.0 <= level.price.spec_units() <= range.1
}

/// The levels that lie in a closing range, in their order.
pub open spec fn levels_in_range(levels: Seq<LevelView>, range: (int, int)) -> Seq<LevelView> {
    levels.filter(|level: LevelView| in_range(level, range))
}

/// One side of a book, seen through a closing range.
pub struct SideProjection {
    pub levels: Seq<SnapshotLevel>,
    pub total: int,
    pub weighted: int,
    pub excluded: int,
}

pub open spec fn side_projection(m: BookModel, side: Side, range: (int, int)) -> SideProjection {
    let all = m.depth_of(side);
    let kept = levels_in_range(all, range);
    SideProjection {
        levels: kept.take(
            if kept.len() < 10 {
                kept.len() as int
            } else {
                10
            },
        ).map_values(|level: LevelView| snapshot_level(level)),
        total: seq_sum(kept, shown_quantity()),
        weighted: seq_sum(kept, shown_weighted()),
        excluded: seq_sum(all, shown_quantity()) - seq_sum(kept, shown_quantity()),
    }
}

/// The average price of a projected side.
pub open spec fn projected_average(side: SideProjection) -> Result<Option<i64>, ErrorModel> {
    let average = weighted_average(side.weighted, side.total, TICK as int);
    if side.total == 0 {
        Ok(None)
    } else if average > i64::MAX {
        Err(ErrorModel::Arithmetic("SZ range average"@))
    } else {
        Ok(Some(average as i64))
    }
}

/// What a book shows of itself at the close of a day without limits, and the rule's context.
pub open spec fn projection(m: BookModel, base: RangeBase, limits: LimitsModel) -> Result<
    (SnapshotBookModel, BandModel),
    ErrorModel,
> {
    let range = range_of(base.price as int);
    let bids = side_projection(m, Side::Buy, range);
    let asks = side_projection(m, Side::Sell, range);
    if bounds_error(base.price) is Some {
        Err(bounds_error(base.price)->0)
    } else if base.raw_sequence is None {
        Err(
            ErrorModel::Validation("missing successful trade sequence for SZ closing range"@),
        )
    } else if projected_average(bids) is Err {
        Err(projected_average(bids)->Err_0)
    } else if projected_average(asks) is Err {
        Err(projected_average(asks)->Err_0)
    } else {
        Ok(
            (
                SnapshotBookModel {
                    bids: bids.levels,
                    asks: asks.levels,
                    total_bid_quantity: bids.total as u64,
                    weighted_bid_price_units: projected_average(bids)->Ok_0,
                    total_ask_quantity: asks.total as u64,
                    weighted_ask_price_units: projected_average(asks)->Ok_0,
                    ..SnapshotBookModel::of(m, 0)
                },
                BandModel {
                    upper_limit_normalization: limits.upper_limit_normalization,
                    rule: "SZ_UNLIMITED_STOCK_E0_PRICE_BAND"@,
                    base_price_units: base.price,
                    base_quote_time_ms: base.time_ms,
                    base_raw_sequence: base.raw_sequence->0,
                    lower_price_units: range.0 as i64,
                    upper_price_units: range.1 as i64,
                    excluded_bid_quantity: bids.excluded as u64,
                    excluded_ask_quantity: asks.excluded as u64,
                    price_limit_metadata_source: limits.source,
                },
            ),
        )
    }
}

/// The levels in range among one more level.
proof fn lemma_in_range_step(levels: Seq<LevelView>, range: (int, int), n: int)
    requires
        0 <= n < levels.len(),
    ensures
        levels_in_range(levels.take(n + 1), range) == if in_range(levels[n], range) {
            levels_in_range(levels.take(n), range).push(levels[n])
        } else {
            levels_in_range(levels.take(n), range)
        },
{
    reveal(Seq::filter);
    assert(levels.take(n + 1).drop_last() =~= levels.take(n));
    assert(levels.take(n + 1).last() == levels[n]);
}

/// The levels that were kept hold no more than all levels, and no more per unit than the
/// highest price.
proof fn lemma_kept_sums(levels: Seq<LevelView>, range: (int, int))
    requires
        forall|i: int| 0 <= i < levels.len() ==> (#[trigger] levels[i]).price.spec_units() >= 0,
    ensures
        0 <= seq_sum(levels_in_range(levels, range), shown_quantity()) <= seq_sum(
            levels,
            shown_quantity(),
        ),
        0 <= seq_sum(levels_in_range(levels, range), shown_weighted()) <= i64::MAX * seq_sum(
            levels_in_range(levels, range),
            shown_quantity(),
        ),
    decreases levels.len(),
{
    reveal(Seq::filter);
    if levels.len() > 0 {
        let front = levels.drop_last();
        let last = levels.last();
        assert forall|i: int| 0 <= i < front.len() implies (
        #[trigger] front[i]).price.spec_units() >= 0 by {
            assert(front[i] == levels[i]);
        }
        lemma_kept_sums(front, range);
        let kept = levels_in_range(front, range);
        lemma_sum_push(kept, last, shown_quantity());
        lemma_sum_push(kept, last, shown_weighted());
        assert(levels[levels.len() - 1] == last);
        let price = last.price.spec_units() as int;
        let quantity = last.total_quantity as int;
        let total = seq_sum(kept, shown_quantity());
        let top = 0x7fff_ffff_ffff_ffffint;
        assert(0 <= price * quantity <= top * quantity && top * (total + quantity) == top * total
            + top * quantity) by (nonlinear_arith)
            requires
                0 <= price <= top,
                0 <= quantity,
        ;
    }
}

/// One side of a book, seen through a closing range.
struct ProjectedSide {
    levels: SnapshotLevels,
    total: u64,
    excluded: u64,
    average: Option<i64>,
}

fn project_side(book: &OrderBook, side: Side, lower: i64, upper: i64) -> (r: Result<
    ProjectedSide,
    ProductionError,
>)
    requires
        book.wf(),
    ensures
        ({
            let projected = side_projection(book@, side, (lower as int, upper as int));
            match projected_average(projected) {
                Ok(average) => {
                    &&& r is Ok
                    &&& r->Ok_0.levels@ == projected.levels
                    &&& r->Ok_0.total == projected.total
                    &&& r->Ok_0.excluded == projected.excluded
                    &&& r->Ok_0.average == average
                    &&& quantizable(TICK, average)
                },
                Err(error) => r is Err && r->Err_0@ == error,
            }
        }),
{
    let all = book.levels(side);
    let aggregate = book.visible_aggregate(side);
    let ghost range = (lower as int, upper as int);
    let ghost whole = all@;
    let ghost shown = |level: LevelView| snapshot_level(level);
    proof {
        book.visible_prices_are_positive(side);
        assert forall|i: int| 0 <= i < whole.len() implies shown_quantity()(#[trigger] whole[i])
            >= 0 by {}
    }
    let mut levels = SnapshotLevels::new();
    let mut total: u64 = 0;
    let mut weighted: u128 = 0;
    let mut excluded: u64 = 0;
    let mut at: usize = 0;
    proof {
        reveal(Seq::filter);
        assert(whole.take(0) =~= Seq::empty());
        assert(levels_in_range(whole.take(0), range) =~= Seq::<LevelView>::empty());
        assert(levels@ =~= Seq::<LevelView>::empty().take(0).map_values(shown));
    }
    while at < all.len()
        invariant
            whole == all@,
            at <= whole.len(),
            range == (lower as int, upper as int),
            shown == (|level: LevelView| snapshot_level(level)),
            aggregate.0 == seq_sum(whole, shown_quantity()),
            forall|i: int|
                0 <= i < whole.len() ==> (#[trigger] whole[i]).price.spec_units() >= 0,
            forall|i: int| 0 <= i < whole.len() ==> shown_quantity()(#[trigger] whole[i]) >= 0,
            total == seq_sum(levels_in_range(whole.take(at as int), range), shown_quantity()),
            weighted == seq_sum(levels_in_range(whole.take(at as int), range), shown_weighted()),
            excluded == seq_sum(whole.take(at as int), shown_quantity()) - total,
            ({
                let kept = levels_in_range(whole.take(at as int), range);
                levels@ == kept.take(
                    if kept.len() < 10 {
                        kept.len() as int
                    } else {
                        10
                    },
                ).map_values(shown)
            }),
        decreases whole.len() - at,
    {
        let level = all[at];
        let units: i64 = level.price.units();
        let ghost kept = levels_in_range(whole.take(at as int), range);
        proof {
            assert(whole[at as int] == level);
            lemma_in_range_step(whole, range, at as int);
            lemma_sum_take(whole, at as int, shown_quantity());
            lemma_sum_prefix(whole, at + 1, shown_quantity());
            lemma_sum_push(kept, level, shown_quantity());
            lemma_sum_push(kept, level, shown_weighted());
            assert forall|i: int| 0 <= i < whole.take(at + 1).len() implies (
            #[trigger] whole.take(at + 1)[i]).price.spec_units() >= 0 by {
                assert(whole.take(at + 1)[i] == whole[i]);
            }
            lemma_kept_sums(whole.take(at + 1), range);
        }
        if units < lower || units > upper {
            excluded = excluded + level.total_quantity;
        } else {
            proof {
                let top = 0x7fff_ffff_ffff_ffffint;
                let price = units as int;
                let quantity = level.total_quantity as int;
                assert(0 <= price * quantity <= top * 0xffff_ffff_ffff_ffff) by (nonlinear_arith)
                    requires
                        0 <= price <= top,
                        0 <= quantity <= 0xffff_ffff_ffff_ffff,
                ;
                let sum = seq_sum(kept.push(level), shown_quantity());
                assert(top * sum <= top * 0xffff_ffff_ffff_ffff) by (nonlinear_arith)
                    requires
                        sum <= 0xffff_ffff_ffff_ffff,
                        top == 0x7fff_ffff_ffff_ffff,
                ;
            }
            total = total + level.total_quantity;
            weighted = weighted + units as u128 * level.total_quantity as u128;
            if levels.len() < 10 {
                levels.push(
                    SnapshotLevel {
                        price_units: units,
                        quantity: level.total_quantity,
                        order_count: level.order_count as u64,
                    },
                );
                assert(kept.take(kept.len() as int) =~= kept);
                assert(kept.push(level).take(kept.len() as int + 1) =~= kept.push(level));
                assert(levels@ =~= kept.push(level).map_values(shown));
            } else {
                assert(kept.push(level).take(10) =~= kept.take(10));
            }
        }
        at = at + 1;
    }
    proof {
        assert(whole.take(at as int) =~= whole);
        lemma_kept_sums(whole, range);
    }
    let average: Option<i64> = if total == 0 {
        None
    } else {
        proof {
            lemma_average_fits(weighted as int, total as int, TICK as int);
            let divisor = total as int * TICK;
            multiples_stay(TICK as int, (weighted as int + divisor / 2) / divisor);
        }
        let units: u128 = match round_weighted_to_quantum(weighted, total as u128, TICK as u128) {
            Ok(units) => units,
            Err(error) => return Err(error),
        };
        if units > 0x7fff_ffff_ffff_ffff {
            return Err(ProductionError::Arithmetic("SZ range average"));
        }
        Some(units as i64)
    };
    Ok(ProjectedSide { levels, total, excluded, average })
}

/// What a book shows of itself at the close of a day without limits.
pub fn project(book: &OrderBook, base: &RangeBase, metadata: &DayLimits) -> (r: Result<
    (SnapshotBookView, ClosePriceBandAudit),
    ProductionError,
>)
    requires
        book.wf(),
    ensures
        match projection(book@, *base, metadata@) {
            Ok((view, audit)) => {
                &&& r is Ok
                &&& r->Ok_0.0@ == view
                &&& r->Ok_0.1@ == audit
                &&& quantizable(TICK, view.weighted_bid_price_units)
                &&& quantizable(TICK, view.weighted_ask_price_units)
            },
            Err(error) => r is Err && r->Err_0@ == error,
        },
{
    let (lower, upper) = match bounds(base.price) {
        Ok(range) => range,
        Err(error) => return Err(error),
    };
    let base_raw_sequence: u64 = match base.raw_sequence {
        Some(sequence) => sequence,
        None => return Err(
            ProductionError::Validation(
                String::from_str("missing successful trade sequence for SZ closing range"),
            ),
        ),
    };
    // Depth zero avoids first taking ten unfiltered levels. Statistics are kept.
    let mut actual = SnapshotBookView::from_book(book, 0);
    let bids = match project_side(book, Side::Buy, lower, upper) {
        Ok(side) => side,
        Err(error) => return Err(error),
    };
    let asks = match project_side(book, Side::Sell, lower, upper) {
        Ok(side) => side,
        Err(error) => return Err(error),
    };
    actual.bids = bids.levels;
    actual.total_bid_quantity = bids.total;
    actual.weighted_bid_price_units = bids.average;
    actual.asks = asks.levels;
    actual.total_ask_quantity = asks.total;
    actual.weighted_ask_price_units = asks.average;
    let normalization = match &metadata.upper_limit_normalization {
        Some(audit) => Some(audit.clone()),
        None => None,
    };
    Ok(
        (
            actual,
            ClosePriceBandAudit {
                upper_limit_normalization: normalization,
                rule: String::from_str("SZ_UNLIMITED_STOCK_E0_PRICE_BAND"),
                base_price_units: base.price,
                base_quote_time_ms: base.time_ms,
                base_raw_sequence,
                lower_price_units: lower,
                upper_price_units: upper,
                excluded_bid_quantity: bids.excluded,
                excluded_ask_quantity: asks.excluded,
                price_limit_metadata_source: metadata.source.clone(),
            },
        ),
    )
}

} // verus!
