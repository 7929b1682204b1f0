//! What the windows, the phases, the closing rules and the report of a validation come down to.

use vstd::prelude::*;

use crate::market_data::{Market, Side};
use crate::order_book::{BookModel, LevelView};
use crate::sums::seq_sum;
use crate::text::{begins, ends, int_text, lemma_ends_of_texts, nat_text};

use super::super::count_map::{incremented, is_full};
use super::super::duration::Duration;
use super::super::error::ErrorModel;
use super::super::replay::observe::ObservationPoint;
use super::super::snapshot::SnapshotLevel;
use super::super::time::spec_time_of_day;
use super::super::types::{spec_is_chinext, spec_is_etf, ValidationAnchor};
use super::candidate::{
    open_references_match_what_agrees, scalar_view, with_depth, AnchorModel, CacheModel,
    CloseCandidate, ContextModel, ReferenceModel,
};
use super::close_range::{
    bounds_error, in_range, levels_in_range, limits_are_valid, projected_average, projection,
    range_of, side_projection, tick_share, LimitsModel, SideProjection,
};
use super::counts::{
    CountsModel, CoverageCounts, CoverageModel, RunOutcome, ValidationCounts, ValidationOutcome,
};
use super::difference::{
    level_list_text, level_text, levels_text, optional_text, tolerance_text, DifferenceModel,
};
use super::laws::{one, shows_units};
use super::observer::ObserverModel;
use super::phases::{
    FirstSamplesModel, PhaseFlags, PhaseModel, ReferenceCoverage, SampleModel, SelectionModel,
    SkipCounts, SkipReason,
};
use super::report::{
    class_name, classified, precedes, report_market, run_outcome_of, CaseModel, DraftModel,
    RecordModel, Retention,
};
use super::rules::{anchor_name, millis, SymbolValidationRules};
use super::sz_close_price::{
    close_price_tag, since, RangeBase, TrackerModel, TradeSample,
};
use super::window::{close_step, pre_open_step, walked, ReferencesModel, WindowConfig};

verus! {

/// The horizon of a symbol is the one asked for; by default it is the base horizon, 1,100
/// milliseconds for Shenzhen funds and three seconds for ChiNext stocks.
pub proof fn horizons_follow_the_instrument(
    market: Market,
    symbol: Seq<char>,
    lookahead_ns: i64,
    lookahead_override: bool,
)
    ensures
        ({
            let rules = SymbolValidationRules::of(
                market,
                symbol,
                lookahead_ns,
                lookahead_override,
            );
            &&& rules.is_etf == spec_is_etf(market, symbol)
            &&& market == Market::Szse && !spec_is_etf(market, symbol) ==> rules.price_quantum
                == 100
            &&& market == Market::Sse || spec_is_etf(market, symbol) ==> rules.price_quantum == 10
            &&& lookahead_override || market == Market::Sse ==> rules.lookahead_ns == lookahead_ns
            &&& !lookahead_override && market == Market::Szse ==> {
                &&& spec_is_etf(market, symbol) ==> rules.lookahead_ns == 1_100_000_000
                &&& !spec_is_etf(market, symbol) && spec_is_chinext(symbol) ==> rules.lookahead_ns
                    == 3_000_000_000
                &&& !spec_is_etf(market, symbol) && !spec_is_chinext(symbol)
                    ==> rules.lookahead_ns == lookahead_ns
            }
        }),
{
}

/// The windows that an observer starts with: a second back in Shanghai and none in Shenzhen,
/// a second ahead in both.
pub proof fn standard_windows(
    market: Market,
    references: Map<Seq<char>, ReferencesModel>,
    pre_open_only: bool,
)
    ensures
        ({
            let observer = ObserverModel::fresh(market, references, pre_open_only);
            &&& market == Market::Sse ==> observer.continuous_lookback_ns == 1_000_000_000
            &&& market == Market::Szse ==> observer.continuous_lookback_ns == 0
            &&& observer.continuous_lookahead_ns == 1_000_000_000
            &&& !observer.lookahead_override
            &&& !observer.diagnostic_window_override
            &&& observer.pre_open_only == pre_open_only
            &&& observer.market == market
            &&& observer.max_detail_records is None
            &&& observer.symbols.dom() == references.dom()
            &&& forall|symbol: Seq<char>| #[trigger]
                references.contains_key(symbol) ==> {
                    let state = observer.symbols[symbol];
                    &&& state.references == references[symbol]
                    &&& !state.seen
                    &&& state.channel is None
                    &&& state.continuous_position == 0
                    &&& state.close_price is None
                }
        }),
{
    assert(ObserverModel::fresh(market, references, pre_open_only).symbols.dom()
        =~= references.dom());
}

/// An explicit window makes the run a diagnostic one. A look back is at most a second; a look
/// ahead is at least a millisecond and at most three seconds.
pub proof fn explicit_windows_are_diagnostic(observer: ObserverModel, duration: Duration)
    ensures
        ({
            let back = observer.with_lookback(Some(duration));
            let ahead = observer.with_lookahead(Some(duration));
            let nanos = duration.spec_nanos();
            &&& back is Ok <==> nanos <= 1_000_000_000
            &&& back is Ok ==> {
                &&& back->Ok_0.continuous_lookback_ns == nanos
                &&& back->Ok_0.diagnostic_window_override
                &&& back->Ok_0.lookahead_override == observer.lookahead_override
                &&& back->Ok_0.continuous_lookahead_ns == observer.continuous_lookahead_ns
            }
            &&& ahead is Ok <==> 1_000_000 <= nanos <= 3_000_000_000
            &&& ahead is Ok ==> {
                &&& ahead->Ok_0.continuous_lookahead_ns == nanos
                &&& ahead->Ok_0.diagnostic_window_override
                &&& ahead->Ok_0.lookahead_override
                &&& ahead->Ok_0.continuous_lookback_ns == observer.continuous_lookback_ns
            }
        }),
        observer.with_lookback(None) == Ok::<ObserverModel, ErrorModel>(observer),
        observer.with_lookahead(None) is Ok,
        observer.with_lookahead(None)->Ok_0.diagnostic_window_override
            == observer.diagnostic_window_override,
        observer.with_lookahead(None)->Ok_0.lookahead_override == observer.lookahead_override,
{
}

/// Whether a reference can still be decided.
pub open spec fn is_open(reference: ReferenceModel) -> bool {
    &&& reference.view is Some
    &&& !reference.state.matched
    &&& !reference.state.finalized
}

/// A pre-open reference is decided within one second from its time on: a book before is not
/// looked at; within it is compared; the book before a later event is the last one; after that
/// the reference is final.
pub proof fn opening_references_have_one_second(
    ctx: ContextModel,
    reference: ReferenceModel,
    cache: CacheModel,
    time: i64,
)
    requires
        is_open(reference),
        cache.tracks(ctx.book, ctx.rules.price_quantum),
        scalar_view(ctx.book, ctx.rules.price_quantum) is Ok,
        reference.time_ns + 1_000_000_000 <= i64::MAX,
    ensures
        ({
            let end = reference.time_ns + 1_000_000_000;
            let before = pre_open_step(
                ctx,
                Some(reference),
                cache,
                ObservationPoint::BeforeEvent(time),
            );
            let after = pre_open_step(
                ctx,
                Some(reference),
                cache,
                ObservationPoint::AfterEvent(time),
            );
            let last = pre_open_step(
                ctx,
                Some(reference),
                cache,
                ObservationPoint::ChannelFinished,
            );
            &&& before.error is None && after.error is None && last.error is None
            &&& before.reference is Some && after.reference is Some && last.reference is Some
            &&& time < reference.time_ns ==> before.reference->0.state == reference.state
                && after.reference->0.state == reference.state
            &&& reference.time_ns <= time ==> (before.reference->0.state.matched <==> ctx.agrees(
                reference,
            ))
            &&& reference.time_ns <= time < end ==> {
                &&& after.reference->0.state.matched <==> ctx.agrees(reference)
                &&& after.reference->0.state.finalized <==> ctx.agrees(reference)
                &&& before.reference->0.state.finalized <==> ctx.agrees(reference)
                &&& ctx.agrees(reference)
                    ==> after.reference->0.state.matched_candidate_time_ns == Some(time)
                    && before.reference->0.state.matched_candidate_time_ns == Some(time)
            }
            &&& end <= time ==> {
                &&& !after.reference->0.state.matched
                &&& after.reference->0.state.finalized
                &&& before.reference->0.state.finalized
                &&& ctx.agrees(reference)
                    ==> before.reference->0.state.matched_candidate_time_ns == Some(
                    (end - 1_000_000) as i64,
                )
            }
            &&& last.reference->0.state.finalized
            &&& last.reference->0.state.matched <==> ctx.agrees(reference)
            &&& ctx.agrees(reference) ==> last.reference->0.state.matched_candidate_time_ns == Some(
                (end - 1_000_000) as i64,
            )
        }),
{
    let end = reference.time_ns + 1_000_000_000;
    let at = if time >= end {
        (end - 1_000_000) as i64
    } else {
        time
    };
    open_references_match_what_agrees(
        ctx,
        reference,
        cache,
        ValidationAnchor::PreOpen,
        Some(at),
    );
    open_references_match_what_agrees(
        ctx,
        reference,
        cache,
        ValidationAnchor::PreOpen,
        Some((end - 1_000_000) as i64),
    );
}

/// A symbol without a pre-open reference has nothing to decide at the opening, and one without
/// a reference of the close nothing at the close.
pub proof fn missing_references_decide_nothing(
    ctx: ContextModel,
    cache: CacheModel,
    point: ObservationPoint,
    boundary: i64,
)
    ensures
        pre_open_step(ctx, None, cache, point).reference is None,
        pre_open_step(ctx, None, cache, point).error is None,
        pre_open_step(ctx, None, cache, point).cache == cache,
        close_step(ctx, None, cache, boundary).reference is None,
        close_step(ctx, None, cache, boundary).error is None,
{
}

/// A reference of the close is final once the close was seen, and noted with the time of the
/// close where it matched.
pub proof fn closes_are_decided_at_once(
    ctx: ContextModel,
    reference: ReferenceModel,
    cache: CacheModel,
    boundary: i64,
)
    requires
        is_open(reference),
    ensures
        ({
            let step = close_step(ctx, Some(reference), cache, boundary);
            step.error is None ==> {
                &&& step.reference is Some
                &&& step.reference->0.state.finalized
                &&& step.reference->0.state.matched
                    ==> step.reference->0.state.matched_candidate_time_ns == Some(boundary)
                &&& step.reference->0.time_ns == reference.time_ns
            }
        }),
{
    reveal(AnchorModel::judged);
}

/// Going through the references of continuous trading touches none that was passed already and
/// none whose window has not begun. The book after an event at or past the end of a window
/// matches nothing there.
pub proof fn walks_keep_to_their_windows(
    ctx: ContextModel,
    windows: WindowConfig,
    time: i64,
    before: bool,
    references: Seq<ReferenceModel>,
    cache: CacheModel,
    at: int,
    first_pending: Option<int>,
    i: int,
)
    requires
        0 <= at <= references.len(),
        0 <= i < references.len(),
    ensures
        ({
            let walk = walked(ctx, windows, time, before, references, cache, at, first_pending);
            &&& walk.references.len() == references.len()
            &&& i < at ==> walk.references[i] == references[i]
            &&& time < references[i].time_ns - windows.lookback_ns ==> walk.references[i]
                == references[i]
            &&& !before && time >= references[i].time_ns + windows.lookahead_ns
                ==> walk.references[i].state.matched == references[i].state.matched
            &&& walk.references[i].time_ns == references[i].time_ns
            &&& walk.references[i].view == references[i].view
        }),
    decreases references.len() - at,
{
    if at < references.len() {
        let r = references[at];
        let end = r.time_ns + windows.lookahead_ns;
        let compared = ctx.compared_in_window(
            r,
            cache,
            ValidationAnchor::ContinuousTrading,
            end,
            time,
            before,
        );
        let next = r.after(compared).closed_if(compared.error is None && time >= end);
        let updated = references.update(at, next);
        if r.time_ns - windows.lookback_ns >= i64::MIN && time >= r.time_ns - windows.lookback_ns
            && end <= i64::MAX && compared.error is None {
            walks_keep_to_their_windows(
                ctx,
                windows,
                time,
                before,
                updated,
                compared.cache,
                at + 1,
                if first_pending is None && !next.state.finalized {
                    Some(at)
                } else {
                    first_pending
                },
                i,
            );
        }
    }
}

/// A symbol is seen with its channel once anything of it is observed, and keeps the rules that
/// it was given first. Trades are watched in Shenzhen only, and only over a whole day.
pub proof fn observed_symbols_are_seen(
    observer: ObserverModel,
    channel: u32,
    symbol: Seq<char>,
)
    ensures
        ({
            let state = observer.entered(channel, symbol);
            &&& state.seen
            &&& state.channel == Some(channel)
            &&& state.rules is Some
            &&& observer.symbols.contains_key(symbol) && observer.symbols[symbol].rules is Some
                ==> state.rules == observer.symbols[symbol].rules
            &&& observer.symbols.contains_key(symbol) ==> state.references
                == observer.symbols[symbol].references
        }),
        observer.watches_trades() <==> observer.market == Market::Szse && !observer.pre_open_only,
{
}

/// Daily limits are valid where both are positive multiples of the tick and in order, or where
/// the upper one is the mark of no limit beside the tick or the lower mark.
pub proof fn limits_are_ticks_or_marks(high: i64, low: i64)
    ensures
        limits_are_valid(high, low) <==> {
            ||| high == 9_999_999_999_999 && (low == 100 || low == -9_999_999_999_999)
            ||| 0 < high < 9_999_999_999_999 && 0 < low <= high && high % 100 == 0 && low % 100
                == 0
        },
{
}

/// The first valid limits of a day are kept with their source. Others, an error in reading
/// them, or invalid ones are an error, and the first error stays.
pub proof fn limits_of_a_day_agree(
    limits: LimitsModel,
    values: Result<(i64, i64), Seq<char>>,
    source: Seq<char>,
)
    ensures
        ({
            let after = limits.observed(values, source);
            &&& limits.error is Some ==> after == limits
            &&& limits.error is None ==> match values {
                Err(_) => after.error is Some && after.values == limits.values,
                Ok(pair) => {
                    &&& !limits_are_valid(pair.0, pair.1) ==> after.error is Some && after.values
                        == limits.values
                    &&& limits_are_valid(pair.0, pair.1) && limits.values is None ==> after.error
                        is None && after.values == Some(pair) && after.source == source
                    &&& limits_are_valid(pair.0, pair.1) && limits.values == Some(pair) ==> after
                        == limits
                    &&& limits_are_valid(pair.0, pair.1) && limits.values is Some
                        && limits.values->0 != pair ==> after.error is Some && after.values
                        == limits.values && after.source == limits.source
                },
            }
            &&& after.upper_limit_normalization == limits.upper_limit_normalization
        }),
        limits.unlimited() is Ok <==> limits.error is None && limits.values is Some,
        limits.error is None ==> (limits.values matches Some(pair) ==> limits.unlimited() == Ok::<
            bool,
            Seq<char>,
        >(pair.0 == 9_999_999_999_999)),
{
}

/// In a day without reception times an upper limit of ten million beside the tick is read as
/// the mark of no limit, and each such reading is counted.
pub proof fn rounded_marks_are_read_as_marks(
    limits: LimitsModel,
    missing_reception: bool,
    source: Seq<char>,
)
    requires
        limits.error is None,
        limits.values is None || limits.values == Some((9_999_999_999_999i64, 100i64)),
    ensures
        ({
            let values: Result<(i64, i64), Seq<char>> = Ok((10_000_000_000_000i64, 100i64));
            let after = limits.observed_reference(values, missing_reception, source);
            &&& missing_reception ==> {
                &&& after.error is None
                &&& after.values == Some((9_999_999_999_999i64, 100i64))
                &&& after.upper_limit_normalization is Some
                &&& after.upper_limit_normalization->0.raw_upper_units == if
                    limits.upper_limit_normalization is Some {
                    limits.upper_limit_normalization->0.raw_upper_units
                } else {
                    10_000_000_000_000
                }
                &&& limits.upper_limit_normalization is None
                    ==> after.upper_limit_normalization->0.records == 1
                    && after.upper_limit_normalization->0.first_source == source
                    && after.upper_limit_normalization->0.normalized_upper_units
                    == 9_999_999_999_999
                &&& limits.upper_limit_normalization matches Some(audit) ==> audit.records
                    < u64::MAX ==> after.upper_limit_normalization->0.records == audit.records + 1
                    && after.upper_limit_normalization->0.first_source == audit.first_source
            }
            &&& !missing_reception ==> after.error is Some
        }),
{
}

/// Nine or eleven tenths of a price, at the nearest tick, halves up.
pub proof fn shares_are_at_the_nearest_tick(price: int, factor: int)
    requires
        0 <= price,
        0 <= factor,
    ensures
        tick_share(price, factor) % 100 == 0,
        10 * tick_share(price, factor) - price * factor <= 500,
        price * factor - 10 * tick_share(price, factor) < 500,
{
    let product = price * factor;
    let count = (product + 500) / 1000;
    assert(tick_share(price, factor) == count * 100);
}

/// The closing range reaches from nine to eleven tenths of its base, at the nearest ticks, but
/// at least one tick to either side, and never below one tick.
pub proof fn closing_ranges_reach_a_tenth(price: int)
    requires
        price >= 100,
    ensures
        ({
            let (lower, upper) = range_of(price);
            let share = tick_share(price, 9);
            let bonus = tick_share(price, 11);
            &&& lower >= 100
            &&& upper >= price + 100
            &&& upper >= bonus
            &&& upper == bonus || upper == price + 100
            &&& price > 100 && price - 100 >= 100 ==> lower <= price - 100
            &&& lower == 100 || lower == share || lower == price - 100
            &&& share >= 100 ==> lower <= share
            &&& lower > 100 ==> lower == if share < price - 100 {
                share
            } else {
                price - 100
            }
        }),
{
}

/// A base of the closing range is a positive multiple of the tick, and its range fits.
pub proof fn range_bases_are_ticks(price: i64)
    ensures
        price <= 0 || price % 100 != 0 ==> bounds_error(price) is Some,
        price > 0 && price % 100 == 0 && price * 11 <= i64::MAX ==> bounds_error(price) is None,
{
}

/// A projection onto the closing range shows the statistics of the book, and of its levels
/// those within the range; the rest of each side is reported as excluded. The audit names the
/// base and the range.
pub proof fn projections_show_the_range(m: BookModel, base: RangeBase, limits: LimitsModel)
    requires
        projection(m, base, limits) is Ok,
    ensures
        ({
            let (view, band) = projection(m, base, limits)->Ok_0;
            let range = range_of(base.price as int);
            let trades = m.statistics;
            &&& shows_units(view.last_price_units, trades.last_price)
            &&& shows_units(view.high_price_units, trades.high_price)
            &&& shows_units(view.low_price_units, trades.low_price)
            &&& view.trade_count == trades.trade_count
            &&& view.trade_quantity == trades.total_quantity
            &&& view.turnover_units == trades.total_turnover_units
            &&& view.bids.len() <= 10
            &&& view.asks.len() <= 10
            &&& forall|i: int|
                0 <= i < view.bids.len() ==> range.0 <= (#[trigger] view.bids[i]).price_units
                    <= range.1
            &&& forall|i: int|
                0 <= i < view.asks.len() ==> range.0 <= (#[trigger] view.asks[i]).price_units
                    <= range.1
            &&& band.base_price_units == base.price
            &&& band.base_quote_time_ms == base.time_ms
            &&& Some(band.base_raw_sequence) == base.raw_sequence
            &&& band.lower_price_units == range.0 as i64
            &&& band.upper_price_units == range.1 as i64
            &&& band.price_limit_metadata_source == limits.source
            &&& band.upper_limit_normalization == limits.upper_limit_normalization
            &&& band.rule == "SZ_UNLIMITED_STOCK_E0_PRICE_BAND"@
        }),
{
    let range = range_of(base.price as int);
    lemma_projected_levels(m, Side::Buy, range);
    lemma_projected_levels(m, Side::Sell, range);
}

proof fn lemma_projected_levels(m: BookModel, side: Side, range: (int, int))
    ensures
        ({
            let shown = side_projection(m, side, range).levels;
            &&& shown.len() <= 10
            &&& forall|i: int|
                0 <= i < shown.len() ==> range.0 <= (#[trigger] shown[i]).price_units <= range.1
        }),
{
    let all = m.depth_of(side);
    let kept = levels_in_range(all, range);
    let shown = side_projection(m, side, range).levels;
    assert forall|i: int| 0 <= i < shown.len() implies range.0 <= (#[trigger] shown[i]).price_units
        <= range.1 by {
        assert(in_range(kept[i], range)) by {
            let keep = |level: LevelView| in_range(level, range);
            broadcast use vstd::seq_lib::group_filter_ensures;

            assert(keep(kept[i]));
        }
    }
}

/// What a projected side shows and what it excludes are together what the side holds.
pub proof fn projections_lose_nothing(m: BookModel, side: Side, range: (int, int))
    ensures
        ({
            let projected = side_projection(m, side, range);
            projected.total + projected.excluded == seq_sum(
                m.depth_of(side),
                crate::order_book::shown_quantity(),
            )
        }),
{
}

/// A trade before 14:57 is the base of the closing range, with its price and its time; a trade
/// from then on until 15:00 is one of the closing auction.
pub proof fn trades_are_placed_by_their_time(tracker: TrackerModel, sample: TradeSample)
    ensures
        ({
            let after = tracker.placed(sample);
            let time = spec_time_of_day(sample.quote_time_ns as int);
            let call = (14 * 60 + 57) * 60 * 1_000_000_000;
            let close = 15 * 3600 * 1_000_000_000;
            &&& time < call ==> {
                &&& after.range_base is Some
                &&& after.range_base->0.price == sample.price_units
                &&& after.range_base->0.time_ms == millis(sample.quote_time_ns)
                &&& after.range_base->0.raw_sequence is None
                &&& after.has_closing_auction_trade == tracker.has_closing_auction_trade
            }
            &&& call <= time ==> after.range_base == tracker.range_base
            &&& call <= time <= close ==> after.has_closing_auction_trade
            &&& time > close ==> after.has_closing_auction_trade
                == tracker.has_closing_auction_trade
            &&& after.last_minute == tracker.last_minute
            &&& after.weighted_price_quantity == tracker.weighted_price_quantity
            &&& after.quantity == tracker.quantity
        }),
{
}

/// The sequence of a trade goes to a base that has none yet.
pub proof fn bases_take_their_sequence_once(tracker: TrackerModel, sequence: Option<u64>)
    ensures
        ({
            let after = tracker.sequenced(sequence);
            &&& tracker.range_base is None ==> after == tracker
            &&& tracker.range_base matches Some(base) ==> {
                &&& after.range_base is Some
                &&& after.range_base->0.price == base.price
                &&& after.range_base->0.time_ms == base.time_ms
                &&& base.raw_sequence is None ==> after.range_base->0.raw_sequence == sequence
                &&& base.raw_sequence is Some ==> after.range_base->0.raw_sequence
                    == base.raw_sequence
            }
        }),
{
}

/// Of trades in the order of their times, those are kept that are not before the cutoff.
pub proof fn only_the_last_minute_is_kept(samples: Seq<TradeSample>, cutoff: int)
    requires
        forall|i: int, j: int|
            0 <= i <= j < samples.len() ==> (#[trigger] samples[i]).quote_time_ns
                <= (#[trigger] samples[j]).quote_time_ns,
    ensures
        ({
            let kept = since(samples, cutoff);
            let gone = samples.len() - kept.len();
            &&& 0 <= gone
            &&& kept == samples.skip(gone)
            &&& forall|i: int| 0 <= i < gone ==> (#[trigger] samples[i]).quote_time_ns < cutoff
            &&& forall|i: int|
                0 <= i < kept.len() ==> (#[trigger] kept[i]).quote_time_ns >= cutoff
        }),
    decreases samples.len(),
{
    if samples.len() > 0 && samples[0].quote_time_ns < cutoff {
        let rest = samples.drop_first();
        assert forall|i: int, j: int| 0 <= i <= j < rest.len() implies (
        #[trigger] rest[i]).quote_time_ns <= (#[trigger] rest[j]).quote_time_ns by {
            assert(rest[i] == samples[i + 1] && rest[j] == samples[j + 1]);
        }
        only_the_last_minute_is_kept(rest, cutoff);
        let kept = since(rest, cutoff);
        let gone = samples.len() - kept.len();
        assert(rest.skip(gone - 1) =~= samples.skip(gone));
        assert forall|i: int| 0 <= i < gone implies (#[trigger] samples[i]).quote_time_ns
            < cutoff by {
            if i > 0 {
                assert(rest[i - 1] == samples[i]);
            }
        }
    } else {
        assert(samples.skip(0) =~= samples);
        if samples.len() > 0 {
            assert forall|i: int| 0 <= i < samples.len() implies (
            #[trigger] samples[i]).quote_time_ns >= cutoff by {
                assert(samples[0].quote_time_ns <= samples[i].quote_time_ns);
            }
        }
    }
}

/// A last price that differs is explained where the instrument had no trade all day and it is
/// the close before, or where it had no trade in the closing auction and it is the average of
/// the last minute. The tag tells which, of a stock or of a fund.
pub proof fn close_prices_are_explained(
    symbol: Seq<char>,
    pre_close: Option<i64>,
    tracker: Option<TrackerModel>,
    expected: Option<i64>,
)
    ensures
        ({
            let tag = close_price_tag(symbol, pre_close, tracker, expected);
            let fund = spec_is_etf(Market::Szse, symbol);
            let step: i64 = if fund {
                10
            } else {
                100
            };
            &&& tracker is None ==> {
                &&& tag is Ok
                &&& tag->Ok_0 is Some <==> pre_close == expected
                &&& tag->Ok_0 is Some ==> tag->Ok_0->0 == if fund {
                    "SZ_ETF_PRE_CLOSE_PRICE"@
                } else {
                    "SZ_STOCK_PRE_CLOSE_PRICE"@
                }
            }
            &&& tracker matches Some(trades) ==> {
                &&& trades.has_closing_auction_trade ==> tag == Ok::<Option<Seq<char>>, ErrorModel>(
                    None,
                )
                &&& !trades.has_closing_auction_trade && tag is Ok ==> {
                    &&& trades.average(step) is Ok
                    &&& tag->Ok_0 is Some <==> trades.average(step)->Ok_0 == expected
                    &&& tag->Ok_0 is Some ==> tag->Ok_0->0 == if fund {
                        "SZ_ETF_AVG_CLOSE_PRICE"@
                    } else {
                        "SZ_STOCK_AVG_CLOSE_PRICE"@
                    }
                }
            }
        }),
{
}

/// The average of the last minute is there where anything traded, and is the multiple of the
/// quantum nearest to what was traded, price by quantity.
pub proof fn last_minute_averages_are_the_nearest(tracker: TrackerModel, quantum: i64)
    requires
        quantum > 0,
        tracker.average(quantum) is Ok,
    ensures
        match tracker.average(quantum)->Ok_0 {
            None => tracker.quantity == 0,
            Some(price) => {
                &&& tracker.quantity > 0
                &&& price % quantum == 0
                &&& 2 * (price * tracker.quantity - tracker.weighted_price_quantity)
                    <= tracker.quantity * quantum
                &&& 2 * (tracker.weighted_price_quantity - price * tracker.quantity)
                    < tracker.quantity * quantum
            },
        },
{
    if tracker.quantity > 0 {
        super::laws::weighted_averages_are_the_nearest(
            tracker.weighted_price_quantity as int,
            tracker.quantity as int,
            quantum as int,
        );
    }
}

/// A Shenzhen stock without a price limit is compared at the close by its closing range, and
/// is refused where the limits are unknown or no trade gave a base; everything else is compared
/// by the book as it is.
pub proof fn closes_are_compared_by_their_rule(ctx: ContextModel)
    requires
        ctx.rules.is_etf == spec_is_etf(ctx.market, ctx.symbol),
    ensures
        ({
            let candidate = ctx.close_candidate();
            let shown = scalar_view(ctx.book, ctx.rules.price_quantum);
            let plain = candidate == match shown {
                Ok(view) => CloseCandidate::Shown(with_depth(view, ctx.book), None),
                Err(error) => CloseCandidate::Failed(error),
            };
            &&& ctx.market == Market::Sse || spec_is_etf(ctx.market, ctx.symbol) ==> plain
            &&& ctx.market == Market::Szse && !spec_is_etf(ctx.market, ctx.symbol) ==> {
                &&& ctx.limits is None ==> candidate is Refused
                &&& ctx.limits matches Some(limits) ==> {
                    &&& limits.error is Some || limits.values is None ==> candidate is Refused
                    &&& limits.error is None && limits.values is Some && (limits.values->0).0
                        != 9_999_999_999_999 ==> plain
                    &&& limits.error is None && limits.values is Some && (limits.values->0).0
                        == 9_999_999_999_999 ==> {
                        &&& ctx.close_price is None || ctx.close_price->0.range_base is None
                            ==> candidate is Refused
                        &&& ctx.close_price is Some && ctx.close_price->0.range_base is Some
                            ==> match projection(
                            ctx.book,
                            ctx.close_price->0.range_base->0,
                            limits,
                        ) {
                            Ok((view, band)) => candidate == CloseCandidate::Shown(
                                view,
                                Some(band),
                            ),
                            Err(_) => candidate is Refused,
                        }
                    }
                }
            }
        }),
{
}

/// How many times a reason counts once more, and no other one does.
pub proof fn reasons_are_counted_apart(counts: SkipCounts, reason: SkipReason, other: SkipReason)
    requires
        counts.spec_total() < u64::MAX,
    ensures
        ({
            let after = counts.counted(reason);
            &&& after.of(reason) == counts.of(reason) + 1
            &&& other != reason ==> after.of(other) == counts.of(other)
            &&& after.spec_total() == counts.spec_total() + 1
        }),
        counts.spec_total() == counts.of(SkipReason::StatusNotApplicable) + counts.of(
            SkipReason::MissingNormalPredecessor,
        ) + counts.of(SkipReason::OutsideSelectionWindow) + counts.of(
            SkipReason::UnexpectedPhaseTransition,
        ) + counts.of(SkipReason::AdditionalStaticFrame),
{
}

/// The first sample of each of three reasons is kept, later ones are not.
pub proof fn first_samples_stay(
    samples: FirstSamplesModel,
    reason: SkipReason,
    sample: SampleModel,
)
    ensures
        ({
            let after = samples.noted(reason, sample);
            &&& after.missing_normal_predecessor == if samples.missing_normal_predecessor is None
                && reason == SkipReason::MissingNormalPredecessor {
                Some(sample)
            } else {
                samples.missing_normal_predecessor
            }
            &&& after.outside_selection_window == if samples.outside_selection_window is None
                && reason == SkipReason::OutsideSelectionWindow {
                Some(sample)
            } else {
                samples.outside_selection_window
            }
            &&& after.unexpected_phase_transition == if samples.unexpected_phase_transition is None
                && reason == SkipReason::UnexpectedPhaseTransition {
                Some(sample)
            } else {
                samples.unexpected_phase_transition
            }
        }),
{
}

/// A frame is recorded once: under its status, and either under the anchor that it was taken
/// for or under the reason that it was skipped for.
pub proof fn frames_are_recorded_once(
    audit: SelectionModel,
    position: (i64, u64),
    previous: Option<Seq<char>>,
    status: Seq<char>,
    decision: Result<ValidationAnchor, SkipReason>,
)
    requires
        audit.reference_records < u64::MAX,
        audit.skipped_counts.spec_total() < u64::MAX,
    ensures
        ({
            let after = audit.recorded(position, previous, status, decision);
            &&& after.symbol == audit.symbol
            &&& after.reference_records == audit.reference_records + 1
            &&& after.status_counts == incremented(audit.status_counts, status)
            &&& match decision {
                Ok(anchor) => {
                    &&& after.selected_counts == incremented(
                        audit.selected_counts,
                        match anchor {
                            ValidationAnchor::PreOpen => "pre_open"@,
                            ValidationAnchor::ContinuousTrading => "continuous_trading"@,
                            ValidationAnchor::MarketClose => "market_close"@,
                        },
                    )
                    &&& after.coverage == ReferenceCoverage::Selected
                    &&& after.skipped_counts == audit.skipped_counts
                    &&& after.first_samples == audit.first_samples
                },
                Err(reason) => {
                    &&& after.selected_counts == audit.selected_counts
                    &&& after.skipped_counts.of(reason) == audit.skipped_counts.of(reason) + 1
                    &&& after.skipped_counts.spec_total() == audit.skipped_counts.spec_total() + 1
                    &&& audit.coverage == ReferenceCoverage::Selected ==> after.coverage
                        == ReferenceCoverage::Selected
                    &&& audit.coverage != ReferenceCoverage::Selected ==> after.coverage
                        == ReferenceCoverage::NoEligibleReferences
                    &&& reason == SkipReason::UnexpectedPhaseTransition
                        && audit.first_samples.unexpected_phase_transition is None ==> {
                        let sample = after.first_samples.unexpected_phase_transition->0;
                        &&& after.first_samples.unexpected_phase_transition is Some
                        &&& sample.source_row_no == position.1
                        &&& sample.previous_status == previous
                        &&& sample.status == status
                        &&& position.0 >= 0 ==> sample.time_ms == position.0 as int / 1_000_000
                    }
                },
            }
        }),
{
}

/// Counting a text adds one to it and leaves all others alone.
pub proof fn counting_a_text_adds_one(
    counts: Map<Seq<char>, u64>,
    text: Seq<char>,
    other: Seq<char>,
)
    requires
        !is_full(counts, text),
    ensures
        ({
            let after = incremented(counts, text);
            &&& after.contains_key(text)
            &&& after[text] == 1 + if counts.contains_key(text) {
                counts[text] as int
            } else {
                0
            }
            &&& other != text ==> after.contains_key(other) == counts.contains_key(other)
            &&& other != text && counts.contains_key(other) ==> after[other] == counts[other]
        }),
        is_full(counts, text) <==> counts.contains_key(text) && counts[text] == u64::MAX,
{
}

/// Which Shenzhen frames are taken: the first B0 that follows O0 before any trading, every T0
/// before the close, and the first E0 that follows C0.
pub proof fn shenzhen_frames_are_taken_by_phase(
    flags: PhaseFlags,
    last: Option<Seq<char>>,
    status: Seq<char>,
)
    ensures
        ({
            let step = flags.sz_step(last, status);
            let closed = flags.closing || flags.close_selected;
            &&& step.decision == Ok::<ValidationAnchor, SkipReason>(ValidationAnchor::PreOpen)
                <==> status == "B0"@ && last == Some("O0"@) && flags.opening
                && !flags.pre_open_selected && !flags.traded && !closed
            &&& step.decision == Ok::<ValidationAnchor, SkipReason>(
                ValidationAnchor::ContinuousTrading,
            ) <==> status == "T0"@ && !closed
            &&& step.decision == Ok::<ValidationAnchor, SkipReason>(ValidationAnchor::MarketClose)
                <==> status == "E0"@ && last == Some("C0"@) && flags.closing_valid
                && !flags.close_selected
            &&& step.flags.sh_continuous_close == flags.sh_continuous_close
            &&& step.flags.pre_open_selected <==> flags.pre_open_selected || step.decision == Ok::<
                ValidationAnchor,
                SkipReason,
            >(ValidationAnchor::PreOpen)
            &&& step.flags.traded <==> flags.traded || step.decision == Ok::<
                ValidationAnchor,
                SkipReason,
            >(ValidationAnchor::ContinuousTrading)
            &&& step.flags.close_selected <==> flags.close_selected || step.decision == Ok::<
                ValidationAnchor,
                SkipReason,
            >(ValidationAnchor::MarketClose)
            &&& status == "O0"@ ==> step.flags.opening == (flags.opening || !flags.traded
                && !closed)
            &&& status == "C0"@ ==> step.flags.closing == (flags.closing || !flags.close_selected)
            &&& status == "C0"@ && !flags.close_selected ==> step.flags.closing_valid
            &&& status != "C0"@ ==> step.flags.closing == flags.closing
            &&& status != "C0"@ && status != "O0"@ && status != "T0"@ && status != "B0"@ && status
                != "E0"@ ==> !step.flags.opening && !step.flags.closing_valid
            &&& status == "E0"@ && flags.close_selected ==> step.decision == Err::<
                ValidationAnchor,
                SkipReason,
            >(SkipReason::AdditionalStaticFrame)
            &&& status == "T0"@ && closed ==> step.decision == Err::<ValidationAnchor, SkipReason>(
                SkipReason::UnexpectedPhaseTransition,
            )
            &&& status == "E0"@ && !flags.close_selected && !(flags.closing_valid && last == Some(
                "C0"@,
            )) ==> step.decision == Err::<ValidationAnchor, SkipReason>(
                SkipReason::MissingNormalPredecessor,
            )
        }),
{
    lemma_statuses();
}

proof fn lemma_statuses()
    ensures
        "E0"@ != "B0"@ && "E0"@ != "O0"@ && "E0"@ != "T0"@ && "E0"@ != "C0"@,
        "B0"@ != "O0"@ && "B0"@ != "T0"@ && "B0"@ != "C0"@,
        "O0"@ != "T0"@ && "O0"@ != "C0"@ && "T0"@ != "C0"@,
        "CLOSE"@ != "TRADE"@ && "CLOSE"@ != "OCALL"@ && "CLOSE"@ != "CCALL"@,
        "TRADE"@ != "OCALL"@ && "TRADE"@ != "CCALL"@ && "OCALL"@ != "CCALL"@,
{
    reveal_strlit("E0");
    reveal_strlit("B0");
    reveal_strlit("O0");
    reveal_strlit("T0");
    reveal_strlit("C0");
    reveal_strlit("CLOSE");
    reveal_strlit("TRADE");
    reveal_strlit("OCALL");
    reveal_strlit("CCALL");
    assert("E0"@[0] == 'E' && "B0"@[0] == 'B' && "O0"@[0] == 'O' && "T0"@[0] == 'T' && "C0"@[0]
        == 'C');
    assert("CLOSE"@[1] == 'L' && "TRADE"@[1] == 'R' && "OCALL"@[0] == 'O' && "CCALL"@[0] == 'C'
        && "CCALL"@[1] == 'C' && "CLOSE"@[0] == 'C' && "TRADE"@[0] == 'T');
}

/// Which Shanghai frames are taken: the first TRADE of the opening that follows OCALL, every
/// TRADE of continuous trading before the close, and the first CLOSE that follows CCALL; where
/// trading goes on until the close, the first CLOSE that follows TRADE.
pub proof fn shanghai_frames_are_taken_by_phase(
    flags: PhaseFlags,
    last: Option<Seq<char>>,
    time: i64,
    status: Seq<char>,
    start: i64,
    continuous: i64,
)
    ensures
        ({
            let step = flags.sh_step(last, time, status, start, continuous);
            let closed = flags.closing || flags.close_selected;
            let opens = start <= time && time < continuous;
            &&& step.decision == Ok::<ValidationAnchor, SkipReason>(ValidationAnchor::PreOpen)
                <==> status == "TRADE"@ && opens && !closed && flags.opening && last == Some(
                "OCALL"@,
            ) && (flags.traded || !flags.pre_open_selected)
            &&& step.decision == Ok::<ValidationAnchor, SkipReason>(
                ValidationAnchor::ContinuousTrading,
            ) <==> status == "TRADE"@ && !closed && !opens && time >= continuous
            &&& step.decision == Ok::<ValidationAnchor, SkipReason>(ValidationAnchor::MarketClose)
                <==> status == "CLOSE"@ && !flags.close_selected && (if flags.sh_continuous_close {
                flags.traded && !flags.closing && last == Some("TRADE"@)
            } else {
                flags.closing_valid && last == Some("CCALL"@)
            })
            &&& step.flags.sh_continuous_close == flags.sh_continuous_close
            &&& step.flags.pre_open_selected <==> flags.pre_open_selected || step.decision == Ok::<
                ValidationAnchor,
                SkipReason,
            >(ValidationAnchor::PreOpen)
            &&& step.flags.traded <==> flags.traded || step.decision == Ok::<
                ValidationAnchor,
                SkipReason,
            >(ValidationAnchor::ContinuousTrading)
            &&& step.flags.close_selected <==> flags.close_selected || step.decision == Ok::<
                ValidationAnchor,
                SkipReason,
            >(ValidationAnchor::MarketClose)
            &&& status == "OCALL"@ ==> step.flags.opening == (flags.opening || !flags.traded
                && !closed)
            &&& status == "CCALL"@ ==> step.flags.closing == (flags.closing
                || !flags.close_selected)
            &&& status == "CCALL"@ && !flags.close_selected ==> step.flags.closing_valid
            &&& status != "CCALL"@ ==> step.flags.closing == flags.closing
            &&& status != "CCALL"@ && status != "OCALL"@ && status != "TRADE"@ && status
                != "CLOSE"@ ==> !step.flags.opening && !step.flags.closing_valid
            &&& status == "TRADE"@ && !closed && time < start && time < continuous ==> step.decision
                == Err::<ValidationAnchor, SkipReason>(SkipReason::OutsideSelectionWindow)
            &&& status == "CLOSE"@ && flags.close_selected ==> step.decision == Err::<
                ValidationAnchor,
                SkipReason,
            >(SkipReason::AdditionalStaticFrame)
        }),
{
    lemma_statuses();
}

/// Shanghai funds trade until the close before the day from which they have a closing auction.
/// Nothing was seen of a fresh symbol.
pub proof fn fresh_phases_know_the_closing_rule(
    market: Market,
    day: crate::market_data::TradingDay,
    symbol: Seq<char>,
    pre_open_only: bool,
)
    ensures
        ({
            let phases = PhaseModel::fresh(market, day, symbol, pre_open_only);
            let flags = phases.flags;
            &&& flags.sh_continuous_close <==> market == Market::Sse && spec_is_etf(market, symbol)
                && day.spec_value() < 20_260_706
            &&& !flags.opening && !flags.traded && !flags.closing && !flags.closing_valid
            &&& !flags.pre_open_selected && !flags.close_selected
            &&& phases.last_position is None
            &&& phases.last_status is None
            &&& phases.pre_open_only == pre_open_only
            &&& phases.audit == SelectionModel::empty(symbol)
            &&& phases.audit.reference_records == 0
            &&& phases.audit.coverage == ReferenceCoverage::NoReferenceRecords
        }),
{
}

/// Frames come in the order of their times, and their rows strictly in order. A run that ends
/// at the opening takes nothing but the frame of the opening.
pub proof fn frames_come_in_order(
    phases: PhaseModel,
    market: Market,
    position: (i64, u64),
    status: Seq<char>,
    start: i64,
    continuous: i64,
)
    ensures
        phases.last_position matches Some(last) ==> (position.0 < last.0 || position.1 <= last.1
            ==> phases.position_error(position) is Some),
        phases.audit.reference_records < u64::MAX && (phases.last_position matches Some(last)
            ==> last.0 <= position.0 && last.1 < position.1) ==> phases.position_error(position)
            is None,
        phases.pre_open_only ==> (phases.decision(market, position.0, status, start, continuous)
            is Ok ==> phases.decision(market, position.0, status, start, continuous)->Ok_0
            == ValidationAnchor::PreOpen),
        ({
            let after = phases.observed(market, position, status, start, continuous);
            &&& after.last_position == Some(position)
            &&& after.last_status == Some(status)
            &&& after.pre_open_only == phases.pre_open_only
        }),
{
}

/// What a reference counts as, in this order: unclassified events after the close, an error in
/// loading it, no events at all, an error in comparing it, a match, a mismatch.
pub proof fn outcomes_are_decided_in_order(
    after_close: Option<u64>,
    load_error: Option<Seq<char>>,
    seen: bool,
    comparison_error: Option<Seq<char>>,
    matched: bool,
)
    ensures
        ({
            let (outcome, reason) = classified(
                after_close,
                load_error,
                seen,
                comparison_error,
                matched,
            );
            &&& outcome == ValidationOutcome::DataError <==> after_close is Some || load_error
                is Some || seen && comparison_error is Some
            &&& outcome == ValidationOutcome::MissingSource <==> after_close is None && load_error
                is None && !seen
            &&& outcome == ValidationOutcome::Matched <==> after_close is None && load_error is None
                && seen && comparison_error is None && matched
            &&& outcome == ValidationOutcome::Mismatched <==> after_close is None && load_error
                is None && seen && comparison_error is None && !matched
            &&& reason is None <==> outcome == ValidationOutcome::Matched
            &&& after_close is None && load_error is Some ==> reason == load_error
            &&& after_close is None && load_error is None && seen && comparison_error is Some
                ==> reason == comparison_error
        }),
{
}

/// What the record of a reference holds: its market, symbol and channel, its time in whole
/// milliseconds and its row; of a match when and by which event it matched, of anything else
/// the differences of the best candidate. Events after the close speak only of the close of a
/// Shenzhen symbol.
pub proof fn records_hold_their_reference(case: CaseModel)
    ensures
        ({
            let record = case.record();
            let state = case.reference.state;
            let matched = record.outcome == ValidationOutcome::Matched;
            &&& case.market == Market::Sse ==> record.market == "SH"@
            &&& case.market == Market::Szse ==> record.market == "SZ"@
            &&& record.symbol == case.symbol
            &&& record.anchor == case.anchor
            &&& record.channel_id == case.channel
            &&& record.reference_time_ms == case.reference.time_ns as int / 1_000_000
            &&& record.reference_source_row_no == case.reference.source_row_no
            &&& record.close_price_band == state.close_price_band
            &&& record.best_candidate_raw_sequence == state.best_candidate_raw_sequence
            &&& state.best_candidate_time_ns is None <==> record.best_candidate_time_ms is None
            &&& state.best_candidate_time_ns matches Some(time) ==> record.best_candidate_time_ms
                == Some((time as int / 1_000_000) as i64)
            &&& matched ==> {
                &&& record.differences.len() == 0
                &&& record.reason is None
                &&& record.match_tag == state.match_tag
                &&& record.turnover_precision == state.turnover_precision
                &&& record.matched_candidate_raw_sequence == state.matched_candidate_raw_sequence
                &&& record.matched_candidate_apply_sequence
                    == state.matched_candidate_apply_sequence
                &&& state.matched_candidate_time_ns matches Some(time)
                    ==> record.matched_candidate_time_ms == Some((time as int / 1_000_000) as i64)
            }
            &&& !matched ==> {
                &&& record.reason is Some
                &&& record.match_tag is None
                &&& record.turnover_precision is None
                &&& record.matched_candidate_time_ms is None
                &&& record.matched_candidate_raw_sequence is None
                &&& record.matched_candidate_apply_sequence is None
                &&& state.best_differences matches Some(best) ==> record.differences == best
                &&& state.best_differences is None ==> record.differences.len() == 0
            }
            &&& case.after_close_events() is Some <==> case.market == Market::Szse && case.anchor
                == ValidationAnchor::MarketClose && case.after_close.contains_key(case.symbol)
        }),
{
    let time = case.reference.time_ns as int;
    assert(i64::MIN <= time / 1_000_000 <= i64::MAX);
}

/// An outcome counts once in all, once as comparable where it was compared, and once as itself.
pub proof fn outcomes_are_counted_once(counts: ValidationCounts, outcome: ValidationOutcome)
    requires
        counts.consistent(),
        counts.total < u64::MAX,
    ensures
        ({
            let after = counts.counted(outcome);
            &&& after.total == counts.total + 1
            &&& after.matched == counts.matched + one(outcome == ValidationOutcome::Matched)
            &&& after.mismatched == counts.mismatched + one(
                outcome == ValidationOutcome::Mismatched,
            )
            &&& after.data_errors == counts.data_errors + one(
                outcome == ValidationOutcome::DataError,
            )
            &&& after.missing_source == counts.missing_source + one(
                outcome == ValidationOutcome::MissingSource,
            )
            &&& after.comparable == after.matched + after.mismatched
            &&& after.total == after.comparable + after.data_errors + after.missing_source
        }),
{
}

/// A run passed where something was compared and nothing went wrong; it found nothing to
/// compare where nothing was selected; and it failed where anything mismatched, could not be
/// compared, had no source, or came after the close.
pub proof fn runs_pass_without_a_fault(totals: ValidationCounts, after_close: u64)
    requires
        totals.consistent(),
    ensures
        ({
            let outcome = run_outcome_of(totals, after_close);
            let fault = totals.mismatched > 0 || totals.data_errors > 0 || totals.missing_source > 0
                || after_close > 0;
            &&& fault <==> outcome == RunOutcome::Failed
            &&& outcome == RunOutcome::Passed <==> !fault && totals.matched > 0
            &&& outcome == RunOutcome::NoEligibleReferences <==> !fault && totals.matched == 0
        }),
{
}

/// How a case counts: in the totals and in the stage of its class and anchor; a mismatch with
/// each field that differs and its symbol; anything but a match with its reason.
pub proof fn cases_count_in_their_stage(
    counts: CountsModel,
    class: Seq<char>,
    symbol: Seq<char>,
    anchor: ValidationAnchor,
    outcome: ValidationOutcome,
    reason: Option<Seq<char>>,
    differences: Seq<DifferenceModel>,
)
    requires
        counts.observed(class, symbol, anchor, outcome, reason, differences) is Some,
    ensures
        ({
            let after = counts.observed(
                class,
                symbol,
                anchor,
                outcome,
                reason,
                differences,
            )->0;
            let name = class + "."@ + match anchor {
                ValidationAnchor::PreOpen => "pre_open"@,
                ValidationAnchor::ContinuousTrading => "continuous_trading"@,
                ValidationAnchor::MarketClose => "market_close"@,
            };
            let stage = if counts.breakdown.contains_key(name) {
                counts.breakdown[name]
            } else {
                ValidationCounts::zero()
            };
            &&& after.totals == counts.totals.counted(outcome)
            &&& after.breakdown == counts.breakdown.insert(name, stage.counted(outcome))
            &&& after.match_tags == counts.match_tags
            &&& outcome == ValidationOutcome::Mismatched ==> after.mismatched_symbols
                == counts.mismatched_symbols.insert(symbol)
            &&& outcome != ValidationOutcome::Mismatched ==> after.mismatched_symbols
                == counts.mismatched_symbols && after.mismatch_fields == counts.mismatch_fields
                && after.mismatch_reasons == counts.mismatch_reasons
            &&& outcome == ValidationOutcome::Matched ==> after.failure_reasons
                == counts.failure_reasons
            &&& outcome != ValidationOutcome::Matched && reason is Some ==> after.failure_reasons
                == incremented(counts.failure_reasons, reason->0)
            &&& outcome == ValidationOutcome::Mismatched && reason is Some
                ==> after.mismatch_reasons == incremented(counts.mismatch_reasons, reason->0)
            &&& outcome == ValidationOutcome::Mismatched && differences.len() == 1
                ==> after.mismatch_fields == incremented(
                counts.mismatch_fields,
                differences[0].field,
            )
        }),
{
    reveal_with_fuel(super::counts::bumped_fields, 2);
    if differences.len() == 1 {
        assert(differences.drop_first().len() == 0);
    }
}

/// Where a match is tagged, each of its tags counts once.
pub proof fn tags_are_counted(
    counts: CountsModel,
    tag: Option<Seq<char>>,
    turnover: bool,
    upper_limit: bool,
)
    requires
        counts.tagged(tag, turnover, upper_limit) is Some,
    ensures
        ({
            let after = counts.tagged(tag, turnover, upper_limit)->0;
            let first = if tag is Some {
                incremented(counts.match_tags, tag->0)
            } else {
                counts.match_tags
            };
            let second = if turnover {
                incremented(first, "MISSING_RECEPTION_TURNOVER_12_DIGITS"@)
            } else {
                first
            };
            let third = if upper_limit {
                incremented(second, "MISSING_RECEPTION_SZ_UPPER_LIMIT_SENTINEL"@)
            } else {
                second
            };
            &&& after.match_tags == third
            &&& after.totals == counts.totals
            &&& after.breakdown == counts.breakdown
        }),
{
}

/// Funds and stocks are reported apart.
pub proof fn classes_follow_the_instrument(market: Market, symbol: Seq<char>)
    ensures
        spec_is_etf(market, symbol) ==> class_name(market, symbol) == "etf"@,
        !spec_is_etf(market, symbol) ==> class_name(market, symbol) == "stock"@,
        report_market(Market::Sse) == "SH"@,
        report_market(Market::Szse) == "SZ"@,
        anchor_name(ValidationAnchor::PreOpen) == "pre_open"@,
        anchor_name(ValidationAnchor::ContinuousTrading) == "continuous_trading"@,
        anchor_name(ValidationAnchor::MarketClose) == "market_close"@,
{
}

/// A symbol counts once in the coverage, by whether it had selected frames, frames of which
/// none was selected, or none at all.
pub proof fn symbols_are_covered_once(coverage: CoverageModel, of: ReferenceCoverage)
    requires
        coverage.consistent(),
        coverage.symbols < u64::MAX,
    ensures
        ({
            let after = coverage.with_symbol(of);
            &&& after.symbols == coverage.symbols + 1
            &&& after.symbols_with_selected_references == coverage.symbols_with_selected_references
                + one(of == ReferenceCoverage::Selected)
            &&& after.symbols_without_reference_records
                == coverage.symbols_without_reference_records + one(
                of == ReferenceCoverage::NoReferenceRecords,
            )
            &&& after.symbols_without_eligible_references
                == coverage.symbols_without_eligible_references + one(
                of == ReferenceCoverage::NoEligibleReferences,
            )
            &&& after.by_stage == coverage.by_stage
        }),
{
}

/// A stage counts each symbol once, as covered where frames were selected, and the frames.
pub proof fn stages_count_their_frames(counts: CoverageCounts, selected: u64)
    requires
        counts.counted(selected) is Some,
    ensures
        ({
            let after = counts.counted(selected)->0;
            &&& after.symbols == counts.symbols + 1
            &&& after.covered_symbols == counts.covered_symbols + one(selected > 0)
            &&& after.selected_references == counts.selected_references + selected
        }),
{
}

/// Which records are kept: matched ones where they are asked for, all others up to the limit.
pub proof fn records_are_kept_as_asked(retention: Retention, matched: bool, records: nat)
    ensures
        matched ==> (retention.keeps(matched, records) <==> retention.retain_matched_records),
        !matched && retention.max_detail_records is None ==> retention.keeps(matched, records),
        !matched ==> (retention.max_detail_records matches Some(limit) ==> (retention.keeps(
            matched,
            records,
        ) <==> records < limit)),
{
}

/// A case that is counted is either recorded or counted as omitted.
pub proof fn cases_are_recorded_or_omitted(
    draft: DraftModel,
    case: CaseModel,
    retention: Retention,
)
    requires
        draft.with_case(case, retention) is Some,
    ensures
        ({
            let after = draft.with_case(case, retention)->0;
            let matched = case.record().outcome == ValidationOutcome::Matched;
            let kept = retention.keeps(matched, draft.records.len());
            &&& kept ==> after.records == draft.records.push(case.record())
                && after.omitted_matched_records == draft.omitted_matched_records
                && after.omitted_failure_records == draft.omitted_failure_records
            &&& !kept ==> after.records == draft.records
            &&& !kept && matched ==> after.omitted_matched_records == draft.omitted_matched_records
                + 1 && after.omitted_failure_records == draft.omitted_failure_records
            &&& !kept && !matched ==> after.omitted_failure_records
                == draft.omitted_failure_records + 1 && after.omitted_matched_records
                == draft.omitted_matched_records
            &&& after.coverage == draft.coverage
        }),
{
}

/// Records are ordered by symbol, then by anchor from the opening to the close, then by time.
pub proof fn records_are_ordered_by_symbol_anchor_and_time(a: RecordModel, b: RecordModel)
    ensures
        a.symbol != b.symbol ==> (precedes(a, b) <==> crate::text::text_less(a.symbol, b.symbol)),
        a.symbol == b.symbol && a.anchor == b.anchor ==> (precedes(a, b) <==> a.reference_time_ms
            < b.reference_time_ms),
        a.symbol == b.symbol && a.anchor == ValidationAnchor::PreOpen && b.anchor
            != ValidationAnchor::PreOpen ==> precedes(a, b) && !precedes(b, a),
        a.symbol == b.symbol && a.anchor != ValidationAnchor::MarketClose && b.anchor
            == ValidationAnchor::MarketClose ==> precedes(a, b) && !precedes(b, a),
{
}

/// Whole milliseconds of a time.
pub proof fn milliseconds_are_whole(time_ns: i64)
    ensures
        millis(time_ns) * 1_000_000 <= time_ns < millis(time_ns) * 1_000_000 + 1_000_000,
{
    let time = time_ns as int;
    assert(i64::MIN <= time / 1_000_000 <= i64::MAX);
}

/// A projected side lists its ten best levels that lie in the range, as the book shows them, and
/// sums up all that lie in the range.
pub proof fn projections_list_the_best_in_range(m: BookModel, side: Side, range: (int, int), i: int)
    ensures
        ({
            let kept = m.depth_of(side).filter(
                |level: LevelView| range.0 <= level.price.spec_units() <= range.1,
            );
            let shown = side_projection(m, side, range);
            &&& kept.len() <= 10 ==> shown.levels.len() == kept.len()
            &&& kept.len() > 10 ==> shown.levels.len() == 10
            &&& 0 <= i < shown.levels.len() ==> {
                &&& shown.levels[i].price_units == kept[i].price.spec_units()
                &&& shown.levels[i].quantity == kept[i].total_quantity
                &&& shown.levels[i].order_count == kept[i].order_count
            }
            &&& shown.total == seq_sum(kept, crate::order_book::shown_quantity())
            &&& shown.weighted == seq_sum(kept, crate::order_book::shown_weighted())
        }),
{
    let raw = |level: LevelView| range.0 <= level.price.spec_units() <= range.1;
    let kept = m.depth_of(side).filter(raw);
    assert(kept =~= levels_in_range(m.depth_of(side), range)) by {
        assert(raw =~= |level: LevelView| in_range(level, range));
    }
}

/// The average price of a projected side is there where the side shows a quantity, and is the
/// tick nearest to what the side shows, price by quantity.
pub proof fn projected_averages_are_at_the_nearest_tick(side: SideProjection)
    requires
        side.total >= 0,
        side.weighted >= 0,
        projected_average(side) is Ok,
    ensures
        match projected_average(side)->Ok_0 {
            None => side.total == 0,
            Some(price) => {
                &&& side.total > 0
                &&& price % 100 == 0
                &&& 2 * (price * side.total - side.weighted) <= side.total * 100
                &&& 2 * (side.weighted - price * side.total) < side.total * 100
            },
        },
{
    if side.total > 0 {
        super::laws::weighted_averages_are_the_nearest(side.weighted, side.total, 100);
    }
}

/// A projection shows the levels, the sums and the average prices of its two projected sides,
/// the bids as bids and the asks as asks, and tells what each of them leaves out.
pub proof fn projections_show_both_sides(m: BookModel, base: RangeBase, limits: LimitsModel)
    requires
        projection(m, base, limits) is Ok,
    ensures
        ({
            let (view, band) = projection(m, base, limits)->Ok_0;
            let range = range_of(base.price as int);
            let bids = side_projection(m, Side::Buy, range);
            let asks = side_projection(m, Side::Sell, range);
            &&& view.bids == bids.levels
            &&& view.asks == asks.levels
            &&& 0 <= bids.total <= u64::MAX ==> view.total_bid_quantity == bids.total
            &&& 0 <= asks.total <= u64::MAX ==> view.total_ask_quantity == asks.total
            &&& projected_average(bids) == Ok::<Option<i64>, ErrorModel>(
                view.weighted_bid_price_units,
            )
            &&& projected_average(asks) == Ok::<Option<i64>, ErrorModel>(
                view.weighted_ask_price_units,
            )
            &&& 0 <= bids.excluded <= u64::MAX ==> band.excluded_bid_quantity == bids.excluded
            &&& 0 <= asks.excluded <= u64::MAX ==> band.excluded_ask_quantity == asks.excluded
        }),
{
}

/// Levels are spelled out with their price, quantity and number of orders, lists of them in
/// brackets and in their order, prices that may be missing as such.
pub proof fn levels_are_spelled_out(
    level: SnapshotLevel,
    levels: Seq<SnapshotLevel>,
    price: Option<i64>,
)
    ensures
        begins(
            level_text(level),
            "SnapshotLevel { price_units: "@ + int_text(level.price_units as int),
        ),
        ends(
            level_text(level),
            ", quantity: "@ + nat_text(level.quantity as nat) + ", order_count: "@ + nat_text(
                level.order_count as nat,
            ) + " }"@,
        ),
        levels.len() == 0 ==> levels_text(levels) == "["@ + "]"@,
        levels.len() == 0 ==> levels_text(levels.push(level)) == "["@ + level_text(level) + "]"@,
        levels.len() > 0 ==> ends(
            levels_text(levels.push(level)),
            ", "@ + level_text(level) + "]"@,
        ),
        levels.len() > 0 ==> begins(
            levels_text(levels.push(level)),
            "["@ + level_list_text(levels),
        ),
        price is None ==> optional_text(price) == "None"@,
        price is Some ==> optional_text(price) == "Some("@ + int_text(price->0 as int) + ")"@,
        begins(tolerance_text(price), optional_text(price)),
        ends(
            tolerance_text(price),
            " (absolute tolerance: "@ + nat_text(10) + " units / CNY 0.001)"@,
        ),
{
    let nothing = Seq::<char>::empty();
    let start = "SnapshotLevel { price_units: "@ + int_text(level.price_units as int);
    let end = ", quantity: "@ + nat_text(level.quantity as nat) + ", order_count: "@ + nat_text(
        level.order_count as nat,
    ) + " }"@;
    assert(level_text(level) =~= start + end);
    lemma_ends_of_texts(start, nothing, end);
    let longer = levels.push(level);
    assert(longer.drop_last() =~= levels);
    if levels.len() == 0 {
        assert(levels_text(levels) =~= "["@ + "]"@);
        assert(longer[0] == level);
    } else {
        let head = "["@ + level_list_text(levels);
        let tail = ", "@ + level_text(level) + "]"@;
        assert(levels_text(longer) =~= head + tail);
        lemma_ends_of_texts(head, nothing, tail);
    }
    let note = " (absolute tolerance: "@ + nat_text(10) + " units / CNY 0.001)"@;
    assert(tolerance_text(price) =~= optional_text(price) + note);
    lemma_ends_of_texts(optional_text(price), nothing, note);
}

} // verus!
