//! When the references of a symbol are decided, by what its observer is shown.

use vstd::prelude::*;

use crate::market_data::Market;
use crate::order_book::BookModel;

use super::super::replay::{ObservationPoint, Observed};
use super::super::time::spec_time_of_day;
use super::super::types::ValidationAnchor;
use super::candidate::{
    cached_candidates_are_fresh, open_references_match_what_agrees, scalar_view, CacheModel,
    ContextModel, ReferenceModel,
};
use super::effects::{is_open, walks_keep_to_their_windows};
use super::loader::times_ascend;
use super::observer::ObserverModel;
use super::sz_close_price::{sample_value, TrackerModel, TradeSample};
use super::window::{finished, pre_open_step, walked, WindowConfig};

verus! {

/// Whether a reference was decided by an event at a time as its window asks for: within the
/// window it is matched exactly where the book agrees with it, and stays open otherwise; an
/// event past the window makes it final, and only the book before that event may match it.
pub open spec fn decided_in_window(
    before: ReferenceModel,
    after: ReferenceModel,
    agrees: bool,
    end: int,
    time: i64,
    ahead: bool,
) -> bool {
    &&& time < end ==> {
        &&& after.state.matched <==> agrees
        &&& after.state.finalized <==> agrees
        &&& agrees ==> after.state.matched_candidate_time_ns == Some(time)
    }
    &&& end <= time ==> {
        &&& after.state.finalized
        &&& after.state.matched <==> agrees && ahead
        &&& agrees && ahead ==> after.state.matched_candidate_time_ns == Some(
            (end - 1_000_000) as i64,
        )
    }
    &&& after.time_ns == before.time_ns
    &&& after.view == before.view
}

/// Every open reference of continuous trading whose window has begun is decided by an event:
/// windows begin a lookback before the time of the reference and end a lookahead behind it.
pub proof fn walks_decide_what_has_begun(
    ctx: ContextModel,
    windows: WindowConfig,
    time: i64,
    ahead: bool,
    references: Seq<ReferenceModel>,
    cache: CacheModel,
    at: int,
    first_pending: Option<int>,
    i: int,
)
    requires
        times_ascend(references),
        0 <= at <= i < references.len(),
        is_open(references[i]),
        cache.tracks(ctx.book, ctx.rules.price_quantum),
        scalar_view(ctx.book, ctx.rules.price_quantum) is Ok,
        walked(ctx, windows, time, ahead, references, cache, at, first_pending).error is None,
        references[i].time_ns - windows.lookback_ns <= time,
    ensures
        decided_in_window(
            references[i],
            walked(
                ctx,
                windows,
                time,
                ahead,
                references,
                cache,
                at,
                first_pending,
            ).references[i],
            ctx.agrees(references[i]),
            references[i].time_ns + windows.lookahead_ns,
            time,
            ahead,
        ),
    decreases references.len() - at,
{
    let r = references[at];
    let end = r.time_ns + windows.lookahead_ns;
    let compared = ctx.compared_in_window(
        r,
        cache,
        ValidationAnchor::ContinuousTrading,
        end,
        time,
        ahead,
    );
    let next = r.after(compared).closed_if(compared.error is None && time >= end);
    let updated = references.update(at, next);
    let pending = if first_pending is None && !next.state.finalized {
        Some(at)
    } else {
        first_pending
    };
    let reached = if time >= end {
        (end - 1_000_000) as i64
    } else {
        time
    };
    assert(r.time_ns <= references[i].time_ns);
    cached_candidates_are_fresh(
        ctx,
        r,
        cache,
        ValidationAnchor::ContinuousTrading,
        Some(reached),
    );
    if at == i {
        open_references_match_what_agrees(
            ctx,
            r,
            cache,
            ValidationAnchor::ContinuousTrading,
            Some(reached),
        );
        walks_keep_to_their_windows(
            ctx,
            windows,
            time,
            ahead,
            updated,
            compared.cache,
            at + 1,
            pending,
            i,
        );
    } else {
        assert(times_ascend(updated)) by {
            assert forall|a: int, b: int| 0 <= a < b < updated.len() implies (
            #[trigger] updated[a]).time_ns <= (#[trigger] updated[b]).time_ns by {
                assert(references[a].time_ns <= references[b].time_ns);
            }
        }
        walks_decide_what_has_begun(
            ctx,
            windows,
            time,
            ahead,
            updated,
            compared.cache,
            at + 1,
            pending,
            i,
        );
    }
}

/// At the end of a channel every open reference of continuous trading is decided by the final
/// book, as if it was seen in the last millisecond of its window.
pub proof fn finished_channels_decide_all(
    ctx: ContextModel,
    windows: WindowConfig,
    references: Seq<ReferenceModel>,
    cache: CacheModel,
    at: int,
    i: int,
)
    requires
        0 <= at <= references.len(),
        0 <= i < references.len(),
        cache.tracks(ctx.book, ctx.rules.price_quantum),
        scalar_view(ctx.book, ctx.rules.price_quantum) is Ok,
        finished(ctx, windows, references, cache, at).error is None,
    ensures
        ({
            let after = finished(ctx, windows, references, cache, at).references;
            let time = references[i].time_ns + windows.lookahead_ns - 1_000_000;
            &&& after.len() == references.len()
            &&& i < at ==> after[i] == references[i]
            &&& at <= i ==> after[i].state.finalized
            &&& at <= i && is_open(references[i]) ==> {
                &&& after[i].state.matched <==> ctx.agrees(references[i])
                &&& ctx.agrees(references[i]) ==> after[i].state.matched_candidate_time_ns == Some(
                    time as i64,
                )
            }
            &&& after[i].time_ns == references[i].time_ns
            &&& after[i].view == references[i].view
        }),
    decreases references.len() - at,
{
    if at < references.len() {
        let r = references[at];
        let time = r.time_ns + windows.lookahead_ns - 1_000_000;
        let compared = ctx.compared(
            r,
            cache,
            ValidationAnchor::ContinuousTrading,
            Some(time as i64),
        );
        let next = r.after(compared).closed_if(compared.error is None);
        let updated = references.update(at, next);
        cached_candidates_are_fresh(
            ctx,
            r,
            cache,
            ValidationAnchor::ContinuousTrading,
            Some(time as i64),
        );
        if is_open(r) {
            open_references_match_what_agrees(
                ctx,
                r,
                cache,
                ValidationAnchor::ContinuousTrading,
                Some(time as i64),
            );
        }
        finished_channels_decide_all(ctx, windows, updated, compared.cache, at + 1, i);
    }
}

/// A walk goes on from the first reference that may still be open: it moves past final ones
/// only.
pub proof fn walks_move_past_final_references(
    ctx: ContextModel,
    windows: WindowConfig,
    time: i64,
    ahead: bool,
    references: Seq<ReferenceModel>,
    cache: CacheModel,
    at: int,
    i: int,
)
    requires
        0 <= at <= references.len(),
    ensures
        ({
            let walk = walked(ctx, windows, time, ahead, references, cache, at, None);
            walk.error is None ==> {
                &&& at <= walk.position <= references.len()
                &&& at <= i < walk.position ==> walk.references[i].state.finalized
            }
        }),
    decreases references.len() - at,
{
    lemma_walk_position(ctx, windows, time, ahead, references, cache, at, None, i);
}

proof fn lemma_walk_position(
    ctx: ContextModel,
    windows: WindowConfig,
    time: i64,
    ahead: bool,
    references: Seq<ReferenceModel>,
    cache: CacheModel,
    at: int,
    first_pending: Option<int>,
    i: int,
)
    requires
        0 <= at <= references.len(),
        first_pending is Some ==> 0 <= first_pending->0 < at,
    ensures
        ({
            let walk = walked(ctx, windows, time, ahead, references, cache, at, first_pending);
            walk.error is None ==> {
                &&& first_pending is Some ==> walk.position == first_pending->0
                &&& first_pending is None ==> at <= walk.position <= references.len()
                &&& first_pending is None && at <= i < walk.position
                    ==> walk.references[i].state.finalized
            }
        }),
    decreases references.len() - at,
{
    if at < references.len() {
        let r = references[at];
        let end = r.time_ns + windows.lookahead_ns;
        let compared = ctx.compared_in_window(
            r,
            cache,
            ValidationAnchor::ContinuousTrading,
            end,
            time,
            ahead,
        );
        let next = r.after(compared).closed_if(compared.error is None && time >= end);
        let updated = references.update(at, next);
        let pending = if first_pending is None && !next.state.finalized {
            Some(at)
        } else {
            first_pending
        };
        if r.time_ns - windows.lookback_ns >= i64::MIN && time >= r.time_ns - windows.lookback_ns
            && end <= i64::MAX && compared.error is None {
            lemma_walk_position(
                ctx,
                windows,
                time,
                ahead,
                updated,
                compared.cache,
                at + 1,
                pending,
                i,
            );
            if i == at {
                walks_keep_to_their_windows(
                    ctx,
                    windows,
                    time,
                    ahead,
                    updated,
                    compared.cache,
                    at + 1,
                    pending,
                    i,
                );
            }
        }
    }
}

/// An observer that is shown an event compares the book with the references of its symbol: each
/// open one of continuous trading whose window has begun is decided, by the lookback of the
/// observer and the horizon of the symbol; one whose window has not begun stays. An observer of
/// the open alone leaves them all.
pub proof fn observers_decide_within_their_windows(
    observer: ObserverModel,
    channel: u32,
    symbol: Seq<char>,
    book: BookModel,
    time: i64,
    ahead: bool,
    i: int,
)
    requires
        ({
            let state = observer.symbol(symbol);
            let rules = observer.entered(channel, symbol).rules->0;
            &&& times_ascend(state.references.continuous_trading)
            &&& 0 <= i < state.references.continuous_trading.len()
            &&& state.cache.tracks(book, rules.price_quantum)
            &&& scalar_view(book, rules.price_quantum) is Ok
        }),
    ensures
        ({
            let point = if ahead {
                ObservationPoint::BeforeEvent(time)
            } else {
                ObservationPoint::AfterEvent(time)
            };
            let state = observer.symbol(symbol);
            let rules = observer.entered(channel, symbol).rules->0;
            let step = observer.step(channel, symbol, book, point);
            let before = state.references.continuous_trading[i];
            let after = step.state.references.continuous_trading[i];
            let begins = before.time_ns - observer.continuous_lookback_ns;
            let ctx = ContextModel {
                market: observer.market,
                rules,
                symbol,
                book,
                limits: state.limits,
                close_price: state.close_price,
            };
            &&& observer.pre_open_only || time < begins ==> after == before
            &&& step.error is None && !observer.pre_open_only && begins <= time
                && state.continuous_position <= i && is_open(before) ==> decided_in_window(
                before,
                after,
                ctx.agrees(before),
                before.time_ns + rules.lookahead_ns,
                time,
                ahead,
            )
            &&& step.state.references.market_close == state.references.market_close
        }),
{
    let point = if ahead {
        ObservationPoint::BeforeEvent(time)
    } else {
        ObservationPoint::AfterEvent(time)
    };
    let state = observer.entered(channel, symbol);
    let rules = state.rules->0;
    let ctx = ContextModel {
        market: observer.market,
        rules,
        symbol,
        book,
        limits: state.limits,
        close_price: state.close_price,
    };
    let windows = WindowConfig {
        pre_open_only: observer.pre_open_only,
        lookback_ns: observer.continuous_lookback_ns,
        lookahead_ns: rules.lookahead_ns,
    };
    let opening = pre_open_step(
        ctx,
        state.references.pre_open,
        state.cache,
        point,
    );
    let references = state.references.continuous_trading;
    let at = state.continuous_position as int;
    if let Some(r) = state.references.pre_open {
        let end = r.time_ns + 1_000_000_000;
        cached_candidates_are_fresh(
            ctx,
            r,
            state.cache,
            ValidationAnchor::PreOpen,
            Some(
                if time >= end {
                    (end - 1_000_000) as i64
                } else {
                    time
                },
            ),
        );
    }
    assert(opening.cache.tracks(book, rules.price_quantum));
    let walk = walked(ctx, windows, time, ahead, references, opening.cache, at, None);
    if 0 <= at <= references.len() {
        walks_keep_to_their_windows(
            ctx,
            windows,
            time,
            ahead,
            references,
            opening.cache,
            at,
            None,
            i,
        );
    }
    if walk.error is None && at <= i && is_open(references[i]) && references[i].time_ns
        - observer.continuous_lookback_ns <= time {
        walks_decide_what_has_begun(
            ctx,
            windows,
            time,
            ahead,
            references,
            opening.cache,
            at,
            None,
            i,
        );
    }
}

/// At the close the reference of the close is decided and no other: it is final then, and a
/// match is noted with the time of the close. At the end of a channel it stays as it is, and the
/// open references of continuous trading are decided by the final book.
pub proof fn observers_decide_the_close_at_the_close(
    observer: ObserverModel,
    channel: u32,
    symbol: Seq<char>,
    book: BookModel,
    boundary: i64,
)
    requires
        !observer.pre_open_only,
        ({
            let opening = observer.symbol(symbol).references.pre_open;
            opening is Some ==> opening->0.time_ns + 1_000_000_000 <= i64::MAX
        }),
    ensures
        ({
            let before = observer.symbol(symbol).references;
            let step = observer.step(
                channel,
                symbol,
                book,
                ObservationPoint::MarketClose(boundary),
            );
            let after = step.state.references;
            &&& after.pre_open == before.pre_open
            &&& after.continuous_trading == before.continuous_trading
            &&& before.market_close is None ==> after.market_close is None && step.error is None
            &&& before.market_close matches Some(reference) ==> {
                &&& after.market_close is Some
                &&& after.market_close->0.time_ns == reference.time_ns
                &&& after.market_close->0.view == reference.view
                &&& step.error is None ==> after.market_close->0.state.finalized
                &&& is_open(reference) && after.market_close->0.state.matched
                    ==> after.market_close->0.state.matched_candidate_time_ns == Some(boundary)
                &&& reference.state.matched ==> after.market_close->0.state.matched
            }
        }),
        ({
            let before = observer.symbol(symbol).references;
            let step = observer.step(channel, symbol, book, ObservationPoint::ChannelFinished);
            step.state.references.market_close == before.market_close
        }),
{
    reveal(super::candidate::AnchorModel::judged);
}

/// A trade that a Shenzhen observer of a whole day takes adds to the closing price of its
/// symbol: before 14:57 it is the base of the closing range, with its price and its sequence;
/// from then on until 15:00 it is one of the closing auction.
pub proof fn observers_follow_the_trades(
    observer: ObserverModel,
    channel: u32,
    symbol: Seq<char>,
    raw_sequence: u64,
    quote_time_ns: i64,
    price_units: i64,
    quantity: u64,
)
    requires
        observer.market == Market::Szse,
        !observer.pre_open_only,
        observer.refusal(
            Observed::Trade {
                channel,
                symbol,
                raw_sequence,
                quote_time_ns,
                price_units,
                quantity,
            },
        ) is None,
    ensures
        ({
            let after = observer.shown(
                Observed::Trade {
                    channel,
                    symbol,
                    raw_sequence,
                    quote_time_ns,
                    price_units,
                    quantity,
                },
            );
            let tracker = after.symbols[symbol].close_price;
            let time = spec_time_of_day(quote_time_ns as int);
            let call = (14 * 60 + 57) * 60 * 1_000_000_000;
            let close = 15 * 3600 * 1_000_000_000;
            &&& after.symbols.contains_key(symbol)
            &&& tracker is Some
            &&& time < call ==> {
                &&& tracker->0.range_base is Some
                &&& tracker->0.range_base->0.price == price_units
                &&& tracker->0.range_base->0.raw_sequence == Some(raw_sequence)
            }
            &&& call <= time <= close ==> tracker->0.has_closing_auction_trade
            &&& tracker->0.last_minute.len() > 0 ==> {
                let last = tracker->0.last_minute.last();
                &&& last.quote_time_ns == quote_time_ns
                &&& last.price_units == price_units
                &&& last.quantity == quantity
            }
        }),
{
    let sample = TradeSample { quote_time_ns, price_units, quantity };
    let tracker = observer.tracker(symbol);
    let weighted = tracker.weighted_price_quantity + sample_value()(sample);
    let summed = TrackerModel {
        last_minute: tracker.last_minute.push(sample),
        weighted_price_quantity: weighted as u128,
        quantity: (tracker.quantity + quantity) as u128,
        ..tracker
    };
    lemma_evicted_last(summed, quote_time_ns - 60_000_000_000);
}

/// Trades leave from the front, and the tracker keeps everything else.
proof fn lemma_evicted_last(tracker: TrackerModel, cutoff: int)
    ensures
        ({
            let left = tracker.evicted(cutoff).state;
            &&& left.range_base == tracker.range_base
            &&& left.has_closing_auction_trade == tracker.has_closing_auction_trade
            &&& left.last_minute.len() > 0 ==> left.last_minute.last()
                == tracker.last_minute.last()
        }),
    decreases tracker.last_minute.len(),
{
    if tracker.last_minute.len() > 0 && tracker.last_minute[0].quote_time_ns < cutoff {
        let sample = tracker.last_minute[0];
        let weighted = tracker.weighted_price_quantity - sample_value()(sample);
        let quantity = tracker.quantity - sample.quantity;
        if weighted >= 0 && quantity >= 0 {
            lemma_evicted_last(
                TrackerModel {
                    last_minute: tracker.last_minute.drop_first(),
                    weighted_price_quantity: weighted as u128,
                    quantity: quantity as u128,
                    ..tracker
                },
                cutoff,
            );
        }
    }
}

} // verus!
