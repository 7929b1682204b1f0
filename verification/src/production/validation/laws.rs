//! What a comparison with a reference comes down to, field by field.

use vstd::prelude::*;

use crate::market_data::{pow10, Market, Price, Side};
use crate::order_book::SideModel;
use crate::text::nat_text;

use super::super::snapshot::{shown_levels, SnapshotBookModel};
use super::super::types::{spec_is_etf, ValidationAnchor};
use super::candidate::{
    cached_candidates_are_fresh, open_references_match_what_agrees, reference_mask,
    reference_scalar_mask, scalar_view, with_depth, AnchorModel, CacheModel, CloseCandidate,
    ContextModel, ReferenceModel,
};
use super::difference::{
    lemma_depth_adds, levels_text, listed, masks_count_their_differences, noted, optional_text,
    tolerance_text, DifferenceMask, DifferenceModel,
};
use super::precision::{digit_count, precision_result, rounded_to};
use super::rules::{
    price_quantum, published_price, published_prices_are_rounded, quantized, quantized_price,
    weighted_average,
};
use super::sz_close_price::close_price_tag;

verus! {

/// A rounded price is the multiple of the quantum that is nearest, and of two that are
/// equally near the greater one.
pub proof fn rounded_prices_are_the_nearest(quantum: int, units: int)
    requires
        0 < quantum,
        0 <= units,
    ensures
        quantized(quantum, units) % quantum == 0,
        2 * (quantized(quantum, units) - units) <= quantum,
        2 * (units - quantized(quantum, units)) < quantum,
{
    let sum = units + quantum / 2;
    let count = sum / quantum;
    lemma_multiple(sum, quantum);
    assert(quantized(quantum, units) == count * quantum);
}

/// A negative price is cut off towards zero once half a quantum was added to it.
pub proof fn negative_prices_are_cut_off(quantum: int, units: int)
    requires
        0 < quantum,
        units + quantum / 2 < 0,
    ensures
        quantized(quantum, units) % quantum == 0,
        units + quantum / 2 <= quantized(quantum, units) < units + quantum / 2 + quantum,
{
    let size = -(units + quantum / 2);
    lemma_multiple(size, quantum);
    let count = size / quantum;
    assert(-(count * quantum) == (-count) * quantum) by (nonlinear_arith);
    let opposite = -count;
    assert((opposite * quantum) % quantum == 0) by (nonlinear_arith)
        requires
            0 < quantum,
    ;
}

proof fn lemma_multiple(sum: int, divisor: int)
    requires
        0 < divisor,
    ensures
        sum / divisor * divisor <= sum < sum / divisor * divisor + divisor,
        (sum / divisor * divisor) % divisor == 0,
{
    let count = sum / divisor;
    assert(count * divisor <= sum < count * divisor + divisor) by (nonlinear_arith)
        requires
            0 < divisor,
            count == sum / divisor,
    ;
    assert((count * divisor) % divisor == 0) by (nonlinear_arith)
        requires
            0 < divisor,
    ;
}

/// The weighted average is the multiple of the quantum that is nearest to the weighted sum
/// divided by the weights, and of two that are equally near the greater one.
pub proof fn weighted_averages_are_the_nearest(weighted: int, total: int, quantum: int)
    requires
        0 < total,
        0 < quantum,
        0 <= weighted,
    ensures
        weighted_average(weighted, total, quantum) % quantum == 0,
        0 <= weighted_average(weighted, total, quantum),
        2 * (weighted_average(weighted, total, quantum) * total - weighted) <= total * quantum,
        2 * (weighted - weighted_average(weighted, total, quantum) * total) < total * quantum,
{
    let divisor = total * quantum;
    assert(0 < divisor) by (nonlinear_arith)
        requires
            divisor == total * quantum,
            0 < total,
            0 < quantum,
    ;
    let sum = weighted + divisor / 2;
    let count = sum / divisor;
    lemma_multiple(sum, divisor);
    assert(0 <= count && 0 <= count * quantum && (count * quantum) % quantum == 0)
        by (nonlinear_arith)
        requires
            0 <= sum,
            0 < divisor,
            0 < quantum,
            count == sum / divisor,
    ;
    assert(count * quantum * total == count * divisor) by (nonlinear_arith)
        requires
            divisor == total * quantum,
    ;
}

/// The published average price of a side is there exactly where the side shows a quantity,
/// and is the multiple of the quantum nearest to what is shown, price by quantity.
pub proof fn published_prices_are_the_nearest(side: SideModel, quantum: i64)
    requires
        quantum > 0,
        side.total_quantity >= 0,
        side.weighted_price_quantity >= 0,
        published_price(side, quantum as int) is Ok,
    ensures
        match published_price(side, quantum as int)->Ok_0 {
            None => side.total_quantity == 0,
            Some(price) => {
                &&& side.total_quantity > 0
                &&& price >= 0
                &&& price % quantum == 0
                &&& 2 * (price * side.total_quantity - side.weighted_price_quantity)
                    <= side.total_quantity * quantum
                &&& 2 * (side.weighted_price_quantity - price * side.total_quantity)
                    < side.total_quantity * quantum
            },
        },
{
    if side.total_quantity > 0 {
        weighted_averages_are_the_nearest(
            side.weighted_price_quantity,
            side.total_quantity,
            quantum as int,
        );
    }
}

/// Prices are published in steps of ten units, of Shenzhen stocks in steps of a hundred.
pub proof fn price_steps_follow_the_market(symbol: Seq<char>)
    ensures
        price_quantum(Market::Sse, symbol) == 10,
        spec_is_etf(Market::Szse, symbol) ==> price_quantum(Market::Szse, symbol) == 10,
        !spec_is_etf(Market::Szse, symbol) ==> price_quantum(Market::Szse, symbol) == 100,
{
}

/// A mask names a field exactly where the two books differ in it. Average prices are apart
/// from the others: they are compared with a tolerance.
pub proof fn differences_are_found_field_by_field(
    quantum: i64,
    expected: SnapshotBookModel,
    actual: SnapshotBookModel,
)
    ensures
        ({
            let mask = DifferenceMask::of(quantum, expected, actual);
            &&& mask.bids <==> expected.bids != actual.bids
            &&& mask.asks <==> expected.asks != actual.asks
            &&& mask.total_bid_quantity <==> expected.total_bid_quantity
                != actual.total_bid_quantity
            &&& mask.total_ask_quantity <==> expected.total_ask_quantity
                != actual.total_ask_quantity
            &&& mask.last_price <==> expected.last_price_units != actual.last_price_units
            &&& mask.high_price <==> expected.high_price_units != actual.high_price_units
            &&& mask.low_price <==> expected.low_price_units != actual.low_price_units
            &&& mask.trade_count <==> expected.trade_count != actual.trade_count
            &&& mask.trade_quantity <==> expected.trade_quantity != actual.trade_quantity
            &&& mask.turnover <==> expected.turnover_units != actual.turnover_units
        }),
        ({
            let mask = DifferenceMask::of(quantum, expected, actual);
            let scalars = DifferenceMask::of_scalars(quantum, expected, actual);
            let depth = DifferenceMask::of_depth(expected, actual);
            &&& scalars == DifferenceMask { bids: false, asks: false, ..mask }
            &&& depth.bids == mask.bids
            &&& depth.asks == mask.asks
            &&& !depth.total_bid_quantity && !depth.weighted_bid_price && !depth.total_ask_quantity
            &&& !depth.weighted_ask_price && !depth.last_price && !depth.high_price
            &&& !depth.low_price && !depth.trade_count && !depth.trade_quantity && !depth.turnover
        }),
{
}

/// An average price differs where it is shown on one side of the comparison only, or where
/// the two are more than ten units apart, the book's one rounded to the quantum.
pub proof fn average_prices_are_compared_with_a_tolerance(
    quantum: i64,
    expected: SnapshotBookModel,
    actual: SnapshotBookModel,
)
    requires
        0 < quantum,
        actual.weighted_bid_price_units matches Some(price) ==> 0 <= price
            && price + quantum / 2 <= i64::MAX,
        actual.weighted_ask_price_units matches Some(price) ==> 0 <= price
            && price + quantum / 2 <= i64::MAX,
    ensures
        ({
            let mask = DifferenceMask::of(quantum, expected, actual);
            &&& expected.weighted_bid_price_units is None && actual.weighted_bid_price_units is None
                ==> !mask.weighted_bid_price
            &&& (expected.weighted_bid_price_units is None) != (
            actual.weighted_bid_price_units is None) ==> mask.weighted_bid_price
            &&& expected.weighted_ask_price_units is None && actual.weighted_ask_price_units is None
                ==> !mask.weighted_ask_price
            &&& (expected.weighted_ask_price_units is None) != (
            actual.weighted_ask_price_units is None) ==> mask.weighted_ask_price
        }),
        ({
            let mask = DifferenceMask::of(quantum, expected, actual);
            expected.weighted_bid_price_units matches Some(e) ==>
                actual.weighted_bid_price_units matches Some(a) ==> {
                &&& a % quantum == 0 ==> (mask.weighted_bid_price <==> e - a > 10 || a - e > 10)
                &&& !mask.weighted_bid_price ==> 2 * (e - a) <= 20 + quantum && 2 * (a - e) < 20
                    + quantum
            }
        }),
        ({
            let mask = DifferenceMask::of(quantum, expected, actual);
            expected.weighted_ask_price_units matches Some(e) ==>
                actual.weighted_ask_price_units matches Some(a) ==> {
                &&& a % quantum == 0 ==> (mask.weighted_ask_price <==> e - a > 10 || a - e > 10)
                &&& !mask.weighted_ask_price ==> 2 * (e - a) <= 20 + quantum && 2 * (a - e) < 20
                    + quantum
            }
        }),
{
    if let Some(price) = actual.weighted_bid_price_units {
        lemma_rounded_fits(quantum as int, price as int);
    }
    if let Some(price) = actual.weighted_ask_price_units {
        lemma_rounded_fits(quantum as int, price as int);
    }
}

proof fn lemma_rounded_fits(quantum: int, units: int)
    requires
        0 < quantum,
        0 <= units,
    ensures
        0 <= quantized(quantum, units) <= units + quantum / 2,
        2 * (quantized(quantum, units) - units) <= quantum,
        2 * (units - quantized(quantum, units)) < quantum,
        units % quantum == 0 ==> quantized(quantum, units) == units,
{
    rounded_prices_are_the_nearest(quantum, units);
    let sum = units + quantum / 2;
    let count = sum / quantum;
    lemma_multiple(sum, quantum);
    assert(0 <= count && 0 <= count * quantum) by (nonlinear_arith)
        requires
            0 <= sum,
            0 < quantum,
            count == sum / quantum,
    ;
    if units % quantum == 0 {
        let whole = units / quantum;
        assert(units == whole * quantum && 0 <= whole) by (nonlinear_arith)
            requires
                0 <= units,
                0 < quantum,
                units % quantum == 0,
                whole == units / quantum,
        ;
        super::rules::multiples_stay(quantum, whole);
    }
}

/// How many fields differ is the number of fields that a mask names.
pub proof fn masks_count_one_for_each_field(mask: DifferenceMask)
    ensures
        mask.spec_count() == one(mask.bids) + one(mask.asks) + one(mask.total_bid_quantity) + one(
            mask.weighted_bid_price,
        ) + one(mask.total_ask_quantity) + one(mask.weighted_ask_price) + one(mask.last_price)
            + one(mask.high_price) + one(mask.low_price) + one(mask.trade_count) + one(
            mask.trade_quantity,
        ) + one(mask.turnover),
{
    reveal(DifferenceMask::first_count);
    reveal(DifferenceMask::second_count);
    reveal(DifferenceMask::third_count);
    reveal(DifferenceMask::fourth_count);
    reveal(super::difference::counted_flag);
}

/// One where something holds, else zero.
pub open spec fn one(holds: bool) -> int {
    if holds {
        1
    } else {
        0
    }
}

/// A turnover is let pass only in a market day without reception times, only where it has
/// more than twelve digits, and only where the reference is that turnover rounded to twelve
/// digits, halves up.
pub proof fn turnovers_pass_by_their_twelve_digits(missing: bool, expected: u128, actual: u128)
    ensures
        precision_result(missing, expected, actual) matches Some(audit) ==> {
            &&& missing
            &&& expected != actual
            &&& actual >= 1_000_000_000_000
            &&& audit.actual_units == actual
            &&& audit.reference_units == expected
            &&& audit.quantum_units >= 10
            &&& 100_000_000_000 <= (actual / audit.quantum_units) < 1_000_000_000_000
            &&& expected % audit.quantum_units == 0
            &&& 2 * (expected - actual) <= audit.quantum_units
            &&& 2 * (actual - expected) < audit.quantum_units
        },
{
    if precision_result(missing, expected, actual) is Some {
        let places = (digit_count(actual as nat) - 12) as nat;
        let quantum = pow10(places) as int;
        lemma_digits(actual as nat);
        lemma_powers(places, 11);
        lemma_powers(places, 12);
        assert(pow10(11) == 100_000_000_000 && pow10(12) == 1_000_000_000_000) by {
            reveal_with_fuel(pow10, 13);
        }
        lemma_powers((places - 1) as nat, 1);
        assert(pow10(1) == 10) by {
            reveal_with_fuel(pow10, 2);
        }
        lemma_rounded(actual as int, quantum);
    }
}

/// A number that is rounded to a multiple of an even quantum goes to the nearest, halves up.
proof fn lemma_rounded(n: int, quantum: int)
    requires
        10 <= quantum,
        quantum * 100_000_000_000 <= n < quantum * 1_000_000_000_000,
    ensures
        100_000_000_000 <= n / quantum < 1_000_000_000_000,
        1_000_000_000_000 <= n,
        rounded_to(n as nat, quantum as nat) % (quantum as nat) == 0,
        2 * (rounded_to(n as nat, quantum as nat) - n) <= quantum + 1,
        quantum % 2 == 0 ==> 2 * (rounded_to(n as nat, quantum as nat) - n) <= quantum,
        2 * (n - rounded_to(n as nat, quantum as nat)) < quantum,
{
    let whole = n / quantum;
    let rest = n % quantum;
    let up: int = if rest >= quantum / 2 {
        1
    } else {
        0
    };
    assert(n == whole * quantum + rest && 0 <= rest < quantum) by (nonlinear_arith)
        requires
            0 < quantum,
            whole == n / quantum,
            rest == n % quantum,
    ;
    let count = whole + up;
    assert(count * quantum == whole * quantum + up * quantum) by (nonlinear_arith)
        requires
            count == whole + up,
    ;
    assert((count * quantum) % quantum == 0) by (nonlinear_arith)
        requires
            0 < quantum,
    ;
    assert(up * quantum == if up == 1 {
        quantum
    } else {
        0
    });
    assert(whole < 1_000_000_000_000) by (nonlinear_arith)
        requires
            n < quantum * 1_000_000_000_000,
            n == whole * quantum + rest,
            0 <= rest,
            0 < quantum,
    ;
    assert(whole >= 100_000_000_000) by (nonlinear_arith)
        requires
            n >= quantum * 100_000_000_000,
            n == whole * quantum + rest,
            rest < quantum,
            0 < quantum,
    ;
    assert(0 <= count * quantum) by (nonlinear_arith)
        requires
            0 <= count,
            0 < quantum,
    ;
    assert(rounded_to(n as nat, quantum as nat) == count * quantum);
}

proof fn lemma_digits(n: nat)
    ensures
        digit_count(n) >= 1,
        n < pow10(digit_count(n)),
        digit_count(n) > 1 ==> pow10((digit_count(n) - 1) as nat) <= n,
    decreases n,
{
    reveal_with_fuel(pow10, 2);
    if n >= 10 {
        lemma_digits(n / 10);
        let rest = (digit_count(n) - 1) as nat;
        assert(pow10(digit_count(n)) == 10 * pow10(rest));
        if rest > 1 {
            assert(pow10(rest) == 10 * pow10((rest - 1) as nat));
        } else {
            assert(pow10(1) == 10);
        }
    }
}

proof fn lemma_powers(a: nat, b: nat)
    ensures
        pow10(a) > 0,
        pow10(b) > 0,
        pow10(a + b) == pow10(a) * pow10(b),
    decreases a + b, b,
{
    reveal_with_fuel(pow10, 2);
    if b > 0 {
        lemma_powers(a, (b - 1) as nat);
        let power = pow10((b - 1) as nat);
        assert(pow10(a + b) == 10 * pow10((a + b - 1) as nat));
        assert(pow10(a) * (10 * power) == 10 * (pow10(a) * power)) by (nonlinear_arith);
    } else if a > 0 {
        lemma_powers((a - 1) as nat, 0);
    }
}

/// Whether an average price that a reference shows is at most ten units from the one that a
/// side of a book publishes.
pub open spec fn near_average(shown: Option<i64>, published: Option<i64>) -> bool {
    match shown {
        None => published is None,
        Some(a) => published matches Some(b) && a - b <= 10 && b - a <= 10,
    }
}

/// Before the close a reference is matched exactly where it shows the book: its counts, its
/// totals, its prices and its ten best levels to the unit, its average prices to ten units.
/// A turnover may differ beyond twelve digits where reception times are missing.
pub proof fn matched_references_show_the_book(
    ctx: ContextModel,
    reference: ReferenceModel,
    cache: CacheModel,
    anchor: ValidationAnchor,
    time_ns: Option<i64>,
)
    requires
        cache.tracks(ctx.book, ctx.rules.price_quantum),
        scalar_view(ctx.book, ctx.rules.price_quantum) is Ok,
        ctx.rules.price_quantum > 0,
        0 <= ctx.book.bids.total_quantity <= u64::MAX,
        0 <= ctx.book.asks.total_quantity <= u64::MAX,
        0 <= ctx.book.bids.weighted_price_quantity,
        0 <= ctx.book.asks.weighted_price_quantity,
        anchor != ValidationAnchor::MarketClose,
        !reference.state.matched,
        !reference.state.finalized,
        reference.view is Some,
    ensures
        ctx.compared(reference, cache, anchor, time_ns).state.matched <==> {
            let shown = reference.view->0;
            let book = ctx.book;
            let trades = book.statistics;
            let quantum = ctx.rules.price_quantum as int;
            &&& shown.total_bid_quantity == book.bids.total_quantity
            &&& shown.total_ask_quantity == book.asks.total_quantity
            &&& near_average(
                shown.weighted_bid_price_units,
                published_price(book.bids, quantum)->Ok_0,
            )
            &&& near_average(
                shown.weighted_ask_price_units,
                published_price(book.asks, quantum)->Ok_0,
            )
            &&& shows_units(shown.last_price_units, trades.last_price)
            &&& shows_units(shown.high_price_units, trades.high_price)
            &&& shows_units(shown.low_price_units, trades.low_price)
            &&& shown.trade_count == trades.trade_count
            &&& shown.trade_quantity == trades.total_quantity
            &&& shown.turnover_units == trades.total_turnover_units || precision_result(
                reference.missing_reception,
                shown.turnover_units,
                trades.total_turnover_units,
            ) is Some
            &&& shown.bids == shown_levels(book, Side::Buy, 10)
            &&& shown.asks == shown_levels(book, Side::Sell, 10)
        },
{
    open_references_match_what_agrees(ctx, reference, cache, anchor, time_ns);
    reveal(reference_mask);
    let quantum = ctx.rules.price_quantum;
    if ctx.book.bids.total_quantity > 0 {
        published_prices_are_rounded(ctx.book.bids, quantum);
    }
    if ctx.book.asks.total_quantity > 0 {
        published_prices_are_rounded(ctx.book.asks, quantum);
    }
}

/// Whether units are those of a price, or both are missing.
pub open spec fn shows_units(units: Option<i64>, price: Option<Price>) -> bool {
    match price {
        None => units is None,
        Some(price) => units == Some(price.spec_units()),
    }
}

/// What a comparison before the close notes: a match notes when the book was seen and the
/// sequences of its last event and forgets differences; a mismatch that is better than all
/// before notes the same as its best; any other one changes nothing.
pub proof fn comparisons_note_the_book(
    ctx: ContextModel,
    reference: ReferenceModel,
    cache: CacheModel,
    anchor: ValidationAnchor,
    time_ns: Option<i64>,
)
    requires
        cache.tracks(ctx.book, ctx.rules.price_quantum),
        scalar_view(ctx.book, ctx.rules.price_quantum) is Ok,
        anchor != ValidationAnchor::MarketClose,
        !reference.state.matched,
        !reference.state.finalized,
        reference.view is Some,
    ensures
        ({
            let before = reference.state;
            let after = ctx.compared(reference, cache, anchor, time_ns).state;
            let meta = ctx.book.last_meta;
            &&& after.matched ==> {
                &&& after.finalized
                &&& after.best_differences is None
                &&& after.match_tag is None
                &&& after.matched_candidate_time_ns == time_ns
                &&& meta is None ==> after.matched_candidate_raw_sequence is None
                    && after.matched_candidate_apply_sequence is None
                &&& meta is Some ==> after.matched_candidate_raw_sequence == Some(
                    meta->0.raw_sequence.spec_get(),
                ) && after.matched_candidate_apply_sequence == Some(
                    meta->0.apply_sequence.spec_get(),
                )
                &&& after.best_candidate_time_ns == before.best_candidate_time_ns
                &&& after.best_candidate_raw_sequence == before.best_candidate_raw_sequence
            }
            &&& !after.matched ==> {
                &&& !after.finalized
                &&& after.matched_candidate_time_ns == before.matched_candidate_time_ns
                &&& after.matched_candidate_raw_sequence == before.matched_candidate_raw_sequence
                &&& after.matched_candidate_apply_sequence
                    == before.matched_candidate_apply_sequence
                &&& after.match_tag == before.match_tag
                &&& after.best_differences is Some
                &&& before.best_differences is Some ==> after.best_differences->0.len()
                    <= before.best_differences->0.len()
                &&& before.best_differences is None || after.best_differences->0.len()
                    < before.best_differences->0.len() ==> {
                    &&& after.best_candidate_time_ns == time_ns
                    &&& meta is None ==> after.best_candidate_raw_sequence is None
                    &&& meta is Some ==> after.best_candidate_raw_sequence == Some(
                        meta->0.raw_sequence.spec_get(),
                    )
                }
                &&& before.best_differences is Some && after.best_differences->0.len()
                    == before.best_differences->0.len() ==> after == before
            }
            &&& after.comparison_error == before.comparison_error
            &&& after.close_price_band == before.close_price_band
        }),
{
    open_references_match_what_agrees(ctx, reference, cache, anchor, time_ns);
    cached_candidates_are_fresh(ctx, reference, cache, anchor, time_ns);
    reveal(AnchorModel::judged);
    let quantum = ctx.rules.price_quantum;
    let actual = with_depth(scalar_view(ctx.book, quantum)->Ok_0, ctx.book);
    masks_count_their_differences(
        reference_mask(reference, actual, quantum),
        quantum,
        reference.view->0,
        actual,
    );
    let scalars = scalar_view(ctx.book, quantum)->Ok_0;
    if ctx.rejects(reference, scalars) {
        let part = reference_scalar_mask(reference, scalars, quantum);
        let full = reference_mask(reference, actual, quantum);
        reveal(reference_mask);
        reveal(reference_scalar_mask);
        lemma_depth_adds(part, full);
    }
}

/// Whether a reference shows a view in everything but the last price.
pub open spec fn shows_but_last(
    reference: ReferenceModel,
    view: SnapshotBookModel,
    quantum: i64,
) -> bool {
    let shown = reference.view->0;
    let mask = DifferenceMask::of(quantum, shown, view);
    &&& shown.bids == view.bids
    &&& shown.asks == view.asks
    &&& shown.total_bid_quantity == view.total_bid_quantity
    &&& shown.total_ask_quantity == view.total_ask_quantity
    &&& !mask.weighted_bid_price
    &&& !mask.weighted_ask_price
    &&& shown.high_price_units == view.high_price_units
    &&& shown.low_price_units == view.low_price_units
    &&& shown.trade_count == view.trade_count
    &&& shown.trade_quantity == view.trade_quantity
    &&& shown.turnover_units == view.turnover_units || precision_result(
        reference.missing_reception,
        shown.turnover_units,
        view.turnover_units,
    ) is Some
}

/// At the close a reference is matched exactly where it shows the candidate, but for a last
/// price that the closing rule of Shenzhen explains, which is then tagged. A candidate that is
/// refused is an error of the comparison; either way the reference is then final.
pub proof fn matched_closes_show_the_candidate(
    ctx: ContextModel,
    reference: ReferenceModel,
    cache: CacheModel,
    time_ns: Option<i64>,
)
    requires
        !reference.state.matched,
        !reference.state.finalized,
        reference.view is Some,
        ctx.compared(reference, cache, ValidationAnchor::MarketClose, time_ns).error is None,
    ensures
        ({
            let after = ctx.compared(
                reference,
                cache,
                ValidationAnchor::MarketClose,
                time_ns,
            ).state;
            let shown = reference.view->0;
            match ctx.close_candidate() {
                CloseCandidate::Shown(view, band) => {
                    let tag = close_price_tag(
                        ctx.symbol,
                        reference.pre_close_price_units,
                        ctx.close_price,
                        shown.last_price_units,
                    );
                    let same = shown.last_price_units == view.last_price_units;
                    let explained = ctx.market == Market::Szse && tag is Ok && tag->Ok_0 is Some;
                    &&& after.matched <==> shows_but_last(
                        reference,
                        view,
                        ctx.rules.price_quantum,
                    ) && (same || explained)
                    &&& after.matched && same ==> after.match_tag is None
                    &&& after.matched && !same ==> after.match_tag == tag->Ok_0
                    &&& after.matched ==> after.finalized && after.matched_candidate_time_ns
                        == time_ns
                    &&& band is Some ==> after.close_price_band == band
                    &&& after.comparison_error == reference.state.comparison_error
                },
                CloseCandidate::Refused(detail) => {
                    &&& !after.matched
                    &&& after.finalized
                    &&& after.comparison_error == Some(detail)
                },
                CloseCandidate::Failed(_) => true,
            }
        }),
{
    reveal(AnchorModel::judged);
    reveal(super::candidate::is_last_price_only);
    let quantum = ctx.rules.price_quantum;
    let shown = reference.view->0;
    if let CloseCandidate::Shown(view, _) = ctx.close_candidate() {
        let mask = reference_mask(reference, view, quantum);
        let same = shown.last_price_units == view.last_price_units;
        assert(mask.last_price <==> !same) by {
            reveal(reference_mask);
        }
        assert(shows_but_last(reference, view, quantum) <==> mask == (DifferenceMask {
            last_price: mask.last_price,
            ..DifferenceMask::none()
        })) by {
            reveal(reference_mask);
        }
        let replaced = SnapshotBookModel { last_price_units: shown.last_price_units, ..view };
        assert(reference_mask(reference, replaced, quantum) == (DifferenceMask {
            last_price: false,
            ..mask
        })) by {
            reveal(reference_mask);
        }
    }
}

/// One difference among those that are listed.
pub open spec fn is_listed(
    differences: Seq<DifferenceModel>,
    field: Seq<char>,
    expected: Seq<char>,
    actual: Seq<char>,
) -> bool {
    differences.contains(DifferenceModel { field, expected, actual })
}

proof fn lemma_noted(
    differences: Seq<DifferenceModel>,
    differs: bool,
    field: Seq<char>,
    expected: Seq<char>,
    actual: Seq<char>,
)
    ensures
        ({
            let after = noted(differences, differs, field, expected, actual);
            &&& differs ==> is_listed(after, field, expected, actual)
            &&& forall|f: Seq<char>, e: Seq<char>, a: Seq<char>| #[trigger]
                is_listed(differences, f, e, a) ==> is_listed(after, f, e, a)
        }),
{
    reveal(noted);
    let after = noted(differences, differs, field, expected, actual);
    if differs {
        assert(after[differences.len() as int] == (DifferenceModel { field, expected, actual }));
        assert forall|f: Seq<char>, e: Seq<char>, a: Seq<char>| #[trigger]
            is_listed(differences, f, e, a) implies is_listed(after, f, e, a) by {
            let item = DifferenceModel { field: f, expected: e, actual: a };
            let i = choose|i: int| 0 <= i < differences.len() && differences[i] == item;
            assert(after[i] == item);
        }
    }
}

/// Each field that a mask names is listed under its name, with what the reference shows and
/// what the book shows.
pub proof fn differences_are_listed_by_name(
    mask: DifferenceMask,
    quantum: i64,
    expected: SnapshotBookModel,
    actual: SnapshotBookModel,
)
    ensures
        ({
            let list = listed(mask, quantum, expected, actual);
            &&& mask.bids ==> is_listed(
                list,
                "bids"@,
                levels_text(expected.bids),
                levels_text(actual.bids),
            )
            &&& mask.asks ==> is_listed(
                list,
                "asks"@,
                levels_text(expected.asks),
                levels_text(actual.asks),
            )
            &&& mask.total_bid_quantity ==> is_listed(
                list,
                "total_bid_quantity"@,
                nat_text(expected.total_bid_quantity as nat),
                nat_text(actual.total_bid_quantity as nat),
            )
            &&& mask.weighted_bid_price ==> is_listed(
                list,
                "weighted_bid_price_units"@,
                tolerance_text(expected.weighted_bid_price_units),
                optional_text(quantized_price(quantum, actual.weighted_bid_price_units)),
            )
            &&& mask.total_ask_quantity ==> is_listed(
                list,
                "total_ask_quantity"@,
                nat_text(expected.total_ask_quantity as nat),
                nat_text(actual.total_ask_quantity as nat),
            )
            &&& mask.weighted_ask_price ==> is_listed(
                list,
                "weighted_ask_price_units"@,
                tolerance_text(expected.weighted_ask_price_units),
                optional_text(quantized_price(quantum, actual.weighted_ask_price_units)),
            )
            &&& mask.last_price ==> is_listed(
                list,
                "last_price_units"@,
                optional_text(expected.last_price_units),
                optional_text(actual.last_price_units),
            )
            &&& mask.high_price ==> is_listed(
                list,
                "high_price_units"@,
                optional_text(expected.high_price_units),
                optional_text(actual.high_price_units),
            )
            &&& mask.low_price ==> is_listed(
                list,
                "low_price_units"@,
                optional_text(expected.low_price_units),
                optional_text(actual.low_price_units),
            )
            &&& mask.trade_count ==> is_listed(
                list,
                "trade_count"@,
                nat_text(expected.trade_count as nat),
                nat_text(actual.trade_count as nat),
            )
            &&& mask.trade_quantity ==> is_listed(
                list,
                "trade_quantity"@,
                nat_text(expected.trade_quantity as nat),
                nat_text(actual.trade_quantity as nat),
            )
            &&& mask.turnover ==> is_listed(
                list,
                "turnover_units"@,
                nat_text(expected.turnover_units as nat),
                nat_text(actual.turnover_units as nat),
            )
        }),
{
    let e = expected;
    let a = actual;
    let d = Seq::<DifferenceModel>::empty();
    lemma_noted(d, mask.bids, "bids"@, levels_text(e.bids), levels_text(a.bids));
    let d = noted(d, mask.bids, "bids"@, levels_text(e.bids), levels_text(a.bids));
    lemma_noted(d, mask.asks, "asks"@, levels_text(e.asks), levels_text(a.asks));
    let d = noted(d, mask.asks, "asks"@, levels_text(e.asks), levels_text(a.asks));
    let (x, y) = (
        nat_text(e.total_bid_quantity as nat),
        nat_text(a.total_bid_quantity as nat),
    );
    lemma_noted(d, mask.total_bid_quantity, "total_bid_quantity"@, x, y);
    let d = noted(d, mask.total_bid_quantity, "total_bid_quantity"@, x, y);
    let (x, y) = (
        tolerance_text(e.weighted_bid_price_units),
        optional_text(quantized_price(quantum, a.weighted_bid_price_units)),
    );
    lemma_noted(d, mask.weighted_bid_price, "weighted_bid_price_units"@, x, y);
    let d = noted(d, mask.weighted_bid_price, "weighted_bid_price_units"@, x, y);
    let (x, y) = (
        nat_text(e.total_ask_quantity as nat),
        nat_text(a.total_ask_quantity as nat),
    );
    lemma_noted(d, mask.total_ask_quantity, "total_ask_quantity"@, x, y);
    let d = noted(d, mask.total_ask_quantity, "total_ask_quantity"@, x, y);
    let (x, y) = (
        tolerance_text(e.weighted_ask_price_units),
        optional_text(quantized_price(quantum, a.weighted_ask_price_units)),
    );
    lemma_noted(d, mask.weighted_ask_price, "weighted_ask_price_units"@, x, y);
    let d = noted(d, mask.weighted_ask_price, "weighted_ask_price_units"@, x, y);
    let (x, y) = (optional_text(e.last_price_units), optional_text(a.last_price_units));
    lemma_noted(d, mask.last_price, "last_price_units"@, x, y);
    let d = noted(d, mask.last_price, "last_price_units"@, x, y);
    let (x, y) = (optional_text(e.high_price_units), optional_text(a.high_price_units));
    lemma_noted(d, mask.high_price, "high_price_units"@, x, y);
    let d = noted(d, mask.high_price, "high_price_units"@, x, y);
    let (x, y) = (optional_text(e.low_price_units), optional_text(a.low_price_units));
    lemma_noted(d, mask.low_price, "low_price_units"@, x, y);
    let d = noted(d, mask.low_price, "low_price_units"@, x, y);
    let (x, y) = (nat_text(e.trade_count as nat), nat_text(a.trade_count as nat));
    lemma_noted(d, mask.trade_count, "trade_count"@, x, y);
    let d = noted(d, mask.trade_count, "trade_count"@, x, y);
    let (x, y) = (nat_text(e.trade_quantity as nat), nat_text(a.trade_quantity as nat));
    lemma_noted(d, mask.trade_quantity, "trade_quantity"@, x, y);
    let d = noted(d, mask.trade_quantity, "trade_quantity"@, x, y);
    let (x, y) = (nat_text(e.turnover_units as nat), nat_text(a.turnover_units as nat));
    lemma_noted(d, mask.turnover, "turnover_units"@, x, y);
}

} // verus!
