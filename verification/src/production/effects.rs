//! What snapshots show, what texts of times and instruments mean, and what becomes of orders
//! that wait for their responses.

use vstd::prelude::*;

use crate::market_data::{
    days_in_month, is_calendar_day, pow10, BookEvent, Market, Side, TradingDay,
};
use crate::order_book::effects::{
    accepts_all, after_all, is_highest, is_lowest, statistics_sum_up_the_trades, trades_of,
};
use crate::order_book::{market_text, BookConfig, BookModel, LevelView, SideModel};
use crate::text::{
    begins, ends, int_text, is_white, lemma_ends_of_texts, nat_text, trimmed, trimmed_end,
    trimmed_start,
};

use super::duration::Duration;
use super::error::ErrorModel;
use super::rows::{SzExecutionKind, SzExecutionRow, SzOrderKind, SzSide};
use super::sequence::{merge_width, passes_for, run_starts};
use super::snapshot::{
    average_price, day_grid, lemma_sessions, session_grid, SnapshotBookModel, SnapshotModel,
};
use super::sz_pending::{Disposition, PendingOrder};
use super::time::{
    clock_result, days_before_month, days_before_year, digits_value, duration_result, epoch_days,
    leading_digits, shanghai_midnight, spec_time_of_day,
};
use super::types::{
    spec_is_chinext, spec_is_etf, spec_is_stock, spec_is_supported, MarketDayRequest, SnapshotKind,
    SnapshotSchedule, SzMarketOrderPolicy, TargetUniverse, PRODUCTION_PRICE_DECIMAL_PLACES,
    PRODUCTION_PRICE_MULTIPLIER,
};

verus! {

/// A snapshot shows each statistic of the book under its own name, and the totals of its two
/// sides.
pub proof fn snapshots_show_the_statistics(m: BookModel, depth: usize)
    ensures
        ({
            let shown = SnapshotBookModel::of(m, depth);
            let trades = m.statistics;
            &&& trades.last_price is None <==> shown.last_price_units is None
            &&& trades.last_price is Some ==> shown.last_price_units == Some(
                trades.last_price->0.spec_units(),
            )
            &&& trades.high_price is None <==> shown.high_price_units is None
            &&& trades.high_price is Some ==> shown.high_price_units == Some(
                trades.high_price->0.spec_units(),
            )
            &&& trades.low_price is None <==> shown.low_price_units is None
            &&& trades.low_price is Some ==> shown.low_price_units == Some(
                trades.low_price->0.spec_units(),
            )
            &&& shown.trade_count == trades.trade_count
            &&& shown.trade_quantity == trades.total_quantity
            &&& shown.turnover_units == trades.total_turnover_units
            &&& 0 <= m.bids.total_quantity <= u64::MAX ==> shown.total_bid_quantity
                == m.bids.total_quantity
            &&& 0 <= m.asks.total_quantity <= u64::MAX ==> shown.total_ask_quantity
                == m.asks.total_quantity
            &&& shown.weighted_bid_price_units == average_price(m.bids)
            &&& shown.weighted_ask_price_units == average_price(m.asks)
        }),
{
}

/// A snapshot of a book with trades shows the highest and the lowest of their prices, and the
/// last one, which lies between them. A snapshot of a book without trades shows none.
pub proof fn snapshots_show_the_range_of_the_trades(
    config: BookConfig,
    events: Seq<BookEvent>,
    depth: usize,
)
    requires
        accepts_all(BookModel::empty(), config, events),
        forall|i: int|
            0 <= i < trades_of(events).len() ==> (#[trigger] trades_of(
                events,
            )[i]).price.spec_units() > 0,
    ensures
        ({
            let shown = SnapshotBookModel::of(after_all(BookModel::empty(), events), depth);
            let trades = trades_of(events);
            &&& shown.trade_count == trades.len()
            &&& trades.len() == 0 ==> shown.last_price_units is None && shown.high_price_units
                is None && shown.low_price_units is None
            &&& trades.len() > 0 ==> {
                &&& shown.last_price_units == Some(trades.last().price.spec_units())
                &&& shown.high_price_units is Some
                &&& shown.low_price_units is Some
                &&& shown.low_price_units->0 <= shown.last_price_units->0
                    <= shown.high_price_units->0
                &&& exists|i: int|
                    0 <= i < trades.len() && (#[trigger] trades[i]).price.spec_units()
                        == shown.high_price_units->0
                &&& exists|i: int|
                    0 <= i < trades.len() && (#[trigger] trades[i]).price.spec_units()
                        == shown.low_price_units->0
                &&& forall|i: int|
                    0 <= i < trades.len() ==> shown.low_price_units->0
                        <= (#[trigger] trades[i]).price.spec_units() <= shown.high_price_units->0
            }
        }),
{
    statistics_sum_up_the_trades(config, events);
    let m = after_all(BookModel::empty(), events);
    let trades = trades_of(events);
    if trades.len() > 0 {
        assert(is_highest(trades, m.statistics.high_price->0));
        assert(is_lowest(trades, m.statistics.low_price->0));
        assert(trades[trades.len() - 1] == trades.last());
    }
}

/// The average price of a side is there where the side shows a quantity, and is the unit
/// nearest to what is shown, price by quantity, halves up.
pub proof fn average_prices_are_the_nearest(side: SideModel)
    requires
        side.total_quantity >= 0,
        0 <= side.weighted_price_quantity <= i64::MAX * side.total_quantity,
    ensures
        match average_price(side) {
            None => side.total_quantity == 0,
            Some(price) => {
                &&& side.total_quantity > 0
                &&& 2 * (price * side.total_quantity - side.weighted_price_quantity)
                    <= side.total_quantity
                &&& 2 * (side.weighted_price_quantity - price * side.total_quantity)
                    < side.total_quantity
            },
        },
{
    let total = side.total_quantity;
    if total > 0 {
        let sum = side.weighted_price_quantity + total / 2;
        let price = sum / total;
        assert(price * total <= sum < price * total + total) by (nonlinear_arith)
            requires
                0 < total,
                price == sum / total,
        ;
        assert(0 <= price <= 0x7fff_ffff_ffff_ffff) by (nonlinear_arith)
            requires
                0 < total,
                0 <= sum,
                price * total <= sum < price * total + total,
                sum < 0x7fff_ffff_ffff_ffff * total + total,
        ;
    }
}

/// A snapshot shows as many of the best levels of each side as it is deep, each with its
/// price, its quantity and the number of its orders.
pub proof fn snapshots_show_the_best_levels(
    m: BookModel,
    side: Side,
    depth: usize,
    levels: Seq<LevelView>,
)
    requires
        m.is_depth(side, levels),
    ensures
        ({
            let snapshot = SnapshotBookModel::of(m, depth);
            let shown = match side {
                Side::Buy => snapshot.bids,
                Side::Sell => snapshot.asks,
            };
            &&& shown.len() <= depth
            &&& shown.len() <= levels.len()
            &&& shown.len() == depth || shown.len() == levels.len()
            &&& forall|i: int|
                0 <= i < shown.len() ==> {
                    let level = #[trigger] shown[i];
                    &&& level.price_units == levels[i].price.spec_units()
                    &&& level.quantity == levels[i].total_quantity
                    &&& level.order_count == levels[i].order_count as u64
                }
        }),
{
    crate::order_book::depth_is_unique(m, side, levels, m.depth_of(side));
}

/// A snapshot carries its symbol, its channel, its kind and its time as they were asked for,
/// and the times of the last event of the book.
pub proof fn snapshots_carry_their_times(
    m: BookModel,
    symbol: Seq<char>,
    channel: u32,
    kind: SnapshotKind,
    boundary_time_ns: i64,
    depth: usize,
)
    ensures
        ({
            let shown = SnapshotModel::of(m, symbol, channel, kind, boundary_time_ns, depth);
            &&& shown.symbol == symbol
            &&& shown.channel == channel
            &&& shown.kind == kind
            &&& shown.boundary_time_ns == boundary_time_ns
            &&& shown.book == SnapshotBookModel::of(m, depth)
            &&& m.last_meta is None ==> shown.last_local_time_ns is None
                && shown.last_quote_time_ns is None
            &&& m.last_meta is Some ==> shown.last_local_time_ns == Some(
                m.last_meta->0.local_time.spec_nanos(),
            ) && shown.last_quote_time_ns == Some(m.last_meta->0.quote_time.spec_nanos())
        }),
{
}

/// The value of a decimal digit in a text.
pub open spec fn digit_at(text: Seq<char>, at: int) -> int {
    text[at] as int - 48
}

/// Whether a text is `HH:MM:SS.mmm` with digits throughout.
pub open spec fn is_clock_text(text: Seq<char>) -> bool {
    &&& text.len() == 12
    &&& text[2] == ':' && text[5] == ':' && text[8] == '.'
    &&& forall|i: int|
        0 <= i < 12 && i != 2 && i != 5 && i != 8 ==> 0 <= #[trigger] digit_at(text, i) <= 9
}

/// A time of a day is that many hours, minutes, seconds and milliseconds after midnight, in
/// nanoseconds. Hours go up to 23 and minutes to 59; second 60 is a leap second.
pub proof fn clock_texts_count_from_midnight(midnight: int, text: Seq<char>)
    requires
        is_clock_text(text),
    ensures
        ({
            let hour = digit_at(text, 0) * 10 + digit_at(text, 1);
            let minute = digit_at(text, 3) * 10 + digit_at(text, 4);
            let second = digit_at(text, 6) * 10 + digit_at(text, 7);
            let millis = digit_at(text, 9) * 100 + digit_at(text, 10) * 10 + digit_at(text, 11);
            let nanos = (midnight + hour * 3_600_000 + minute * 60_000 + second * 1000 + millis)
                * 1_000_000;
            let time = clock_result(midnight, text);
            &&& hour < 24 && minute < 60 && second <= 60 && i64::MIN <= nanos <= i64::MAX
                ==> time is Ok && time->Ok_0 == nanos
            &&& !(hour < 24 && minute < 60 && second <= 60) ==> time is Err
            &&& !(i64::MIN <= nanos <= i64::MAX) ==> time is Err
        }),
{
    assert forall|i: int| 0 <= i < 12 implies 0 <= #[trigger] text[i] as int && text[i] as int
        <= 127 by {
        if i != 2 && i != 5 && i != 8 {
            assert(0 <= digit_at(text, i) <= 9);
        }
    }
    assert(vstd::utf8::is_ascii_chars(text));
    vstd::utf8::is_ascii_chars_encode_utf8(text);
    let b = vstd::utf8::encode_utf8(text);
    assert(b.len() == 12);
    assert(0 <= digit_at(text, 0) <= 9 && 0 <= digit_at(text, 1) <= 9 && 0 <= digit_at(text, 3) <= 9
        && 0 <= digit_at(text, 4) <= 9 && 0 <= digit_at(text, 6) <= 9 && 0 <= digit_at(text, 7) <= 9
        && 0 <= digit_at(text, 9) <= 9 && 0 <= digit_at(text, 10) <= 9 && 0 <= digit_at(text, 11)
        <= 9);
    assert(b[0] == text[0] as u8 && b[1] == text[1] as u8 && b[2] == text[2] as u8 && b[3]
        == text[3] as u8 && b[4] == text[4] as u8 && b[5] == text[5] as u8);
    assert(b[6] == text[6] as u8 && b[7] == text[7] as u8 && b[8] == text[8] as u8 && b[9]
        == text[9] as u8 && b[10] == text[10] as u8 && b[11] == text[11] as u8);
}

/// A text of ASCII characters that is not twelve long, or lacks a separator at its place, is
/// no time of a day.
pub proof fn other_texts_are_no_times(midnight: int, text: Seq<char>)
    requires
        vstd::utf8::is_ascii_chars(text),
        text.len() != 12 || text[2] != ':' || text[5] != ':' || text[8] != '.',
    ensures
        clock_result(midnight, text) is Err,
{
    vstd::utf8::is_ascii_chars_encode_utf8(text);
    let b = vstd::utf8::encode_utf8(text);
    if text.len() == 12 {
        assert(b[2] == text[2] as u8 && b[5] == text[5] as u8 && b[8] == text[8] as u8);
    }
}

/// The next day of the same month is one day later; the first of the next month is one day
/// after the last of a month, the first of a year one day after the last of the year before;
/// and the days are counted from the first of January 1970.
pub proof fn days_follow_the_calendar(year: int, month: int, day: int)
    requires
        1 <= month <= 12,
    ensures
        epoch_days(year, month, day + 1) == epoch_days(year, month, day) + 1,
        month < 12 ==> epoch_days(year, month + 1, 1) == epoch_days(
            year,
            month,
            days_in_month(year, month),
        ) + 1,
        epoch_days(year + 1, 1, 1) == epoch_days(year, 12, 31) + 1,
        epoch_days(1970, 1, 1) == 0,
        days_in_month(year, month) == 31 || days_in_month(year, month) == 30 || month == 2,
        days_in_month(year, 2) == 29 <==> year % 4 == 0 && (year % 100 != 0 || year % 400 == 0),
        days_in_month(year, 2) == 28 || days_in_month(year, 2) == 29,
        days_in_month(year, 4) == 30 && days_in_month(year, 6) == 30 && days_in_month(year, 9)
            == 30 && days_in_month(year, 11) == 30,
        days_in_month(year, 1) == 31 && days_in_month(year, 3) == 31 && days_in_month(year, 5)
            == 31 && days_in_month(year, 7) == 31 && days_in_month(year, 8) == 31
            && days_in_month(year, 10) == 31 && days_in_month(year, 12) == 31,
{
    lemma_year_has_its_months(year);
    lemma_next_year(year);
}

spec fn year_length(year: int) -> int {
    if year % 4 == 0 && (year % 100 != 0 || year % 400 == 0) {
        366
    } else {
        365
    }
}

proof fn lemma_year_has_its_months(year: int)
    ensures
        days_before_month(year, 12) + 31 == year_length(year),
{
    assert(days_before_month(year, 2) == 31) by {
        reveal_with_fuel(days_before_month, 2);
    }
    let february = days_in_month(year, 2);
    assert(days_before_month(year, 3) == 31 + february);
    assert(days_before_month(year, 4) == 62 + february);
    assert(days_before_month(year, 5) == 92 + february);
    assert(days_before_month(year, 6) == 123 + february);
    assert(days_before_month(year, 7) == 153 + february);
    assert(days_before_month(year, 8) == 184 + february);
    assert(days_before_month(year, 9) == 215 + february);
    assert(days_before_month(year, 10) == 245 + february);
    assert(days_before_month(year, 11) == 276 + february);
    assert(days_before_month(year, 12) == 306 + february);
}

proof fn lemma_next_year(year: int)
    ensures
        days_before_year(year + 1) == days_before_year(year) + year_length(year),
{
    lemma_next_quotient(year, 4);
    lemma_next_quotient(year, 100);
    lemma_next_quotient(year, 400);
    lemma_multiples(year, 4, 25);
    lemma_multiples(year, 100, 4);
}

proof fn lemma_next_quotient(n: int, d: int)
    requires
        d > 0,
    ensures
        n / d - (n - 1) / d == if n % d == 0 {
            1int
        } else {
            0
        },
{
    let q = (n - 1) / d;
    let r = (n - 1) % d;
    vstd::arithmetic::div_mod::lemma_fundamental_div_mod(n - 1, d);
    vstd::arithmetic::div_mod::lemma_mod_bound(n - 1, d);
    if r + 1 == d {
        assert(d * q + r + 1 == d * (q + 1)) by (nonlinear_arith)
            requires
                r + 1 == d,
        ;
        assert(d * (q + 1) == (q + 1) * d) by (nonlinear_arith);
        vstd::arithmetic::div_mod::lemma_fundamental_div_mod_converse(n, d, q + 1, 0);
    } else {
        assert(d * q == q * d) by (nonlinear_arith);
        vstd::arithmetic::div_mod::lemma_fundamental_div_mod_converse(n, d, q, r + 1);
    }
}

proof fn lemma_multiples(n: int, d: int, k: int)
    requires
        d > 0,
        k > 0,
    ensures
        n % (d * k) == 0 ==> n % d == 0,
{
    if n % (d * k) == 0 {
        let q = n / (d * k);
        assert(d * k > 0) by (nonlinear_arith)
            requires
                d > 0,
                k > 0,
        ;
        vstd::arithmetic::div_mod::lemma_fundamental_div_mod(n, d * k);
        assert((d * k) * q == (k * q) * d) by (nonlinear_arith);
        vstd::arithmetic::div_mod::lemma_fundamental_div_mod_converse(n, d, k * q, 0);
    }
}

/// A trading day begins at midnight in Shanghai, which is eight hours before midnight of the
/// same date at Greenwich.
pub proof fn trading_days_begin_in_shanghai(day: TradingDay)
    ensures
        ({
            let value = day.spec_value() as int;
            shanghai_midnight(day) == epoch_days(
                value / 10_000,
                value / 100 % 100,
                value % 100,
            ) * 24 * 3_600_000 - 8 * 3_600_000
        }),
{
}

/// The time of day goes on with the time, from zero to a day, and is zero at midnight in
/// Shanghai.
pub proof fn times_of_day_start_at_midnight(day: TradingDay, after: int)
    requires
        0 <= after < 86_400_000_000_000,
    ensures
        spec_time_of_day(shanghai_midnight(day) * 1_000_000 + after) == after,
{
    let value = day.spec_value() as int;
    let days = epoch_days(value / 10_000, value / 100 % 100, value % 100);
    assert((days * 86_400_000_000_000 + after) % 86_400_000_000_000 == after) by (nonlinear_arith)
        requires
            0 <= after < 86_400_000_000_000,
    ;
    assert((days * 86_400_000 - 28_800_000) * 1_000_000 + 28_800_000_000_000 == days
        * 86_400_000_000_000) by (nonlinear_arith);
}

/// A duration is its leading number in milliseconds, seconds or minutes; it is refused where
/// the number is missing or zero, or the unit is another one.
pub proof fn durations_are_a_number_and_a_unit(text: Seq<char>)
    ensures
        ({
            let count = leading_digits(text) as int;
            let amount = digits_value(text.take(count));
            let unit = text.skip(count);
            let duration = duration_result(text);
            &&& count == 0 || amount == 0 || amount > u64::MAX ==> duration is Err
            &&& unit != "ms"@ && unit != "s"@ && unit != "m"@ ==> duration is Err
            &&& count > 0 && 0 < amount <= u64::MAX ==> {
                &&& unit == "ms"@ ==> duration == Ok::<nat, ErrorModel>(
                    (amount * 1_000_000) as nat,
                )
                &&& unit == "s"@ ==> duration == Ok::<nat, ErrorModel>(
                    (amount * 1_000_000_000) as nat,
                )
                &&& unit == "m"@ && amount * 60 <= u64::MAX ==> duration == Ok::<nat, ErrorModel>(
                    (amount * 60 * 1_000_000_000) as nat,
                )
            }
        }),
{
    reveal_strlit("ms");
    reveal_strlit("s");
    reveal_strlit("m");
    assert("ms"@.len() == 2 && "s"@.len() == 1 && "m"@.len() == 1);
    assert("s"@[0] == 's' && "m"@[0] == 'm');
}

/// Whether the first three characters of a text are a prefix.
pub open spec fn has_code(symbol: Seq<char>, prefix: Seq<char>) -> bool {
    symbol.take(3) == prefix
}

/// Whether a text is six decimal digits.
pub open spec fn is_six_digits(symbol: Seq<char>) -> bool {
    &&& symbol.len() == 6
    &&& forall|i: int| 0 <= i < 6 ==> '0' <= #[trigger] symbol[i] <= '9'
}

/// Which instruments are stocks and funds: by the market, and by the first three of six
/// digits.
pub proof fn instruments_are_told_by_their_code(symbol: Seq<char>)
    ensures
        spec_is_stock(Market::Sse, symbol) <==> is_six_digits(symbol) && (has_code(symbol, "600"@)
            || has_code(symbol, "601"@) || has_code(symbol, "603"@) || has_code(symbol, "605"@)
            || has_code(symbol, "688"@) || has_code(symbol, "689"@)),
        spec_is_stock(Market::Szse, symbol) <==> is_six_digits(symbol) && (has_code(symbol, "000"@)
            || has_code(symbol, "001"@) || has_code(symbol, "002"@) || has_code(symbol, "003"@)
            || has_code(symbol, "300"@) || has_code(symbol, "301"@) || has_code(symbol, "302"@)),
        spec_is_etf(Market::Szse, symbol) <==> is_six_digits(symbol) && has_code(symbol, "159"@),
        spec_is_etf(Market::Sse, symbol) <==> is_six_digits(symbol) && (has_code(symbol, "510"@)
            || has_code(symbol, "511"@) || has_code(symbol, "512"@) || has_code(symbol, "513"@)
            || has_code(symbol, "515"@) || has_code(symbol, "516"@) || has_code(symbol, "517"@)
            || has_code(symbol, "518"@) || has_code(symbol, "560"@) || has_code(symbol, "561"@)
            || has_code(symbol, "562"@) || has_code(symbol, "563"@) || has_code(symbol, "588"@)),
        spec_is_chinext(symbol) <==> is_six_digits(symbol) && (has_code(symbol, "300"@) || has_code(
            symbol,
            "301"@,
        ) || has_code(symbol, "302"@)),
{
    let head = symbol.take(3);
    let stocks = super::types::stock_prefixes(Market::Sse);
    assert(stocks[0] == "600"@ && stocks[1] == "601"@ && stocks[2] == "603"@ && stocks[3]
        == "605"@ && stocks[4] == "688"@ && stocks[5] == "689"@);
    let others = super::types::stock_prefixes(Market::Szse);
    assert(others[0] == "000"@ && others[1] == "001"@ && others[2] == "002"@ && others[3]
        == "003"@ && others[4] == "300"@ && others[5] == "301"@ && others[6] == "302"@);
    let funds = super::types::etf_prefixes(Market::Szse);
    assert(funds[0] == "159"@);
    let more = super::types::etf_prefixes(Market::Sse);
    assert(more[0] == "510"@ && more[1] == "511"@ && more[2] == "512"@ && more[3] == "513"@
        && more[4] == "515"@ && more[5] == "516"@ && more[6] == "517"@ && more[7] == "518"@);
    assert(more[8] == "560"@ && more[9] == "561"@ && more[10] == "562"@ && more[11] == "563"@
        && more[12] == "588"@);
    let young = super::types::chinext_prefixes();
    assert(young[0] == "300"@ && young[1] == "301"@ && young[2] == "302"@);
}

/// What a request asks for: all stocks, all funds, both, or the named instruments.
pub proof fn targets_hold_what_they_say(market: Market, symbol: Seq<char>, targets: TargetUniverse)
    ensures
        targets is AllStocks ==> (targets.spec_contains(market, symbol) <==> spec_is_stock(
            market,
            symbol,
        )),
        targets is AllEtfs ==> (targets.spec_contains(market, symbol) <==> spec_is_etf(
            market,
            symbol,
        )),
        targets is AllStocksAndEtfs ==> (targets.spec_contains(market, symbol) <==> spec_is_stock(
            market,
            symbol,
        ) || spec_is_etf(market, symbol)),
        targets matches TargetUniverse::Symbols(symbols) ==> (targets.spec_contains(market, symbol)
            <==> exists|i: int| 0 <= i < symbols@.len() && (#[trigger] symbols@[i])@ == symbol),
        spec_is_supported(market, symbol) <==> spec_is_stock(market, symbol) || spec_is_etf(
            market,
            symbol,
        ),
{
}

/// Whether an execution names a pending order: on the same channel, of the same instrument,
/// with the number of the order on the side of the order.
pub open spec fn answers(pending: PendingOrder, execution: SzExecutionRow) -> bool {
    &&& execution.channel == pending.order.channel
    &&& execution.symbol@ == pending.order.symbol@
    &&& pending.order.side == SzSide::Buy ==> execution.bid_order_no == pending.order.sequence
    &&& pending.order.side == SzSide::Sell ==> execution.ask_order_no == pending.order.sequence
}

/// A response is taken exactly where it names the order, follows the row before without a gap,
/// has the quote time of the order, and moves what is left of the order or a part of it: a
/// cancellation all that is left and of no other order, a trade at a positive price of an order
/// that found the other side of the book with levels. The response buffer is bounded.
pub proof fn responses_are_taken_where_they_fit(pending: PendingOrder, execution: SzExecutionRow)
    ensures
        pending.observe_complaint(execution) is None <==> {
            &&& answers(pending, execution)
            &&& execution.sequence == pending.last_sequence + 1
            &&& execution.quote_time_ns == pending.order.quote_time_ns
            &&& pending.responses != 65_536
            &&& 0 < execution.quantity <= pending.remaining
            &&& execution.kind == SzExecutionKind::Cancel ==> {
                &&& execution.quantity == pending.remaining
                &&& pending.order.side == SzSide::Buy ==> execution.ask_order_no == 0
                &&& pending.order.side == SzSide::Sell ==> execution.bid_order_no == 0
            }
            &&& execution.kind == SzExecutionKind::Trade ==> {
                &&& pending.order.kind != SzOrderKind::SameSideBest
                &&& pending.initial_best is Some
                &&& execution.price_units > 0
            }
        },
        pending.observe_complaint(execution) is None ==> {
            let after = pending.observe_next(execution);
            &&& after.remaining == pending.remaining - execution.quantity
            &&& after.last_sequence == execution.sequence
            &&& pending.responses < usize::MAX ==> after.responses == pending.responses + 1
            &&& after.initial_best == pending.initial_best
            &&& after.order == pending.order
            &&& execution.kind == SzExecutionKind::Cancel ==> after.remaining == 0
                && after.first_trade_price == pending.first_trade_price && after.multiple_prices
                == pending.multiple_prices
            &&& execution.kind == SzExecutionKind::Trade ==> {
                &&& pending.first_trade_price is None ==> after.first_trade_price == Some(
                    execution.price_units,
                ) && after.multiple_prices == pending.multiple_prices
                &&& pending.first_trade_price matches Some(first) ==> {
                    &&& after.first_trade_price == Some(first)
                    &&& after.multiple_prices <==> pending.multiple_prices || first
                        != execution.price_units
                }
            }
        },
{
}

/// An order of which nothing is left is done. What is left of one may rest only under the
/// policy that takes responses as contiguous, only for a market order, only where the next row
/// follows at once, and only where all trades were at the best price that the order found:
/// it then rests at that price.
pub proof fn remainders_rest_only_on_evidence(
    pending: PendingOrder,
    policy: SzMarketOrderPolicy,
    next_sequence: Option<u64>,
)
    ensures
        pending.remaining == 0 ==> pending.finish_complaint(policy, next_sequence) is None
            && pending.finish_disposition() == Disposition::Terminal,
        pending.remaining > 0 ==> (pending.finish_complaint(policy, next_sequence) is None <==> {
            &&& pending.order.kind != SzOrderKind::SameSideBest
            &&& policy == SzMarketOrderPolicy::AssumeContiguous
            &&& next_sequence is Some
            &&& next_sequence->0 == pending.last_sequence + 1
            &&& !pending.multiple_prices
            &&& pending.first_trade_price is Some
            &&& pending.initial_best == pending.first_trade_price
        }),
        pending.remaining > 0 && pending.finish_complaint(policy, next_sequence) is None
            ==> pending.finish_disposition() == Disposition::Rest(pending.first_trade_price->0),
{
}

/// An order begins to wait with all of its quantity, after its own sequence.
pub proof fn orders_begin_to_wait_whole(
    order: super::rows::SzOrderRow,
    initial_best: Option<i64>,
)
    ensures
        ({
            let pending = PendingOrder::spec_new(order, initial_best);
            &&& pending.order == order
            &&& pending.remaining == order.quantity
            &&& pending.last_sequence == order.sequence
            &&& pending.initial_best == initial_best
            &&& pending.first_trade_price is None
            &&& !pending.multiple_prices
            &&& pending.responses == 0
        }),
{
}

/// The snapshot times of a day are every interval after 9:15 up to 11:30, and every interval
/// after 13:00 up to 15:00, and no others.
pub proof fn snapshot_times_follow_the_sessions(
    day: TradingDay,
    schedule: SnapshotSchedule,
    time: i64,
)
    requires
        schedule.interval.spec_nanos() > 0,
        day_grid(day, schedule) is Ok,
    ensures
        ({
            let midnight = shanghai_midnight(day);
            let interval = schedule.interval.spec_nanos() as int;
            let start = (midnight + (9 * 60 + 15) * 60_000) * 1_000_000;
            let noon = (midnight + (11 * 60 + 30) * 60_000) * 1_000_000;
            let resumed = (midnight + 13 * 3_600_000) * 1_000_000;
            let close = (midnight + 15 * 3_600_000) * 1_000_000;
            day_grid(day, schedule)->Ok_0.contains(time) <==> {
                ||| start + interval <= time <= noon && (time - start) % interval == 0
                ||| resumed + interval <= time <= close && (time - resumed) % interval == 0
            }
        }),
{
    let midnight = shanghai_midnight(day);
    let interval = schedule.interval.spec_nanos() as int;
    lemma_sessions(day);
    let start = (midnight + 33_300_000) * 1_000_000;
    let noon = (midnight + 41_400_000) * 1_000_000;
    let resumed = (midnight + 46_800_000) * 1_000_000;
    let close = (midnight + 54_000_000) * 1_000_000;
    let morning = session_grid(start, noon, interval);
    let afternoon = session_grid(resumed, close, interval);
    let times = day_grid(day, schedule)->Ok_0;
    assert(times == morning + afternoon);
    lemma_session_times(start, noon, interval, time as int);
    lemma_session_times(resumed, close, interval, time as int);
    if times.contains(time) {
        let i = choose|i: int| 0 <= i < times.len() && times[i] == time;
        if i < morning.len() {
            assert(morning[i] == time);
        } else {
            assert(afternoon[i - morning.len()] == time);
        }
    }
    if morning.contains(time) {
        let i = choose|i: int| 0 <= i < morning.len() && morning[i] == time;
        assert(times[i] == time);
    }
    if afternoon.contains(time) {
        let i = choose|i: int| 0 <= i < afternoon.len() && afternoon[i] == time;
        assert(times[morning.len() + i] == time);
    }
}

proof fn lemma_session_times(start: int, end: int, interval: int, time: int)
    requires
        interval > 0,
        i64::MIN <= start <= i64::MAX,
        i64::MIN <= end <= i64::MAX,
        i64::MIN <= time <= i64::MAX,
    ensures
        session_grid(start, end, interval).contains(time as i64) <==> start + interval <= time
            <= end && (time - start) % interval == 0,
{
    let times = session_grid(start, end, interval);
    if times.contains(time as i64) {
        let i = choose|i: int| 0 <= i < times.len() && times[i] == time as i64;
        let n = (end - start) / interval;
        assert((i + 1) * interval <= end - start && (i + 1) * interval >= interval)
            by (nonlinear_arith)
            requires
                0 <= i < n,
                n == (end - start) / interval,
                interval > 0,
        ;
        assert(time == start + (i + 1) * interval);
        let k = i + 1;
        assert((k * interval) % interval == 0) by (nonlinear_arith)
            requires
                interval > 0,
        ;
    }
    if start + interval <= time <= end && (time - start) % interval == 0 {
        let k = (time - start) / interval;
        let n = (end - start) / interval;
        assert(1 <= k <= n && time - start == k * interval) by (nonlinear_arith)
            requires
                interval > 0,
                interval <= time - start <= end - start,
                (time - start) % interval == 0,
                k == (time - start) / interval,
                n == (end - start) / interval,
        ;
        assert(times[k - 1] == (start + k * interval) as i64);
    }
}

/// A schedule is accepted where its interval is positive and fits, and its depth is positive.
pub proof fn schedules_are_positive(interval: Duration, depth: usize)
    ensures
        SnapshotSchedule::spec_error(interval, depth) is None <==> 0 < interval.spec_nanos()
            <= i64::MAX && depth > 0,
{
}

/// A request is valid where its batches are not empty, its named instruments are there and
/// supported, and a policy for Shenzhen market orders is given in Shenzhen only. A request that
/// is not valid has a complaint, a valid one has none.
pub proof fn requests_are_checked(request: MarketDayRequest, text: Seq<char>)
    ensures
        request.spec_valid() <==> {
            &&& request.batch_size > 0
            &&& request.market == Market::Szse || request.sz_market_order_policy
                == SzMarketOrderPolicy::RequireEvidence
            &&& request.targets matches TargetUniverse::Symbols(symbols) ==> symbols@.len() > 0
                && forall|i: int|
                0 <= i < symbols@.len() ==> spec_is_stock(
                    request.market,
                    (#[trigger] symbols@[i])@,
                ) || spec_is_etf(request.market, symbols@[i]@)
        },
        request.spec_valid() ==> !request.is_complaint(text),
{
}

/// The value of a decimal number is read back from its text.
pub proof fn numbers_are_read_back(n: nat)
    ensures
        nat_text(n).len() >= 1,
        digits_value(nat_text(n)) == n,
        forall|i: int| 0 <= i < nat_text(n).len() ==> '0' <= #[trigger] nat_text(n)[i] <= '9',
        n > 0 ==> nat_text(n)[0] != '0',
    decreases n,
{
    if n >= 10 {
        numbers_are_read_back(n / 10);
        let text = nat_text(n);
        let front = nat_text(n / 10);
        assert(text.drop_last() =~= front);
        assert(text.last() as u32 == 48 + n % 10);
        assert forall|i: int| 0 <= i < text.len() implies '0' <= #[trigger] text[i] <= '9' by {
            if i < front.len() {
                assert(text[i] == front[i]);
            }
        }
        assert(text[0] == front[0]);
    } else {
        let text = nat_text(n);
        assert(text.drop_last().len() == 0);
        assert(text.last() as u32 == 48 + n);
        assert(digits_value(text.drop_last()) == 0);
    }
}

/// A negative number has its sign before the text of its size.
pub proof fn signs_come_first(n: int)
    ensures
        n >= 0 ==> int_text(n) == nat_text(n as nat),
        n < 0 ==> int_text(n) == seq!['-'] + nat_text((-n) as nat),
{
    reveal_strlit("-");
    assert("-"@ =~= seq!['-']);
}

/// Trimming takes white space from both ends and nothing else.
pub proof fn trimming_takes_white_space_from_the_ends(text: Seq<char>)
    ensures
        ({
            let kept = trimmed(text);
            &&& kept.len() > 0 ==> !is_white(kept[0]) && !is_white(kept.last())
            &&& exists|from: int, to: int|
                {
                    &&& 0 <= from <= to <= text.len()
                    &&& #[trigger] text.subrange(from, to) == kept
                    &&& forall|i: int| 0 <= i < from ==> is_white(#[trigger] text[i])
                    &&& forall|i: int| to <= i < text.len() ==> is_white(#[trigger] text[i])
                }
        }),
        is_white(' ') && is_white('\t') && is_white('\n') && is_white('\r'),
        !is_white('0') && !is_white('9') && !is_white('A') && !is_white('Z') && !is_white(':')
            && !is_white('.'),
{
    lemma_trimmed_start(text);
    let front = trimmed_start(text);
    lemma_trimmed_end(front);
    let kept = trimmed(text);
    let from = text.len() - front.len();
    let to = from + kept.len();
    assert(text.subrange(from, to) =~= kept);
    assert forall|i: int| to <= i < text.len() implies is_white(#[trigger] text[i]) by {
        assert(front[i - from] == text[i]);
    }
    if kept.len() > 0 {
        assert(kept[0] == front[0]);
    }
}

proof fn lemma_trimmed_start(text: Seq<char>)
    ensures
        ({
            let kept = trimmed_start(text);
            let gone = text.len() - kept.len();
            &&& 0 <= gone
            &&& kept == text.skip(gone)
            &&& forall|i: int| 0 <= i < gone ==> is_white(#[trigger] text[i])
            &&& kept.len() > 0 ==> !is_white(kept[0])
        }),
    decreases text.len(),
{
    if text.len() > 0 && is_white(text[0]) {
        let rest = text.drop_first();
        lemma_trimmed_start(rest);
        let kept = trimmed_start(rest);
        let gone = text.len() - kept.len();
        assert(rest.skip(gone - 1) =~= text.skip(gone));
        assert forall|i: int| 0 <= i < gone implies is_white(#[trigger] text[i]) by {
            if i > 0 {
                assert(rest[i - 1] == text[i]);
            }
        }
    } else {
        assert(text.skip(0) =~= text);
    }
}

proof fn lemma_trimmed_end(text: Seq<char>)
    ensures
        ({
            let kept = trimmed_end(text);
            &&& kept.len() <= text.len()
            &&& kept == text.take(kept.len() as int)
            &&& forall|i: int| kept.len() <= i < text.len() ==> is_white(#[trigger] text[i])
            &&& kept.len() > 0 ==> !is_white(kept.last())
        }),
    decreases text.len(),
{
    if text.len() > 0 && is_white(text.last()) {
        let rest = text.drop_last();
        lemma_trimmed_end(rest);
        let kept = trimmed_end(rest);
        assert(rest.take(kept.len() as int) =~= text.take(kept.len() as int));
        assert forall|i: int| kept.len() <= i < text.len() implies is_white(#[trigger] text[i]) by {
            if i < rest.len() {
                assert(rest[i] == text[i]);
            }
        }
    } else {
        assert(text.take(text.len() as int) =~= text);
    }
}

/// What an error says begins with what went wrong and where, and ends with the particulars.
pub proof fn errors_say_what_they_hold(error: ErrorModel)
    ensures
        match error {
            ErrorModel::UnresolvedSzOrder {
                symbol,
                channel,
                order_sequence,
                last_sequence,
                detail,
            } => {
                &&& begins(
                    error.text(),
                    "unresolved Shenzhen order "@ + nat_text(order_sequence as nat) + " for "@
                        + symbol,
                )
                &&& ends(
                    error.text(),
                    " in channel "@ + nat_text(channel as nat) + " after sequence "@ + nat_text(
                        last_sequence as nat,
                    ) + ": "@ + detail,
                )
            },
            ErrorModel::InvalidField { source_row, field, detail } => {
                &&& begins(error.text(), "invalid "@ + field)
                &&& ends(
                    error.text(),
                    " at source row "@ + nat_text(source_row as nat) + ": "@ + detail,
                )
            },
            ErrorModel::InvalidRequest(detail) => {
                &&& begins(error.text(), "invalid request: "@)
                &&& ends(error.text(), detail)
            },
            ErrorModel::NonIncreasingSequence {
                market,
                channel,
                sequence_name,
                previous,
                current,
            } => {
                &&& begins(
                    error.text(),
                    "non-increasing "@ + sequence_name + " in "@ + market_text(market)
                        + " channel "@ + nat_text(channel as nat),
                )
                &&& ends(
                    error.text(),
                    ": "@ + nat_text(previous as nat) + " then "@ + nat_text(current as nat),
                )
            },
            ErrorModel::AmbiguousSequence { channel, sequence } => {
                &&& begins(
                    error.text(),
                    "ambiguous Shenzhen ApplSeqNum "@ + nat_text(sequence as nat),
                )
                &&& ends(error.text(), " in channel "@ + nat_text(channel as nat))
            },
            ErrorModel::QuoteTimeRegression { symbol, previous, current } => {
                &&& begins(error.text(), "quote time regressed for "@ + symbol)
                &&& ends(
                    error.text(),
                    ": "@ + int_text(previous as int) + " then "@ + int_text(current as int),
                )
            },
            ErrorModel::SymbolChannelConflict { symbol, first_channel, second_channel } => {
                &&& begins(error.text(), "symbol "@ + symbol)
                &&& ends(
                    error.text(),
                    " appeared in channels "@ + nat_text(first_channel as nat) + " and "@
                        + nat_text(second_channel as nat),
                )
            },
            ErrorModel::Normalize { symbol, sequence, detail } => {
                &&& begins(error.text(), "normalization failed for "@ + symbol)
                &&& ends(
                    error.text(),
                    " sequence "@ + nat_text(sequence as nat) + ": "@ + detail,
                )
            },
            ErrorModel::Apply { symbol, sequence, source } => {
                &&& begins(error.text(), "order-book apply failed for "@ + symbol)
                &&& ends(
                    error.text(),
                    " sequence "@ + nat_text(sequence as nat) + ": "@ + source.text(),
                )
            },
            ErrorModel::Validation(detail) => {
                &&& begins(error.text(), "validation failed: "@)
                &&& ends(error.text(), detail)
            },
            ErrorModel::Arithmetic(what) => {
                &&& begins(error.text(), "integer arithmetic overflow while computing "@)
                &&& ends(error.text(), what)
            },
        },
{
    let nothing = Seq::<char>::empty();
    match error {
        ErrorModel::UnresolvedSzOrder {
            symbol,
            channel,
            order_sequence,
            last_sequence,
            detail,
        } => {
            let start = "unresolved Shenzhen order "@ + nat_text(order_sequence as nat) + " for "@
                + symbol;
            let end = " in channel "@ + nat_text(channel as nat) + " after sequence "@ + nat_text(
                last_sequence as nat,
            ) + ": "@ + detail;
            assert(error.text() =~= start + end);
            lemma_ends_of_texts(start, nothing, end);
        },
        ErrorModel::InvalidField { source_row, field, detail } => {
            let start = "invalid "@ + field;
            let end = " at source row "@ + nat_text(source_row as nat) + ": "@ + detail;
            assert(error.text() =~= start + end);
            lemma_ends_of_texts(start, nothing, end);
        },
        ErrorModel::InvalidRequest(detail) => {
            lemma_ends_of_texts("invalid request: "@, nothing, detail);
        },
        ErrorModel::NonIncreasingSequence {
            market,
            channel,
            sequence_name,
            previous,
            current,
        } => {
            let start = "non-increasing "@ + sequence_name + " in "@ + market_text(market)
                + " channel "@ + nat_text(channel as nat);
            let end = ": "@ + nat_text(previous as nat) + " then "@ + nat_text(current as nat);
            assert(error.text() =~= start + end);
            lemma_ends_of_texts(start, nothing, end);
        },
        ErrorModel::AmbiguousSequence { channel, sequence } => {
            let start = "ambiguous Shenzhen ApplSeqNum "@ + nat_text(sequence as nat);
            let end = " in channel "@ + nat_text(channel as nat);
            assert(error.text() =~= start + end);
            lemma_ends_of_texts(start, nothing, end);
        },
        ErrorModel::QuoteTimeRegression { symbol, previous, current } => {
            let start = "quote time regressed for "@ + symbol;
            let end = ": "@ + int_text(previous as int) + " then "@ + int_text(current as int);
            assert(error.text() =~= start + end);
            lemma_ends_of_texts(start, nothing, end);
        },
        ErrorModel::SymbolChannelConflict { symbol, first_channel, second_channel } => {
            let start = "symbol "@ + symbol;
            let end = " appeared in channels "@ + nat_text(first_channel as nat) + " and "@
                + nat_text(second_channel as nat);
            assert(error.text() =~= start + end);
            lemma_ends_of_texts(start, nothing, end);
        },
        ErrorModel::Normalize { symbol, sequence, detail } => {
            let start = "normalization failed for "@ + symbol;
            let end = " sequence "@ + nat_text(sequence as nat) + ": "@ + detail;
            assert(error.text() =~= start + end);
            lemma_ends_of_texts(start, nothing, end);
        },
        ErrorModel::Apply { symbol, sequence, source } => {
            let start = "order-book apply failed for "@ + symbol;
            let end = " sequence "@ + nat_text(sequence as nat) + ": "@ + source.text();
            assert(error.text() =~= start + end);
            lemma_ends_of_texts(start, nothing, end);
        },
        ErrorModel::Validation(detail) => {
            lemma_ends_of_texts("validation failed: "@, nothing, detail);
        },
        ErrorModel::Arithmetic(what) => {
            lemma_ends_of_texts("integer arithmetic overflow while computing "@, nothing, what);
        },
    }
}

/// Runs begin at the first place and wherever a sequence is below the one before it, and
/// nowhere else; they are listed in order. There is at most one where the sequences never fall.
pub proof fn runs_begin_where_sequences_fall(sequences: Seq<u64>, at: int)
    ensures
        run_starts(sequences).contains(at) <==> 0 <= at < sequences.len() && (at == 0
            || sequences[at] < sequences[at - 1]),
        forall|i: int, j: int|
            0 <= i < j < run_starts(sequences).len() ==> #[trigger] run_starts(sequences)[i]
                < #[trigger] run_starts(sequences)[j],
        run_starts(sequences).len() == 0 <==> sequences.len() == 0,
        0 < at < sequences.len() && sequences[at] < sequences[at - 1] ==> run_starts(
            sequences,
        ).len() >= 2,
    decreases sequences.len(),
{
    if sequences.len() > 0 {
        let front = sequences.drop_last();
        let starts = run_starts(sequences);
        let last = sequences.len() - 1;
        runs_begin_where_sequences_fall(front, at);
        assert forall|i: int| 0 <= i < run_starts(front).len() implies #[trigger] run_starts(
            front,
        )[i] < last by {
            runs_begin_where_sequences_fall(front, run_starts(front)[i]);
            assert(run_starts(front).contains(run_starts(front)[i]));
        }
        if last == 0 || sequences[last] < sequences[last - 1] {
            assert(starts[starts.len() - 1] == last);
            if run_starts(front).contains(at) {
                let i = choose|i: int| 0 <= i < run_starts(front).len() && run_starts(front)[i] == at;
                assert(starts[i] == at);
            }
        }
        if starts.contains(at) && at != last {
            let i = choose|i: int| 0 <= i < starts.len() && starts[i] == at;
            assert(i < run_starts(front).len());
            assert(run_starts(front)[i] == at);
        }
        if 0 <= at < last {
            assert(front[at] == sequences[at]);
        }
    }
}

/// Thirty-two to a power.
pub open spec fn merged_by(passes: nat) -> nat
    decreases passes,
{
    if passes == 0 {
        1
    } else {
        32 * merged_by((passes - 1) as nat)
    }
}

/// Each pass merges thirty-two runs into one, and there are no more passes than are needed for
/// one run to be left.
pub proof fn passes_merge_thirty_two_runs(runs: nat, passes: nat)
    ensures
        merge_width(passes) == merged_by(passes),
        runs <= merged_by(passes_for(runs)),
        passes_for(runs) > 0 ==> runs > merged_by((passes_for(runs) - 1) as nat),
    decreases runs, passes,
{
    if passes > 0 {
        passes_merge_thirty_two_runs(runs, (passes - 1) as nat);
    } else if runs > 1 {
        let merged = ((runs + 31) / 32) as nat;
        passes_merge_thirty_two_runs(merged, 0);
    }
}

/// Prices are kept in units of a ten-thousandth, which is what four decimal places are.
pub proof fn units_are_ten_thousandths(units: int)
    ensures
        PRODUCTION_PRICE_MULTIPLIER == pow10(PRODUCTION_PRICE_DECIMAL_PLACES as nat),
        units * PRODUCTION_PRICE_MULTIPLIER == units * 10_000,
        PRODUCTION_PRICE_DECIMAL_PLACES == 4,
{
    reveal_with_fuel(pow10, 5);
}

/// A number is a day of the calendar where its last two digits are a day
/// of the month that the two before them name, in the year of the others.
pub proof fn days_are_spelled_by_year_month_and_day(year: int, month: int, day: int)
    requires
        0 <= year,
        0 <= month < 100,
        0 <= day < 100,
    ensures
        is_calendar_day(year * 10_000 + month * 100 + day) <==> year >= 1 && 1 <= month <= 12 && 1
            <= day <= days_in_month(year, month),
{
    let value = year * 10_000 + month * 100 + day;
    assert(value / 10_000 == year);
    assert(value / 100 == year * 100 + month);
    assert(value / 100 % 100 == month);
    assert(value % 100 == day);
}

} // verus!
