//! What the rows of reference snapshots are read as.

use vstd::prelude::*;

use crate::market_data::{pow10, Market};
use crate::text::{nat_text, trimmed};

use super::super::snapshot::SnapshotBookModel;
use super::super::time::clock_result;
use super::super::types::{spec_is_etf, spec_is_supported, TargetUniverse, ValidationAnchor};
use super::columns::{
    amount_result, level_result, limit_result, price_result, quantity_result, reference_column,
    reference_column_count, required_quantity_result, rescaled, value_at, ColumnsModel, RawKind,
    RawValue,
};
use super::candidate::ReferenceModel;
use super::loader::{LoaderModel, RawReferenceModel};
use super::reference::compact_error;
use super::window::ReferencesModel;

verus! {

/// A decimal value moves to another scale by a power of ten, to the nearest, halves up. Only a
/// negative one, or one that grows too large, has none.
pub proof fn rescaled_values_are_the_nearest(raw: i128, from: i8, to: i8)
    ensures
        raw < 0 ==> rescaled(raw, from, to) is None,
        raw >= 0 && from == to ==> rescaled(raw, from, to) == Some(raw),
        raw >= 0 && from < to ==> {
            let product = raw * pow10((to - from) as nat);
            &&& product <= i128::MAX ==> rescaled(raw, from, to) is Some && rescaled(
                raw,
                from,
                to,
            )->0 == product
            &&& product > i128::MAX ==> rescaled(raw, from, to) is None
        },
        raw >= 0 && from > to && raw + pow10((from - to) as nat) / 2 <= i128::MAX ==> {
            let step = pow10((from - to) as nat) as int;
            &&& rescaled(raw, from, to) is Some
            &&& 2 * (rescaled(raw, from, to)->0 * step - raw) <= step
            &&& 2 * (raw - rescaled(raw, from, to)->0 * step) < step
        },
{
    reveal_with_fuel(pow10, 2);
    if raw >= 0 && from == to {
        assert((raw + 1int / 2) / 1int == raw);
    }
    if raw >= 0 && from > to {
        let step = pow10((from - to) as nat) as int;
        lemma_power_is_even((from - to) as nat);
        let sum = raw + step / 2;
        let whole = sum / step;
        assert(whole * step <= sum < whole * step + step && 0 <= whole <= sum) by (nonlinear_arith)
            requires
                0 < step,
                0 <= sum,
                whole == sum / step,
        ;
    }
}

proof fn lemma_power_is_even(exponent: nat)
    ensures
        pow10(exponent) > 0,
        exponent > 0 ==> pow10(exponent) % 2 == 0,
    decreases exponent,
{
    if exponent > 0 {
        lemma_power_is_even((exponent - 1) as nat);
    }
}

/// Prices are kept in ten-thousandths: those of scale three are multiplied by ten, those of
/// scale four kept, those of scale six divided by a hundred, halves up. None and zero are no
/// price.
pub proof fn prices_are_kept_in_ten_thousandths(
    name: Seq<char>,
    raw: Option<i128>,
    row: usize,
)
    ensures
        raw is None || raw == Some(0i128) ==> price_result(name, raw, 3, row) == Ok::<
            Option<i64>,
            super::super::error::ErrorModel,
        >(None) && price_result(name, raw, 6, row) == Ok::<
            Option<i64>,
            super::super::error::ErrorModel,
        >(None),
        raw matches Some(value) ==> {
            &&& value < 0 ==> price_result(name, raw, 3, row) is Err && price_result(
                name,
                raw,
                4,
                row,
            ) is Err && price_result(name, raw, 6, row) is Err
            &&& 0 < value <= 900_000_000_000_000_000 ==> {
                &&& price_result(name, raw, 3, row) is Ok
                &&& price_result(name, raw, 3, row)->Ok_0 is Some
                &&& price_result(name, raw, 3, row)->Ok_0->0 == value * 10
                &&& price_result(name, raw, 4, row) is Ok
                &&& price_result(name, raw, 4, row)->Ok_0 is Some
                &&& price_result(name, raw, 4, row)->Ok_0->0 == value
                &&& price_result(name, raw, 6, row) is Ok
                &&& price_result(name, raw, 6, row)->Ok_0 is Some
                &&& price_result(name, raw, 6, row)->Ok_0->0 == (value + 50) / 100
            }
        },
{
    lemma_small_powers();
}

proof fn lemma_small_powers()
    ensures
        pow10(0) == 1,
        pow10(1) == 10,
        pow10(2) == 100,
{
    reveal_with_fuel(pow10, 3);
}

/// Amounts are kept in ten-thousandths: those of scale four as they are, those of scale five
/// divided by ten, halves up. A missing one is an error.
pub proof fn amounts_are_kept_in_ten_thousandths(
    name: Seq<char>,
    raw: Option<i128>,
    row: usize,
)
    ensures
        raw is None ==> amount_result(name, raw, 4, row) is Err && amount_result(name, raw, 5, row)
            is Err,
        raw matches Some(value) ==> {
            &&& value < 0 ==> amount_result(name, raw, 4, row) is Err && amount_result(
                name,
                raw,
                5,
                row,
            ) is Err
            &&& 0 <= value <= 1_000_000_000_000_000_000_000_000_000_000_000 ==> {
                &&& amount_result(name, raw, 4, row) is Ok
                &&& amount_result(name, raw, 4, row)->Ok_0 == value
                &&& amount_result(name, raw, 5, row) is Ok
                &&& amount_result(name, raw, 5, row)->Ok_0 == (value + 5) / 10
            }
        },
{
    lemma_small_powers();
    if let Some(value) = raw {
        if 0 <= value <= 1_000_000_000_000_000_000_000_000_000_000_000 {
            rescaled_values_are_the_nearest(value, 4, 4);
            assert(rescaled(value, 5, 4) == Some(((value + 5) / 10) as i128));
        }
    }
}

/// A quantity is a count as it is, a whole number that is not negative, or a decimal of scale
/// three without a fraction. Where one is required a missing one is an error.
pub proof fn quantities_are_whole(name: Seq<char>, value: RawValue, row: usize)
    ensures
        ({
            let quantity = quantity_result(name, value, row);
            let required = required_quantity_result(name, value, row);
            &&& value matches RawValue::Unsigned(Some(count)) ==> quantity is Ok && quantity->Ok_0
                == Some(count as u64) && required is Ok && required->Ok_0 == count
            &&& value matches RawValue::Signed(Some(count)) ==> {
                &&& count < 0 ==> quantity is Err && required is Err
                &&& count >= 0 ==> quantity is Ok && quantity->Ok_0 is Some && quantity->Ok_0->0
                    == count && required is Ok && required->Ok_0 == count
            }
            &&& value matches RawValue::Decimal(Some(raw)) ==> {
                &&& raw < 0 || raw as int % 1000 != 0 ==> quantity is Err && required is Err
                &&& raw >= 0 && raw as int % 1000 == 0 && raw as int / 1000 <= u64::MAX
                    ==> quantity is Ok && quantity->Ok_0 is Some && quantity->Ok_0->0 * 1000 == raw
                    && required is Ok && required->Ok_0 * 1000 == raw
            }
            &&& value == RawValue::Unsigned(None) || value == RawValue::Signed(None) || value
                == RawValue::Decimal(None) || value == RawValue::Other ==> required is Err
                && quantity is Ok && quantity->Ok_0 is None
        }),
{
}

/// A daily limit is a decimal of scale six that is a whole number of ten-thousandths.
pub proof fn limits_are_whole(name: Seq<char>, raw: Option<i128>)
    ensures
        raw is None ==> limit_result(name, raw) is Err,
        raw matches Some(value) ==> {
            &&& value as int % 100 != 0 ==> limit_result(name, raw) is Err
            &&& limit_result(name, raw) is Ok ==> limit_result(name, raw)->Ok_0 * 100 == value
            &&& value as int % 100 == 0 && -900_000_000_000_000_000 <= value
                <= 900_000_000_000_000_000 ==> limit_result(name, raw) is Ok
        },
{
}

/// A level is shown where price, quantity and number of orders are all there, is not shown
/// where all are missing or zero, and is an error where only some are.
pub proof fn levels_are_whole_or_missing(
    side: Seq<char>,
    path: Seq<char>,
    level: int,
    row: usize,
    price: Option<i64>,
    quantity: Option<u64>,
    count: Option<u64>,
)
    ensures
        ({
            let shown = level_result(side, path, level, row, price, quantity, count);
            let some_quantity = quantity is Some && quantity->0 > 0;
            let some_count = count is Some && count->0 > 0;
            &&& price is Some && some_quantity && some_count ==> {
                &&& shown is Ok
                &&& shown->Ok_0 is Some
                &&& Some(shown->Ok_0->0.price_units) == price
                &&& Some(shown->Ok_0->0.quantity) == quantity
                &&& Some(shown->Ok_0->0.order_count) == count
            }
            &&& price is None && !some_quantity && !some_count ==> shown is Ok && shown->Ok_0
                is None
            &&& shown is Err <==> !(price is Some && some_quantity && some_count) && !(price is None
                && !some_quantity && !some_count)
        }),
{
}

/// The columns of a Shanghai reference snapshot, by their names and types. Ask levels come
/// first, then bid levels, each level as price, quantity and number of orders.
pub proof fn shanghai_columns_have_these_names(level: int)
    requires
        0 <= level < 10,
    ensures
        ({
            let k = 3 * level;
            let text = nat_text((level + 1) as nat);
            let decimal = RawKind::Decimal(3);
            &&& reference_column_count(Market::Sse) == 70
            &&& reference_column(Market::Sse, k) == ("AskPrice"@ + text, decimal)
            &&& reference_column(Market::Sse, k + 1) == ("AskVolume"@ + text, decimal)
            &&& reference_column(Market::Sse, k + 2) == ("NumOrdersS"@ + text, RawKind::Unsigned)
            &&& reference_column(Market::Sse, k + 30) == ("BidPrice"@ + text, decimal)
            &&& reference_column(Market::Sse, k + 31) == ("BidVolume"@ + text, decimal)
            &&& reference_column(Market::Sse, k + 32) == ("NumOrdersB"@ + text, RawKind::Unsigned)
            &&& reference_column(Market::Sse, 60) == ("TotalBidVol"@, decimal)
            &&& reference_column(Market::Sse, 61) == ("TotalAskVol"@, decimal)
            &&& reference_column(Market::Sse, 62) == ("WAvgBidPri"@, decimal)
            &&& reference_column(Market::Sse, 63) == ("WAvgAskPri"@, decimal)
            &&& reference_column(Market::Sse, 64) == ("LastPrice"@, decimal)
            &&& reference_column(Market::Sse, 65) == ("HighPrice"@, decimal)
            &&& reference_column(Market::Sse, 66) == ("LowPrice"@, decimal)
            &&& reference_column(Market::Sse, 67) == ("TradNumber"@, RawKind::Unsigned)
            &&& reference_column(Market::Sse, 68) == ("TradVolume"@, decimal)
            &&& reference_column(Market::Sse, 69) == ("Turnover"@, RawKind::Decimal(5))
        }),
{
    reveal(reference_column);
}

/// The columns of a Shenzhen reference snapshot, by their names and types.
pub proof fn shenzhen_columns_have_these_names(level: int)
    requires
        0 <= level < 10,
    ensures
        ({
            let k = 3 * level;
            let text = nat_text((level + 1) as nat);
            let decimal = RawKind::Decimal(6);
            &&& reference_column_count(Market::Szse) == 71
            &&& reference_column(Market::Szse, k) == ("AskPrice"@ + text, decimal)
            &&& reference_column(Market::Szse, k + 1) == ("AskVolume"@ + text, RawKind::Signed)
            &&& reference_column(Market::Szse, k + 2) == ("NumOrdersS"@ + text, RawKind::Unsigned)
            &&& reference_column(Market::Szse, k + 30) == ("BidPrice"@ + text, decimal)
            &&& reference_column(Market::Szse, k + 31) == ("BidVolume"@ + text, RawKind::Signed)
            &&& reference_column(Market::Szse, k + 32) == ("NumOrdersB"@ + text, RawKind::Unsigned)
            &&& reference_column(Market::Szse, 60) == ("TotalBidQty"@, RawKind::Signed)
            &&& reference_column(Market::Szse, 61) == ("TotalOfferQty"@, RawKind::Signed)
            &&& reference_column(Market::Szse, 62) == ("WeightedAvgBidPx"@, decimal)
            &&& reference_column(Market::Szse, 63) == ("WeightedAvgOfferPx"@, decimal)
            &&& reference_column(Market::Szse, 64) == ("LastPrice"@, decimal)
            &&& reference_column(Market::Szse, 65) == ("HighPrice"@, decimal)
            &&& reference_column(Market::Szse, 66) == ("LowPrice"@, decimal)
            &&& reference_column(Market::Szse, 67) == ("TurnNum"@, RawKind::Signed)
            &&& reference_column(Market::Szse, 68) == ("Volume"@, RawKind::Signed)
            &&& reference_column(Market::Szse, 69) == ("Turnover"@, RawKind::Decimal(4))
            &&& reference_column(Market::Szse, 70) == ("PreCloPrice"@, RawKind::Decimal(4))
        }),
{
    reveal(reference_column);
}

/// The decimal scale of the prices of a market.
pub open spec fn price_scale(market: Market) -> i8 {
    match market {
        Market::Sse => 3,
        Market::Szse => 6,
    }
}

/// Whether a price is what a value says at the scale of a market.
pub open spec fn is_price_at(
    columns: ColumnsModel,
    values: Seq<RawValue>,
    k: int,
    row: usize,
    price: Option<i64>,
) -> bool {
    let value = value_at(values, columns.places[k]);
    let raw = if value is Decimal {
        value->Decimal_0
    } else {
        None
    };
    let read = price_result(reference_column(columns.market, k).0, raw, price_scale(columns.market), row);
    read is Ok && read->Ok_0 == price
}

/// Whether a quantity is what a value says.
pub open spec fn is_quantity_at(
    columns: ColumnsModel,
    values: Seq<RawValue>,
    k: int,
    row: usize,
    quantity: u64,
) -> bool {
    let value = value_at(values, columns.places[k]);
    let read = required_quantity_result(reference_column(columns.market, k).0, value, row);
    read is Ok && read->Ok_0 == quantity
}

/// A reference snapshot shows each field from the column of its name.
pub proof fn snapshots_are_read_from_their_columns(
    columns: ColumnsModel,
    path: Seq<char>,
    values: Seq<RawValue>,
    row: usize,
)
    requires
        columns.decoded(path, values, row) is Ok,
    ensures
        ({
            let shown = columns.decoded(path, values, row)->Ok_0;
            let turnover = value_at(values, columns.places[69]);
            &&& is_quantity_at(columns, values, 60, row, shown.total_bid_quantity)
            &&& is_quantity_at(columns, values, 61, row, shown.total_ask_quantity)
            &&& is_price_at(columns, values, 62, row, shown.weighted_bid_price_units)
            &&& is_price_at(columns, values, 63, row, shown.weighted_ask_price_units)
            &&& is_price_at(columns, values, 64, row, shown.last_price_units)
            &&& is_price_at(columns, values, 65, row, shown.high_price_units)
            &&& is_price_at(columns, values, 66, row, shown.low_price_units)
            &&& is_quantity_at(columns, values, 67, row, shown.trade_count)
            &&& is_quantity_at(columns, values, 68, row, shown.trade_quantity)
            &&& turnover is Decimal
            &&& turnover->Decimal_0 matches Some(raw) ==> raw
                <= 1_000_000_000_000_000_000_000_000_000_000_000 ==> shown.turnover_units
                == if columns.market == Market::Sse {
                (raw + 5) / 10
            } else {
                raw as int
            }
            &&& turnover->Decimal_0 is Some
            &&& columns.levels("Ask"@, path, values, 0, 0, row) == Ok::<
                Seq<super::super::snapshot::SnapshotLevel>,
                super::super::error::ErrorModel,
            >(shown.asks)
            &&& columns.levels("Bid"@, path, values, 30, 0, row) == Ok::<
                Seq<super::super::snapshot::SnapshotLevel>,
                super::super::error::ErrorModel,
            >(shown.bids)
        }),
{
    lemma_small_powers();
    shanghai_columns_have_these_names(0);
    shenzhen_columns_have_these_names(0);
    let raw = columns.value(values, 69);
    amounts_are_kept_in_ten_thousandths(
        "Turnover"@,
        super::columns::decimal_of(raw),
        row,
    );
}

/// The levels of a side are read from the best on: each that is there is listed, and is what
/// its three columns say.
pub proof fn levels_are_read_in_order(
    columns: ColumnsModel,
    side: Seq<char>,
    path: Seq<char>,
    values: Seq<RawValue>,
    first: int,
    index: int,
    row: usize,
)
    requires
        0 <= index < 10,
        columns.levels(side, path, values, first, index, row) is Ok,
        0 <= first,
        first + 30 <= 60,
        first % 3 == 0,
    ensures
        ({
            let shown = columns.levels(side, path, values, first, index, row)->Ok_0;
            let rest = columns.levels(side, path, values, first, index + 1, row);
            let k = first + 3 * index;
            let count = value_at(values, columns.places[k + 2]);
            &&& rest is Ok
            &&& shown == rest->Ok_0 || {
                &&& shown.len() == rest->Ok_0.len() + 1
                &&& shown.skip(1) == rest->Ok_0
                &&& is_price_at(columns, values, k, row, Some(shown[0].price_units))
                &&& is_quantity_at(columns, values, k + 1, row, shown[0].quantity)
                &&& shown[0].quantity > 0
                &&& shown[0].order_count > 0
                &&& count is Unsigned
                &&& count->Unsigned_0 is Some
                &&& count->Unsigned_0->0 == shown[0].order_count
            }
            &&& shown == rest->Ok_0 ==> is_price_at(columns, values, k, row, None)
            &&& columns.levels(side, path, values, first, 10, row)->Ok_0.len() == 0
        }),
{
    let shown = columns.levels(side, path, values, first, index, row)->Ok_0;
    let rest = columns.levels(side, path, values, first, index + 1, row);
    lemma_level_kinds(columns.market, first + 3 * index);
    if shown != rest->Ok_0 {
        assert(shown.skip(1) =~= rest->Ok_0);
    }
}

proof fn lemma_level_kinds(market: Market, k: int)
    requires
        0 <= k < 60,
        k % 3 == 0,
    ensures
        reference_column(market, k).1 == RawKind::Decimal(price_scale(market)),
{
    reveal(reference_column);
}

/// A frame of the opening and one of the close are kept one each, those of continuous trading
/// in their order.
pub proof fn references_are_kept_by_anchor(
    references: ReferencesModel,
    reference: ReferenceModel,
)
    ensures
        ({
            let opened = references.with_reference(ValidationAnchor::PreOpen, reference);
            let traded = references.with_reference(ValidationAnchor::ContinuousTrading, reference);
            let closed = references.with_reference(ValidationAnchor::MarketClose, reference);
            &&& opened.pre_open == Some(reference)
            &&& opened.continuous_trading == references.continuous_trading
            &&& opened.market_close == references.market_close
            &&& traded.pre_open == references.pre_open
            &&& traded.continuous_trading == references.continuous_trading.push(reference)
            &&& traded.market_close == references.market_close
            &&& closed.pre_open == references.pre_open
            &&& closed.continuous_trading == references.continuous_trading
            &&& closed.market_close == Some(reference)
        }),
{
}

/// A reference row changes nothing but the state of its own instrument, and nothing at all
/// where the instrument is not asked for. A frame that is taken is kept with its time and its
/// row, before any comparison; the close before is read at the Shenzhen close only.
pub proof fn reference_rows_touch_their_instrument(
    loader: LoaderModel,
    targets: TargetUniverse,
    columns: ColumnsModel,
    row: RawReferenceModel,
    batch_row: usize,
)
    requires
        loader.loaded(targets, columns, row, batch_row) is Ok,
    ensures
        ({
            let after = loader.loaded(targets, columns, row, batch_row)->Ok_0;
            let symbol = trimmed(row.symbol->0);
            let state = loader.state(symbol);
            let asked = spec_is_supported(loader.market, symbol) && targets.spec_contains(
                loader.market,
                symbol,
            );
            let time = clock_result(loader.midnight as int, row.time->0)->Ok_0;
            let decision = state.tracker.decision(
                loader.market,
                time,
                trimmed(row.status->0),
                loader.opening_start,
                loader.continuous_start,
            );
            &&& row.symbol is Some && row.time is Some && row.status is Some && row.source_row_no
                is Some
            &&& !asked ==> after == loader
            &&& asked ==> {
                &&& clock_result(loader.midnight as int, row.time->0) is Ok
                &&& after.states.contains_key(symbol)
                &&& after.states[symbol].tracker.last_position == Some((
                    time,
                    row.source_row_no->0,
                ))
                &&& after.states[symbol].tracker.last_status == Some(trimmed(row.status->0))
                &&& forall|other: Seq<char>|
                    other != symbol ==> (#[trigger] after.states.contains_key(other)
                        == loader.states.contains_key(other)) && (loader.states.contains_key(other)
                        ==> after.states[other] == loader.states[other])
                &&& decision is Err ==> after.states[symbol].references == state.references
                &&& decision is Ok ==> {
                    let kept = match decision->Ok_0 {
                        ValidationAnchor::PreOpen => after.states[symbol].references.pre_open->0,
                        ValidationAnchor::ContinuousTrading => {
                            after.states[symbol].references.continuous_trading.last()
                        },
                        ValidationAnchor::MarketClose => {
                            after.states[symbol].references.market_close->0
                        },
                    };
                    &&& kept.time_ns == time
                    &&& kept.source_row_no == row.source_row_no->0
                    &&& kept.missing_reception == row.missing_reception
                    &&& !kept.state.matched && !kept.state.finalized
                    &&& kept.state.best_differences is None
                    &&& kept.view is Some <==> kept.load_error is None
                    &&& kept.view is Some ==> columns.decoded(loader.path, row.values, batch_row)
                        == Ok::<SnapshotBookModel, super::super::error::ErrorModel>(kept.view->0)
                    &&& decision->Ok_0 != ValidationAnchor::MarketClose || loader.market
                        == Market::Sse ==> kept.pre_close_price_units is None
                }
                &&& loader.pre_open_only || loader.market == Market::Sse || spec_is_etf(
                    loader.market,
                    symbol,
                ) ==> after.states[symbol].limits == state.limits
                &&& !loader.pre_open_only && loader.market == Market::Szse && !spec_is_etf(
                    loader.market,
                    symbol,
                ) ==> after.states[symbol].limits is Some
            }
            &&& after.market == loader.market
            &&& after.opening_start == loader.opening_start
            &&& after.continuous_start == loader.continuous_start
        }),
{
}

/// The limits of a row are the value of the column of the high limit and that of the column of
/// the low limit, in this order, from six places to four; they are there only where both are.
pub proof fn limits_of_a_row_are_high_and_low(columns: ColumnsModel, values: Seq<RawValue>)
    requires
        columns.limits is Ok,
    ensures
        ({
            let (high, low) = columns.limits->Ok_0;
            let upper = value_at(values, high);
            let lower = value_at(values, low);
            columns.day_limits(values) matches Ok(limits) ==> {
                &&& upper is Decimal && upper->Decimal_0 is Some
                &&& lower is Decimal && lower->Decimal_0 is Some
                &&& limits.0 * 100 == upper->Decimal_0->0
                &&& limits.1 * 100 == lower->Decimal_0->0
            }
        }),
        ({
            let (high, low) = columns.limits->Ok_0;
            let upper = value_at(values, high);
            let lower = value_at(values, low);
            columns.day_limits(values) is Err ==> {
                ||| !(upper is Decimal) || upper->Decimal_0 is None
                ||| !(lower is Decimal) || lower->Decimal_0 is None
                ||| upper->Decimal_0->0 as int % 100 != 0
                ||| lower->Decimal_0->0 as int % 100 != 0
                ||| upper->Decimal_0->0 as int / 100 > i64::MAX
                ||| upper->Decimal_0->0 as int / 100 < i64::MIN
                ||| lower->Decimal_0->0 as int / 100 > i64::MAX
                ||| lower->Decimal_0->0 as int / 100 < i64::MIN
            }
        }),
{
}

/// Where the limits of a file could not be bound, no row tells any.
pub proof fn unbound_limits_are_told_nowhere(columns: ColumnsModel, values: Seq<RawValue>)
    requires
        columns.limits is Err,
    ensures
        columns.day_limits(values) == Err::<(i64, i64), Seq<char>>(columns.limits->Err_0),
{
}

/// The close of the day before is told in Shenzhen, by the last of its columns and with four
/// places, and not in Shanghai.
pub proof fn closes_before_are_told_in_shenzhen(
    columns: ColumnsModel,
    values: Seq<RawValue>,
    row: usize,
)
    ensures
        columns.market == Market::Sse ==> columns.previous_close(values, row) == Ok::<
            Option<i64>,
            super::super::error::ErrorModel,
        >(None),
        columns.market == Market::Szse ==> {
            let value = value_at(values, columns.places[70]);
            let raw = if value is Decimal {
                value->Decimal_0
            } else {
                None
            };
            columns.previous_close(values, row) == price_result("PreCloPrice"@, raw, 4, row)
        },
{
    shenzhen_columns_have_these_names(0);
}

/// A reference is kept where it has no more than ten levels on either side, and no level has more
/// orders than a 32-bit number counts.
pub proof fn kept_references_have_ten_levels(view: SnapshotBookModel)
    ensures
        compact_error(view) is None <==> {
            &&& view.bids.len() <= 10
            &&& view.asks.len() <= 10
            &&& forall|i: int|
                0 <= i < view.bids.len() ==> (#[trigger] view.bids[i]).order_count <= 0xffff_ffff
            &&& forall|i: int|
                0 <= i < view.asks.len() ==> (#[trigger] view.asks[i]).order_count <= 0xffff_ffff
        },
{
}

} // verus!
