//! Rounding and windows that depend on the instrument only.

use vstd::prelude::*;

use crate::market_data::{Market, Side};
use crate::order_book::{OrderBook, SideModel};

use super::super::error::{ErrorModel, ProductionError};
use super::super::types::{
    is_chinext_symbol, is_etf_symbol, spec_is_chinext, spec_is_etf, ValidationAnchor,
};

verus! {

pub const REFERENCE_MILLISECOND_NS: i64 = 1_000_000;

pub const REFERENCE_SECOND_NS: i64 = 1_000_000_000;

/// The step of published prices.
pub open spec fn price_quantum(market: Market, symbol: Seq<char>) -> i64 {
    if market == Market::Szse && !spec_is_etf(market, symbol) {
        100
    } else {
        10
    }
}

#[must_use]
pub fn validation_price_quantum(market: Market, symbol: &str) -> (r: i64)
    ensures
        r == price_quantum(market, symbol@),
{
    match market {
        Market::Sse => 10,
        Market::Szse => if is_etf_symbol(market, symbol) {
            10
        } else {
            100
        },
    }
}

/// A price rounded to a multiple of a quantum: half a quantum more, cut off towards zero.
pub open spec fn quantized(quantum: int, units: int) -> int {
    let sum = units + quantum / 2;
    if sum >= 0 {
        sum / quantum * quantum
    } else {
        -(-sum / quantum * quantum)
    }
}

pub open spec fn quantized_price(quantum: i64, value: Option<i64>) -> Option<i64> {
    match value {
        Some(units) => Some(quantized(quantum as int, units as int) as i64),
        None => None,
    }
}

/// Whether a price can be rounded: the rounded price fits.
pub open spec fn quantizable(quantum: i64, value: Option<i64>) -> bool {
    value matches Some(units) ==> quantized(quantum as int, units as int) <= i64::MAX
}

proof fn lemma_cut_off(quantum: int, sum: int)
    requires
        0 < quantum,
        0 <= sum,
    ensures
        0 <= sum / quantum <= sum,
        0 <= sum / quantum * quantum <= sum,
{
    assert(0 <= sum / quantum <= sum && 0 <= sum / quantum * quantum <= sum) by (nonlinear_arith)
        requires
            0 < quantum,
            0 <= sum,
    ;
}

/// A multiple of the quantum is rounded to itself.
pub proof fn multiples_stay(quantum: int, count: int)
    requires
        0 < quantum,
        0 <= count,
    ensures
        quantized(quantum, count * quantum) == count * quantum,
{
    let half = quantum / 2;
    assert((count * quantum + half) / quantum == count && 0 <= count * quantum) by (nonlinear_arith)
        requires
            0 < quantum,
            0 <= count,
            0 <= half < quantum,
    ;
}

pub fn quantize_validation_price(quantum: i64, value: Option<i64>) -> (r: Option<i64>)
    requires
        0 < quantum,
        quantizable(quantum, value),
    ensures
        r == quantized_price(quantum, value),
{
    match value {
        Some(units) => {
            let step: i128 = quantum as i128;
            let sum: i128 = units as i128 + step / 2;
            if sum >= 0 {
                proof {
                    lemma_cut_off(step as int, sum as int);
                }
                Some((sum / step * step) as i64)
            } else {
                proof {
                    lemma_cut_off(step as int, -sum);
                }
                let size: i128 = -sum;
                Some((-(size / step * step)) as i64)
            }
        },
        None => None,
    }
}

pub fn validation_price(market: Market, symbol: &str, value: Option<i64>) -> (r: Option<i64>)
    requires
        quantizable(price_quantum(market, symbol@), value),
    ensures
        r == quantized_price(price_quantum(market, symbol@), value),
{
    quantize_validation_price(validation_price_quantum(market, symbol), value)
}

/// A weighted sum divided by its weight, rounded to a multiple of a quantum, halves up.
pub open spec fn weighted_average(weighted: int, total: int, quantum: int) -> int {
    (weighted + total * quantum / 2) / (total * quantum) * quantum
}

/// Why a weighted average cannot be computed.
pub open spec fn average_error(weighted: int, total: int, quantum: int) -> Option<ErrorModel> {
    if total * quantum > u128::MAX {
        Some(ErrorModel::Arithmetic("published weighted divisor"@))
    } else if weighted + total * quantum / 2 > u128::MAX {
        Some(ErrorModel::Arithmetic("published weighted rounding"@))
    } else if weighted_average(weighted, total, quantum) > u128::MAX {
        Some(ErrorModel::Arithmetic("published weighted units"@))
    } else {
        None
    }
}

pub fn round_weighted_to_quantum(weighted: u128, total: u128, quantum: u128) -> (r: Result<
    u128,
    ProductionError,
>)
    requires
        0 < total,
        0 < quantum,
    ensures
        match average_error(weighted as int, total as int, quantum as int) {
            Some(error) => r is Err && r->Err_0@ == error,
            None => r is Ok && r->Ok_0 == weighted_average(
                weighted as int,
                total as int,
                quantum as int,
            ),
        },
{
    let divisor: u128 = match total.checked_mul(quantum) {
        Some(divisor) => divisor,
        None => return Err(ProductionError::Arithmetic("published weighted divisor")),
    };
    assert(divisor > 0) by (nonlinear_arith)
        requires
            divisor == total * quantum,
            0 < total,
            0 < quantum,
    ;
    let sum: u128 = match weighted.checked_add(divisor / 2) {
        Some(sum) => sum,
        None => return Err(ProductionError::Arithmetic("published weighted rounding")),
    };
    match (sum / divisor).checked_mul(quantum) {
        Some(units) => Ok(units),
        None => Err(ProductionError::Arithmetic("published weighted units")),
    }
}

/// The published average price of a side, or why there is none to publish.
pub open spec fn published_price(side: SideModel, quantum: int) -> Result<Option<i64>, ErrorModel> {
    let average = weighted_average(side.weighted_price_quantity, side.total_quantity, quantum);
    if side.total_quantity == 0 {
        Ok(None)
    } else if quantum < 0 {
        Err(ErrorModel::Arithmetic("published weighted quantum"@))
    } else if average > i64::MAX {
        Err(ErrorModel::Arithmetic("published weighted conversion"@))
    } else {
        Ok(Some(average as i64))
    }
}

pub(crate) proof fn lemma_average_fits(weighted: int, total: int, quantum: int)
    requires
        0 < total <= u64::MAX,
        0 < quantum <= i64::MAX,
        0 <= weighted <= i64::MAX * total,
    ensures
        average_error(weighted, total, quantum) is None,
        0 <= weighted_average(weighted, total, quantum) <= i64::MAX + quantum,
{
    let divisor = total * quantum;
    assert(0 < divisor <= 0x7fff_ffff_ffff_ffff * 0xffff_ffff_ffff_ffff) by (nonlinear_arith)
        requires
            divisor == total * quantum,
            0 < total <= 0xffff_ffff_ffff_ffff,
            0 < quantum <= 0x7fff_ffff_ffff_ffff,
    ;
    assert(weighted <= 0x7fff_ffff_ffff_ffff * 0xffff_ffff_ffff_ffff) by (nonlinear_arith)
        requires
            weighted <= 0x7fff_ffff_ffff_ffff * total,
            0 < total <= 0xffff_ffff_ffff_ffff,
    ;
    let sum = weighted + divisor / 2;
    let count = sum / divisor;
    assert(0 <= count && count * divisor <= sum) by (nonlinear_arith)
        requires
            0 < divisor,
            0 <= sum,
            count == sum / divisor,
    ;
    assert(count * quantum * total == count * divisor) by (nonlinear_arith)
        requires
            divisor == total * quantum,
    ;
    assert(divisor / 2 <= quantum * total) by (nonlinear_arith)
        requires
            divisor == total * quantum,
            0 < total,
            0 < quantum,
    ;
    assert(count * quantum <= 0x7fff_ffff_ffff_ffff + quantum) by (nonlinear_arith)
        requires
            count * quantum * total <= 0x7fff_ffff_ffff_ffff * total + quantum * total,
            0 < total,
    ;
    assert(0 <= count * quantum) by (nonlinear_arith)
        requires
            0 <= count,
            0 < quantum,
    ;
}

/// A published average is a multiple of the quantum, so rounding it again changes nothing.
pub proof fn published_prices_are_rounded(side: SideModel, quantum: i64)
    requires
        quantum > 0,
        side.total_quantity > 0,
        side.weighted_price_quantity >= 0,
        published_price(side, quantum as int) is Ok,
    ensures
        quantizable(quantum, published_price(side, quantum as int)->Ok_0),
        quantized_price(quantum, published_price(side, quantum as int)->Ok_0) == published_price(
            side,
            quantum as int,
        )->Ok_0,
{
    let divisor = side.total_quantity * quantum;
    let sum = side.weighted_price_quantity + divisor / 2;
    let count = sum / divisor;
    assert(divisor > 0) by (nonlinear_arith)
        requires
            divisor == side.total_quantity * quantum,
            side.total_quantity > 0,
            quantum > 0,
    ;
    assert(0 <= count) by (nonlinear_arith)
        requires
            0 < divisor,
            0 <= sum,
            count == sum / divisor,
    ;
    assert(0 <= count * quantum) by (nonlinear_arith)
        requires
            0 <= count,
            0 < quantum,
    ;
    multiples_stay(quantum as int, count);
}

pub fn published_weighted_price_with_quantum(book: &OrderBook, side: Side, quantum: i64) -> (r: Result<
    Option<i64>,
    ProductionError,
>)
    requires
        book.wf(),
        quantum != 0 || book@.side(side).total_quantity == 0,
    ensures
        match published_price(book@.side(side), quantum as int) {
            Ok(price) => r == Ok::<Option<i64>, ProductionError>(price),
            Err(error) => r is Err && r->Err_0@ == error,
        },
        book@.side(side).total_quantity >= 0,
        book@.side(side).weighted_price_quantity >= 0,
{
    let (total, weighted) = book.visible_aggregate(side);
    if total == 0 {
        return Ok(None);
    }
    if quantum < 0 {
        return Err(ProductionError::Arithmetic("published weighted quantum"));
    }
    proof {
        lemma_average_fits(weighted as int, total as int, quantum as int);
    }
    let units: u128 = match round_weighted_to_quantum(weighted, total as u128, quantum as u128) {
        Ok(units) => units,
        Err(error) => return Err(error),
    };
    if units > 0x7fff_ffff_ffff_ffff {
        Err(ProductionError::Arithmetic("published weighted conversion"))
    } else {
        Ok(Some(units as i64))
    }
}

/// The published average price of a side of a book.
pub fn published_weighted_price(book: &OrderBook, side: Side, market: Market, symbol: &str) -> (r:
    Result<Option<i64>, ProductionError>)
    requires
        book.wf(),
    ensures
        match published_price(book@.side(side), price_quantum(market, symbol@) as int) {
            Ok(price) => r == Ok::<Option<i64>, ProductionError>(price),
            Err(error) => r is Err && r->Err_0@ == error,
        },
{
    published_weighted_price_with_quantum(book, side, validation_price_quantum(market, symbol))
}

/// Milliseconds of a time in nanoseconds.
pub open spec fn millis(timestamp_ns: i64) -> i64 {
    (timestamp_ns as int / 1_000_000) as i64
}

#[must_use]
pub fn timestamp_ns_to_ms(timestamp_ns: i64) -> (r: i64)
    ensures
        r == millis(timestamp_ns),
{
    match timestamp_ns.checked_div_euclid(REFERENCE_MILLISECOND_NS) {
        Some(value) => value,
        None => 0,
    }
}

/// The name of an anchor.
pub open spec fn anchor_name(anchor: ValidationAnchor) -> Seq<char> {
    match anchor {
        ValidationAnchor::PreOpen => "pre_open"@,
        ValidationAnchor::ContinuousTrading => "continuous_trading"@,
        ValidationAnchor::MarketClose => "market_close"@,
    }
}

#[must_use]
pub fn anchor_text(anchor: ValidationAnchor) -> (r: &'static str)
    ensures
        r@ == anchor_name(anchor),
{
    match anchor {
        ValidationAnchor::PreOpen => "pre_open",
        ValidationAnchor::ContinuousTrading => "continuous_trading",
        ValidationAnchor::MarketClose => "market_close",
    }
}

/// Configuration-only values, which depend neither on the evolving order book nor on
/// reference frames.
#[derive(Clone, Copy, Debug, PartialEq, Eq, Structural)]
pub struct SymbolValidationRules {
    pub is_etf: bool,
    pub price_quantum: i64,
    pub lookahead_ns: i64,
}

impl SymbolValidationRules {
    /// The rules of an instrument. Shenzhen ETFs and ChiNext stocks have horizons of their
    /// own, unless one was asked for.
    pub open spec fn of(
        market: Market,
        symbol: Seq<char>,
        lookahead_ns: i64,
        lookahead_override: bool,
    ) -> Self {
        SymbolValidationRules {
            is_etf: spec_is_etf(market, symbol),
            price_quantum: price_quantum(market, symbol),
            lookahead_ns: if lookahead_override || market != Market::Szse {
                lookahead_ns
            } else if spec_is_etf(market, symbol) {
                1_100_000_000
            } else if spec_is_chinext(symbol) {
                3_000_000_000
            } else {
                lookahead_ns
            },
        }
    }

    pub fn new(market: Market, symbol: &str, lookahead_ns: i64, lookahead_override: bool) -> (r:
        Self)
        ensures
            r == Self::of(market, symbol@, lookahead_ns, lookahead_override),
    {
        let is_etf = is_etf_symbol(market, symbol);
        Self {
            is_etf,
            price_quantum: validation_price_quantum(market, symbol),
            lookahead_ns: if !lookahead_override && market == Market::Szse {
                if is_etf {
                    1_100 * REFERENCE_MILLISECOND_NS
                } else if is_chinext_symbol(symbol) {
                    3 * REFERENCE_SECOND_NS
                } else {
                    lookahead_ns
                }
            } else {
                lookahead_ns
            },
        }
    }
}

} // verus!
