//! Decoding of raw reference rows. Columns are bound once; row decoding only reads them.

use vstd::prelude::*;
use vstd::string::StringExecFns;

use crate::market_data::{pow10, Market};
use crate::text::{i128_text, int_text, nat_text, u64_text};

use super::super::error::{ErrorModel, ProductionError};
use super::super::schema::{
    column_place, column_views, find_column, Column, ColumnModel, ColumnType,
};
use super::super::snapshot::{SnapshotBookModel, SnapshotBookView, SnapshotLevel, SnapshotLevels};
use super::difference::{optional_string, optional_text};

verus! {

/// A value of a raw row, if it has one.
#[derive(Clone, Copy, Debug, PartialEq, Eq, Structural)]
pub enum RawValue {
    Decimal(Option<i128>),
    Signed(Option<i64>),
    Unsigned(Option<u32>),
    Other,
}

/// A column of references and how it is stored: a decimal with a scale, a signed quantity or
/// an unsigned count.
#[derive(Clone, Copy, Debug, PartialEq, Eq, Structural)]
pub enum RawKind {
    Decimal(i8),
    Signed,
    Unsigned,
}

impl RawKind {
    /// Whether a column of a file is stored that way.
    pub open spec fn accepts(self, kind: ColumnType) -> bool {
        match (self, kind) {
            (RawKind::Decimal(scale), ColumnType::Decimal { scale: found, .. }) => scale == found,
            (RawKind::Signed, ColumnType::Int64) => true,
            (RawKind::Unsigned, ColumnType::UInt32) => true,
            _ => false,
        }
    }

    fn accepts_type(self, kind: ColumnType) -> (r: bool)
        ensures
            r == self.accepts(kind),
    {
        match (self, kind) {
            (RawKind::Decimal(scale), ColumnType::Decimal { scale: found, .. }) => scale == found,
            (RawKind::Signed, ColumnType::Int64) => true,
            (RawKind::Unsigned, ColumnType::UInt32) => true,
            _ => false,
        }
    }
}

/// A decimal as a number of units of another scale, rounded half up. Negative decimals and
/// numbers that do not fit have none.
pub open spec fn rescaled(raw: i128, from: i8, to: i8) -> Option<i128> {
    if raw < 0 {
        None
    } else if from >= to {
        let step = pow10((from - to) as nat);
        Some(((raw + step / 2) / (step as int)) as i128)
    } else if raw * pow10((to - from) as nat) > i128::MAX {
        None
    } else {
        Some((raw * pow10((to - from) as nat)) as i128)
    }
}

proof fn lemma_power_of_ten(exponent: nat)
    requires
        exponent <= 38,
    ensures
        0 < pow10(exponent) <= pow10(38),
        pow10(38) == 100_000_000_000_000_000_000_000_000_000_000_000_000,
{
    reveal_with_fuel(pow10, 39);
    lemma_pow10_order(exponent, 38);
}

proof fn lemma_pow10_order(a: nat, b: nat)
    requires
        a <= b,
    ensures
        0 < pow10(a) <= pow10(b),
    decreases b,
{
    if a < b {
        lemma_pow10_order(a, (b - 1) as nat);
    } else if b > 0 {
        lemma_pow10_order((a - 1) as nat, (b - 1) as nat);
    }
}

fn power_of_ten(exponent: u8) -> (r: u128)
    requires
        exponent <= 38,
    ensures
        r == pow10(exponent as nat),
        r > 0,
{
    let mut r: u128 = 1;
    let mut at: u8 = 0;
    while at < exponent
        invariant
            at <= exponent <= 38,
            r == pow10(at as nat),
            r > 0,
        decreases exponent - at,
    {
        proof {
            lemma_power_of_ten((at + 1) as nat);
        }
        r = r * 10;
        at = at + 1;
    }
    proof {
        lemma_power_of_ten(exponent as nat);
    }
    r
}

/// A decimal as a number of units of another scale, rounded half up.
pub fn rescale_nonnegative_decimal(raw: i128, from: i8, to: i8) -> (r: Option<i128>)
    requires
        -38 <= from - to <= 38,
    ensures
        r == rescaled(raw, from, to),
{
    if raw < 0 {
        return None;
    }
    if from >= to {
        let step: u128 = power_of_ten((from as i16 - to as i16) as u8);
        proof {
            lemma_power_of_ten((from - to) as nat);
        }
        let sum: u128 = raw as u128 + step / 2;
        let units: u128 = sum / step;
        proof {
            lemma_rescaled_bound(raw as int, step as int);
        }
        Some(units as i128)
    } else {
        let step: u128 = power_of_ten((to as i16 - from as i16) as u8);
        match (raw as u128).checked_mul(step) {
            None => None,
            Some(units) => if units > 0x7fff_ffff_ffff_ffff_ffff_ffff_ffff_ffff {
                None
            } else {
                Some(units as i128)
            },
        }
    }
}

/// "{prefix}{name}={raw}{middle}{row}".
pub open spec fn value_text(
    prefix: Seq<char>,
    name: Seq<char>,
    raw: i128,
    middle: Seq<char>,
    row: usize,
) -> Seq<char> {
    prefix + name + "="@ + int_text(raw as int) + middle + nat_text(row as nat)
}

fn value_detail(prefix: &str, name: &str, raw: i128, middle: &str, row: usize) -> (r:
    ProductionError)
    ensures
        r@ == ErrorModel::Validation(value_text(prefix@, name@, raw, middle@, row)),
{
    let mut detail = String::from_str(prefix);
    detail.append(name);
    detail.append("=");
    detail.append(i128_text(raw).as_str());
    detail.append(middle);
    detail.append(u64_text(row as u64).as_str());
    ProductionError::Validation(detail)
}

/// A price of a reference. Null and zero are no price.
pub open spec fn price_result(name: Seq<char>, raw: Option<i128>, scale: i8, row: usize) -> Result<
    Option<i64>,
    ErrorModel,
> {
    if raw is None || raw->0 == 0 {
        Ok(None)
    } else {
        match rescaled(raw->0, scale, 4) {
            None => Err(
                ErrorModel::Validation(
                    value_text("invalid raw reference "@, name, raw->0, " at row "@, row),
                ),
            ),
            Some(units) => if units > i64::MAX {
                Err(
                    ErrorModel::Validation(
                        value_text(
                            "raw reference "@,
                            name,
                            raw->0,
                            " does not fit i64 at row "@,
                            row,
                        ),
                    ),
                )
            } else {
                Ok(Some(units as i64))
            },
        }
    }
}

pub fn decode_price(name: &str, raw: Option<i128>, scale: i8, row: usize) -> (r: Result<
    Option<i64>,
    ProductionError,
>)
    requires
        0 <= scale <= 38,
    ensures
        match price_result(name@, raw, scale, row) {
            Ok(price) => r == Ok::<Option<i64>, ProductionError>(price),
            Err(error) => r is Err && r->Err_0@ == error,
        },
{
    let value: i128 = match raw {
        None => return Ok(None),
        Some(value) => value,
    };
    if value == 0 {
        return Ok(None);
    }
    match rescale_nonnegative_decimal(value, scale, 4) {
        None => Err(value_detail("invalid raw reference ", name, value, " at row ", row)),
        Some(units) => if units > 0x7fff_ffff_ffff_ffff {
            Err(value_detail("raw reference ", name, value, " does not fit i64 at row ", row))
        } else {
            proof {
                lemma_rescaled_sign(value, scale, 4);
            }
            Ok(Some(units as i64))
        },
    }
}

proof fn lemma_rescaled_sign(raw: i128, from: i8, to: i8)
    requires
        rescaled(raw, from, to) is Some,
        -38 <= from - to <= 38,
    ensures
        rescaled(raw, from, to)->0 >= 0,
{
    if from >= to {
        let step = pow10((from - to) as nat) as int;
        lemma_power_of_ten((from - to) as nat);
        let sum = raw + step / 2;
        assert(0 <= sum / step <= sum) by (nonlinear_arith)
            requires
                step >= 1,
                sum >= 0,
        ;
        lemma_rescaled_bound(raw as int, step);
    } else {
        let step = pow10((to - from) as nat) as int;
        lemma_power_of_ten((to - from) as nat);
        assert(raw * step >= 0) by (nonlinear_arith)
            requires
                raw >= 0,
                step >= 1,
        ;
    }
}

proof fn lemma_rescaled_bound(raw: int, step: int)
    requires
        raw >= 0,
        step >= 1,
    ensures
        0 <= (raw + step / 2) / step <= raw,
{
    let sum = raw + step / 2;
    assert(0 <= sum / step && sum / step * step <= sum) by (nonlinear_arith)
        requires
            step >= 1,
            sum >= 0,
    ;
    let q = sum / step;
    if q > raw {
        assert((raw + 1) * step <= q * step) by (nonlinear_arith)
            requires
                raw + 1 <= q,
                step >= 1,
        ;
        assert((raw + 1) * step == raw * step + step) by (nonlinear_arith);
        assert(raw * step >= raw) by (nonlinear_arith)
            requires
                raw >= 0,
                step >= 1,
        ;
    }
}

/// An amount of a reference, which must be there.
pub open spec fn amount_result(name: Seq<char>, raw: Option<i128>, scale: i8, row: usize) -> Result<
    u128,
    ErrorModel,
> {
    match raw {
        None => Err(
            ErrorModel::Validation(
                "raw reference "@ + name + " is null at row "@ + nat_text(row as nat),
            ),
        ),
        Some(raw) => match rescaled(raw, scale, 4) {
            None => Err(
                ErrorModel::Validation(
                    value_text("invalid raw reference "@, name, raw, " at row "@, row),
                ),
            ),
            Some(units) => Ok(units as u128),
        },
    }
}

pub fn decode_amount(name: &str, raw: Option<i128>, scale: i8, row: usize) -> (r: Result<
    u128,
    ProductionError,
>)
    requires
        0 <= scale <= 38,
    ensures
        match amount_result(name@, raw, scale, row) {
            Ok(amount) => r == Ok::<u128, ProductionError>(amount),
            Err(error) => r is Err && r->Err_0@ == error,
        },
{
    match raw {
        None => {
            let mut detail = String::from_str("raw reference ");
            detail.append(name);
            detail.append(" is null at row ");
            detail.append(u64_text(row as u64).as_str());
            Err(ProductionError::Validation(detail))
        },
        Some(value) => match rescale_nonnegative_decimal(value, scale, 4) {
            None => Err(value_detail("invalid raw reference ", name, value, " at row ", row)),
            Some(units) => {
                proof {
                    lemma_rescaled_sign(value, scale, 4);
                }
                Ok(units as u128)
            },
        },
    }
}

/// A quantity of a reference, if it has one. Decimals have three places, and must be whole.
pub open spec fn quantity_result(name: Seq<char>, value: RawValue, row: usize) -> Result<
    Option<u64>,
    ErrorModel,
> {
    match value {
        RawValue::Unsigned(Some(count)) => Ok(Some(count as u64)),
        RawValue::Signed(Some(quantity)) => if quantity < 0 {
            Err(
                ErrorModel::Validation(
                    "reference "@ + name + " is negative at row "@ + nat_text(row as nat),
                ),
            )
        } else {
            Ok(Some(quantity as u64))
        },
        RawValue::Decimal(Some(raw)) => if raw < 0 || raw as int % 1000 != 0 {
            Err(
                ErrorModel::Validation(
                    value_text(
                        "raw reference quantity "@,
                        name,
                        raw,
                        " is not an integer at row "@,
                        row,
                    ),
                ),
            )
        } else if raw as int / 1000 > u64::MAX {
            Err(
                ErrorModel::Validation(
                    value_text(
                        "raw reference quantity "@,
                        name,
                        raw,
                        " does not fit u64 at row "@,
                        row,
                    ),
                ),
            )
        } else {
            Ok(Some((raw as int / 1000) as u64))
        },
        _ => Ok(None),
    }
}

pub fn decode_quantity(name: &str, value: RawValue, row: usize) -> (r: Result<
    Option<u64>,
    ProductionError,
>)
    ensures
        match quantity_result(name@, value, row) {
            Ok(quantity) => r == Ok::<Option<u64>, ProductionError>(quantity),
            Err(error) => r is Err && r->Err_0@ == error,
        },
{
    match value {
        RawValue::Unsigned(Some(count)) => Ok(Some(count as u64)),
        RawValue::Signed(Some(quantity)) => if quantity < 0 {
            let mut detail = String::from_str("reference ");
            detail.append(name);
            detail.append(" is negative at row ");
            detail.append(u64_text(row as u64).as_str());
            Err(ProductionError::Validation(detail))
        } else {
            Ok(Some(quantity as u64))
        },
        RawValue::Decimal(Some(raw)) => if raw < 0 || (raw as u128) % 1000 != 0 {
            Err(
                value_detail(
                    "raw reference quantity ",
                    name,
                    raw,
                    " is not an integer at row ",
                    row,
                ),
            )
        } else {
            let whole: u128 = raw as u128 / 1000;
            if whole > 0xffff_ffff_ffff_ffff {
                Err(
                    value_detail(
                        "raw reference quantity ",
                        name,
                        raw,
                        " does not fit u64 at row ",
                        row,
                    ),
                )
            } else {
                Ok(Some(whole as u64))
            }
        },
        _ => Ok(None),
    }
}

/// A quantity of a reference that must be there.
pub open spec fn required_quantity_result(name: Seq<char>, value: RawValue, row: usize) -> Result<
    u64,
    ErrorModel,
> {
    match quantity_result(name, value, row) {
        Err(error) => Err(error),
        Ok(Some(quantity)) => Ok(quantity),
        Ok(None) => Err(
            ErrorModel::Validation(
                (if value is Signed {
                    "reference "@
                } else {
                    "raw reference "@
                }) + name + " is null at row "@ + nat_text(row as nat),
            ),
        ),
    }
}

pub fn decode_required_quantity(name: &str, value: RawValue, row: usize) -> (r: Result<
    u64,
    ProductionError,
>)
    ensures
        match required_quantity_result(name@, value, row) {
            Ok(quantity) => r == Ok::<u64, ProductionError>(quantity),
            Err(error) => r is Err && r->Err_0@ == error,
        },
{
    match decode_quantity(name, value, row) {
        Err(error) => Err(error),
        Ok(Some(quantity)) => Ok(quantity),
        Ok(None) => {
            let mut detail = match value {
                RawValue::Signed(_) => String::from_str("reference "),
                _ => String::from_str("raw reference "),
            };
            detail.append(name);
            detail.append(" is null at row ");
            detail.append(u64_text(row as u64).as_str());
            Err(ProductionError::Validation(detail))
        },
    }
}

/// The levels that a side of a reference has columns for.
pub const REFERENCE_LEVELS: usize = 10;

/// The name of a column of a level.
pub open spec fn level_column(stem: Seq<char>, level: int) -> Seq<char> {
    stem + nat_text(level as nat)
}

/// The columns of references of a market, in the order in which they are read. Levels come
/// first, asks before bids, each with its price, quantity and number of orders.
#[verifier::opaque]
pub open spec fn reference_column(market: Market, k: int) -> (Seq<char>, RawKind) {
    let price = RawKind::Decimal(
        if market == Market::Sse {
            3
        } else {
            6
        },
    );
    let quantity = if market == Market::Sse {
        RawKind::Decimal(3)
    } else {
        RawKind::Signed
    };
    let level = k % 30 / 3 + 1;
    if 0 <= k < 60 {
        if k % 3 == 0 {
            (
                level_column(
                    if k < 30 {
                        "AskPrice"@
                    } else {
                        "BidPrice"@
                    },
                    level,
                ),
                price,
            )
        } else if k % 3 == 1 {
            (
                level_column(
                    if k < 30 {
                        "AskVolume"@
                    } else {
                        "BidVolume"@
                    },
                    level,
                ),
                quantity,
            )
        } else {
            (
                level_column(
                    if k < 30 {
                        "NumOrdersS"@
                    } else {
                        "NumOrdersB"@
                    },
                    level,
                ),
                RawKind::Unsigned,
            )
        }
    } else if market == Market::Sse {
        if k == TOTAL_BID {
            ("TotalBidVol"@, quantity)
        } else if k == TOTAL_ASK {
            ("TotalAskVol"@, quantity)
        } else if k == WEIGHTED_BID {
            ("WAvgBidPri"@, price)
        } else if k == WEIGHTED_ASK {
            ("WAvgAskPri"@, price)
        } else if k == LAST_PRICE {
            ("LastPrice"@, price)
        } else if k == HIGH_PRICE {
            ("HighPrice"@, price)
        } else if k == LOW_PRICE {
            ("LowPrice"@, price)
        } else if k == TRADE_COUNT {
            ("TradNumber"@, RawKind::Unsigned)
        } else if k == TRADE_QUANTITY {
            ("TradVolume"@, quantity)
        } else {
            ("Turnover"@, RawKind::Decimal(5))
        }
    } else {
        if k == TOTAL_BID {
            ("TotalBidQty"@, quantity)
        } else if k == TOTAL_ASK {
            ("TotalOfferQty"@, quantity)
        } else if k == WEIGHTED_BID {
            ("WeightedAvgBidPx"@, price)
        } else if k == WEIGHTED_ASK {
            ("WeightedAvgOfferPx"@, price)
        } else if k == LAST_PRICE {
            ("LastPrice"@, price)
        } else if k == HIGH_PRICE {
            ("HighPrice"@, price)
        } else if k == LOW_PRICE {
            ("LowPrice"@, price)
        } else if k == TRADE_COUNT {
            ("TurnNum"@, quantity)
        } else if k == TRADE_QUANTITY {
            ("Volume"@, quantity)
        } else if k == TURNOVER {
            ("Turnover"@, RawKind::Decimal(4))
        } else {
            ("PreCloPrice"@, RawKind::Decimal(4))
        }
    }
}

pub const TOTAL_BID: usize = 60;

pub const TOTAL_ASK: usize = 61;

pub const WEIGHTED_BID: usize = 62;

pub const WEIGHTED_ASK: usize = 63;

pub const LAST_PRICE: usize = 64;

pub const HIGH_PRICE: usize = 65;

pub const LOW_PRICE: usize = 66;

pub const TRADE_COUNT: usize = 67;

pub const TRADE_QUANTITY: usize = 68;

pub const TURNOVER: usize = 69;

/// Only Shenzhen references tell the closing price of the day before.
pub const PRE_CLOSE: usize = 70;

pub open spec fn reference_column_count(market: Market) -> int {
    if market == Market::Sse {
        70
    } else {
        71
    }
}

/// A column of references.
#[derive(Debug, PartialEq, Eq)]
pub struct ReferenceColumn {
    pub name: String,
    pub kind: RawKind,
}

/// The columns of references of a market.
pub open spec fn are_reference_columns(columns: Seq<ReferenceColumn>, market: Market) -> bool {
    &&& columns.len() == reference_column_count(market)
    &&& forall|k: int|
        0 <= k < columns.len() ==> (#[trigger] columns[k]).name@ == reference_column(market, k).0
            && columns[k].kind == reference_column(market, k).1
}

fn level_name(stem: &str, level: u64) -> (r: String)
    ensures
        r@ == level_column(stem@, level as int),
{
    let mut r = String::from_str(stem);
    r.append(u64_text(level).as_str());
    r
}

fn named(name: &str, kind: RawKind) -> (r: ReferenceColumn)
    ensures
        r.name@ == name@,
        r.kind == kind,
{
    ReferenceColumn { name: String::from_str(name), kind }
}

/// The kind of prices of a market.
pub open spec fn price_kind(market: Market) -> RawKind {
    RawKind::Decimal(
        if market == Market::Sse {
            3
        } else {
            6
        },
    )
}

/// The kind of quantities of a market.
pub open spec fn quantity_kind(market: Market) -> RawKind {
    if market == Market::Sse {
        RawKind::Decimal(3)
    } else {
        RawKind::Signed
    }
}

/// The three columns of a level, of which the asks come first.
proof fn lemma_level_columns(market: Market, place: int)
    requires
        0 <= place < 20,
    ensures
        ({
            let asks = place < 10;
            let level = place % 10 + 1;
            &&& reference_column(market, 3 * place) == (
                level_column(
                    if asks {
                        "AskPrice"@
                    } else {
                        "BidPrice"@
                    },
                    level,
                ),
                price_kind(market),
            )
            &&& reference_column(market, 3 * place + 1) == (
                level_column(
                    if asks {
                        "AskVolume"@
                    } else {
                        "BidVolume"@
                    },
                    level,
                ),
                quantity_kind(market),
            )
            &&& reference_column(market, 3 * place + 2) == (
                level_column(
                    if asks {
                        "NumOrdersS"@
                    } else {
                        "NumOrdersB"@
                    },
                    level,
                ),
                RawKind::Unsigned,
            )
        }),
{
    reveal(reference_column);
    assert((3 * place) % 30 / 3 == place % 10);
    assert((3 * place + 1) % 30 / 3 == place % 10);
    assert((3 * place + 2) % 30 / 3 == place % 10);
}

/// The columns of references of a market, in the order in which they are read.
#[must_use]
pub fn reference_columns(market: Market) -> (r: Vec<ReferenceColumn>)
    ensures
        are_reference_columns(r@, market),
{
    let sse = market == Market::Sse;
    let price = RawKind::Decimal(
        if sse {
            3
        } else {
            6
        },
    );
    let quantity = if sse {
        RawKind::Decimal(3)
    } else {
        RawKind::Signed
    };
    let mut r: Vec<ReferenceColumn> = Vec::new();
    let mut at: u64 = 0;
    while at < 20
        invariant
            price == price_kind(market),
            quantity == quantity_kind(market),
            at <= 20,
            r@.len() == 3 * at,
            forall|k: int|
                0 <= k < r@.len() ==> (#[trigger] r@[k]).name@ == reference_column(market, k).0
                    && r@[k].kind == reference_column(market, k).1,
        decreases 20 - at,
    {
        let asks = at < 10;
        let level: u64 = at % 10 + 1;
        proof {
            lemma_level_columns(market, at as int);
        }
        r.push(
            ReferenceColumn {
                name: level_name(
                    if asks {
                        "AskPrice"
                    } else {
                        "BidPrice"
                    },
                    level,
                ),
                kind: price,
            },
        );
        r.push(
            ReferenceColumn {
                name: level_name(
                    if asks {
                        "AskVolume"
                    } else {
                        "BidVolume"
                    },
                    level,
                ),
                kind: quantity,
            },
        );
        r.push(
            ReferenceColumn {
                name: level_name(
                    if asks {
                        "NumOrdersS"
                    } else {
                        "NumOrdersB"
                    },
                    level,
                ),
                kind: RawKind::Unsigned,
            },
        );
        at = at + 1;
    }
    proof {
        reveal(reference_column);
    }
    if sse {
        r.push(named("TotalBidVol", quantity));
        r.push(named("TotalAskVol", quantity));
        r.push(named("WAvgBidPri", price));
        r.push(named("WAvgAskPri", price));
        r.push(named("LastPrice", price));
        r.push(named("HighPrice", price));
        r.push(named("LowPrice", price));
        r.push(named("TradNumber", RawKind::Unsigned));
        r.push(named("TradVolume", quantity));
        r.push(named("Turnover", RawKind::Decimal(5)));
    } else {
        r.push(named("TotalBidQty", quantity));
        r.push(named("TotalOfferQty", quantity));
        r.push(named("WeightedAvgBidPx", price));
        r.push(named("WeightedAvgOfferPx", price));
        r.push(named("LastPrice", price));
        r.push(named("HighPrice", price));
        r.push(named("LowPrice", price));
        r.push(named("TurnNum", quantity));
        r.push(named("Volume", quantity));
        r.push(named("Turnover", RawKind::Decimal(4)));
        r.push(named("PreCloPrice", RawKind::Decimal(4)));
    }
    r
}

/// The places of the columns of a reference file.
pub struct RawSnapshotColumns {
    market: Market,
    columns: Vec<ReferenceColumn>,
    places: Vec<usize>,
    limits: Result<(usize, usize), String>,
}

/// The places of the columns of a reference file, or of its limits why there are none.
#[verifier::ext_equal]
pub struct ColumnsModel {
    pub market: Market,
    pub places: Seq<usize>,
    pub limits: Result<(usize, usize), Seq<char>>,
}

/// Where a column that is stored in a given way is, or what is wrong with it.
pub open spec fn bound_place(columns: Seq<ColumnModel>, name: Seq<char>, kind: RawKind) -> Result<
    usize,
    Seq<char>,
> {
    match column_place(columns, name) {
        None => Err("missing reference field "@ + name),
        Some(place) => if kind.accepts(columns[place].kind) {
            Ok(place as usize)
        } else {
            Err("reference field "@ + name + " has type "@ + columns[place].kind_name)
        },
    }
}

/// Where the columns from one on are, or what is wrong with the first that is not there.
pub open spec fn bound_places(columns: Seq<ColumnModel>, market: Market, k: int) -> Result<
    Seq<usize>,
    Seq<char>,
>
    decreases reference_column_count(market) - k,
{
    if k >= reference_column_count(market) {
        Ok(Seq::empty())
    } else {
        let (name, kind) = reference_column(market, k);
        match bound_place(columns, name, kind) {
            Err(detail) => Err(detail),
            Ok(place) => match bound_places(columns, market, k + 1) {
                Err(detail) => Err(detail),
                Ok(rest) => Ok(seq![place] + rest),
            },
        }
    }
}

/// Where the limits are, or what is wrong with them.
pub open spec fn bound_limits(columns: Seq<ColumnModel>) -> Result<(usize, usize), Seq<char>> {
    match bound_place(columns, "HighLimitPrice"@, RawKind::Decimal(6)) {
        Err(detail) => Err(detail),
        Ok(high) => match bound_place(columns, "LowLimitPrice"@, RawKind::Decimal(6)) {
            Err(detail) => Err(detail),
            Ok(low) => Ok((high, low)),
        },
    }
}

fn bind_place(columns: &Vec<Column>, name: &str, kind: RawKind) -> (r: Result<usize, String>)
    ensures
        match bound_place(column_views(columns@), name@, kind) {
            Ok(place) => r == Ok::<usize, String>(place),
            Err(detail) => r is Err && r->Err_0@ == detail,
        },
{
    match find_column(columns, name) {
        None => {
            let mut detail = String::from_str("missing reference field ");
            detail.append(name);
            Err(detail)
        },
        Some(place) => {
            assert(column_views(columns@)[place as int] == columns@[place as int]@);
            if kind.accepts_type(columns[place].kind) {
                Ok(place)
            } else {
                let mut detail = String::from_str("reference field ");
                detail.append(name);
                detail.append(" has type ");
                detail.append(columns[place].kind_name.as_str());
                Err(detail)
            }
        },
    }
}

pub open spec fn limits_places(limits: Result<(usize, usize), String>) -> Result<
    (usize, usize),
    Seq<char>,
> {
    match limits {
        Ok(places) => Ok(places),
        Err(detail) => Err(detail@),
    }
}

impl RawSnapshotColumns {
    pub closed spec fn model(self) -> ColumnsModel {
        ColumnsModel {
            market: self.market,
            places: self.places@,
            limits: limits_places(self.limits),
        }
    }
}

/// The value of a column of a row. A row that is too short has none.
pub open spec fn value_at(values: Seq<RawValue>, place: usize) -> RawValue {
    if place < values.len() {
        values[place as int]
    } else {
        RawValue::Other
    }
}

/// The decimal of a value, if it is one.
pub open spec fn decimal_of(value: RawValue) -> Option<i128> {
    match value {
        RawValue::Decimal(value) => value,
        _ => None,
    }
}

/// The count of a value, if it is one.
pub open spec fn count_value(value: RawValue) -> Option<u64> {
    match value {
        RawValue::Unsigned(Some(value)) => Some(value as u64),
        _ => None,
    }
}

/// The scale of a decimal column.
pub open spec fn scale_of(kind: RawKind) -> i8 {
    match kind {
        RawKind::Decimal(scale) => scale,
        _ => 0,
    }
}

impl ColumnsModel {
    /// The value of a column of a row.
    pub open spec fn value(self, values: Seq<RawValue>, k: int) -> RawValue {
        value_at(values, self.places[k])
    }

    /// A price of a row.
    pub open spec fn price(self, values: Seq<RawValue>, k: int, row: usize) -> Result<
        Option<i64>,
        ErrorModel,
    > {
        let (name, kind) = reference_column(self.market, k);
        price_result(name, decimal_of(self.value(values, k)), scale_of(kind), row)
    }

    /// An amount of a row.
    pub open spec fn amount(self, values: Seq<RawValue>, k: int, row: usize) -> Result<
        u128,
        ErrorModel,
    > {
        let (name, kind) = reference_column(self.market, k);
        amount_result(name, decimal_of(self.value(values, k)), scale_of(kind), row)
    }

    /// A quantity of a row.
    pub open spec fn quantity(self, values: Seq<RawValue>, k: int, row: usize) -> Result<
        Option<u64>,
        ErrorModel,
    > {
        quantity_result(reference_column(self.market, k).0, self.value(values, k), row)
    }

    /// A quantity of a row that must be there.
    pub open spec fn required(self, values: Seq<RawValue>, k: int, row: usize) -> Result<
        u64,
        ErrorModel,
    > {
        required_quantity_result(reference_column(self.market, k).0, self.value(values, k), row)
    }

    /// A level of a row, if it has one: all of price, quantity and number of orders are there,
    /// or none of them.
    pub open spec fn level(
        self,
        side: Seq<char>,
        path: Seq<char>,
        values: Seq<RawValue>,
        first: int,
        index: int,
        row: usize,
    ) -> Result<Option<SnapshotLevel>, ErrorModel> {
        let k = first + 3 * index;
        let price = self.price(values, k, row);
        let quantity = self.quantity(values, k + 1, row);
        let count = count_value(self.value(values, k + 2));
        if price is Err {
            Err(price->Err_0)
        } else if quantity is Err {
            Err(quantity->Err_0)
        } else {
            level_result(side, path, index + 1, row, price->Ok_0, quantity->Ok_0, count)
        }
    }

    /// The levels of a side from one on.
    pub open spec fn levels(
        self,
        side: Seq<char>,
        path: Seq<char>,
        values: Seq<RawValue>,
        first: int,
        index: int,
        row: usize,
    ) -> Result<Seq<SnapshotLevel>, ErrorModel>
        decreases 10 - index,
    {
        if index >= 10 {
            Ok(Seq::empty())
        } else {
            match self.level(side, path, values, first, index, row) {
                Err(error) => Err(error),
                Ok(level) => match self.levels(side, path, values, first, index + 1, row) {
                    Err(error) => Err(error),
                    Ok(rest) => Ok(
                        match level {
                            Some(level) => seq![level] + rest,
                            None => rest,
                        },
                    ),
                },
            }
        }
    }

    /// What a row shows of a book, or the first thing that is wrong with it.
    pub open spec fn decoded(self, path: Seq<char>, values: Seq<RawValue>, row: usize) -> Result<
        SnapshotBookModel,
        ErrorModel,
    > {
        let asks = self.levels("Ask"@, path, values, 0, 0, row);
        let bids = self.levels("Bid"@, path, values, 30, 0, row);
        let total_bid = self.required(values, TOTAL_BID as int, row);
        let weighted_bid = self.price(values, WEIGHTED_BID as int, row);
        let total_ask = self.required(values, TOTAL_ASK as int, row);
        let weighted_ask = self.price(values, WEIGHTED_ASK as int, row);
        let trade_count = self.required(values, TRADE_COUNT as int, row);
        let trade_quantity = self.required(values, TRADE_QUANTITY as int, row);
        let turnover = self.amount(values, TURNOVER as int, row);
        let last = self.price(values, LAST_PRICE as int, row);
        let high = self.price(values, HIGH_PRICE as int, row);
        let low = self.price(values, LOW_PRICE as int, row);
        if asks is Err {
            Err(asks->Err_0)
        } else if bids is Err {
            Err(bids->Err_0)
        } else if total_bid is Err {
            Err(total_bid->Err_0)
        } else if weighted_bid is Err {
            Err(weighted_bid->Err_0)
        } else if total_ask is Err {
            Err(total_ask->Err_0)
        } else if weighted_ask is Err {
            Err(weighted_ask->Err_0)
        } else if trade_count is Err {
            Err(trade_count->Err_0)
        } else if trade_quantity is Err {
            Err(trade_quantity->Err_0)
        } else if turnover is Err {
            Err(turnover->Err_0)
        } else if last is Err {
            Err(last->Err_0)
        } else if high is Err {
            Err(high->Err_0)
        } else if low is Err {
            Err(low->Err_0)
        } else {
            Ok(
                SnapshotBookModel {
                    bids: bids->Ok_0,
                    asks: asks->Ok_0,
                    total_bid_quantity: total_bid->Ok_0,
                    weighted_bid_price_units: weighted_bid->Ok_0,
                    total_ask_quantity: total_ask->Ok_0,
                    weighted_ask_price_units: weighted_ask->Ok_0,
                    last_price_units: last->Ok_0,
                    high_price_units: high->Ok_0,
                    low_price_units: low->Ok_0,
                    trade_count: trade_count->Ok_0,
                    trade_quantity: trade_quantity->Ok_0,
                    turnover_units: turnover->Ok_0,
                },
            )
        }
    }

    /// The closing price of the day before, where references tell it.
    pub open spec fn previous_close(self, values: Seq<RawValue>, row: usize) -> Result<
        Option<i64>,
        ErrorModel,
    > {
        if self.market == Market::Szse {
            self.price(values, PRE_CLOSE as int, row)
        } else {
            Ok(None)
        }
    }

    /// The limits of the day that a row tells: the high and the low price.
    pub open spec fn day_limits(self, values: Seq<RawValue>) -> Result<(i64, i64), Seq<char>> {
        match self.limits {
            Err(detail) => Err(detail),
            Ok((high, low)) => {
                let upper = limit_result("HighLimitPrice"@, decimal_of(value_at(values, high)));
                let lower = limit_result("LowLimitPrice"@, decimal_of(value_at(values, low)));
                if upper is Err {
                    Err(upper->Err_0)
                } else if lower is Err {
                    Err(lower->Err_0)
                } else {
                    Ok((upper->Ok_0, lower->Ok_0))
                }
            },
        }
    }
}

/// A limit with six places, in units of a ten-thousandth.
pub open spec fn limit_result(name: Seq<char>, raw: Option<i128>) -> Result<i64, Seq<char>> {
    if raw is None || raw->0 as int % 100 != 0 {
        Err("missing/invalid "@ + name)
    } else if raw->0 as int / 100 > i64::MAX || raw->0 as int / 100 < i64::MIN {
        Err("overflow in "@ + name)
    } else {
        Ok((raw->0 as int / 100) as i64)
    }
}

/// A count that may be missing, as a text.
pub open spec fn optional_count_text(value: Option<u64>) -> Seq<char> {
    match value {
        Some(value) => "Some("@ + nat_text(value as nat) + ")"@,
        None => "None"@,
    }
}

/// A level of a row, from its decoded values.
pub open spec fn level_result(
    side: Seq<char>,
    path: Seq<char>,
    level: int,
    row: usize,
    price: Option<i64>,
    quantity: Option<u64>,
    count: Option<u64>,
) -> Result<Option<SnapshotLevel>, ErrorModel> {
    let no_quantity = quantity is None || quantity->0 == 0;
    let no_count = count is None || count->0 == 0;
    if price is None && no_quantity && no_count {
        Ok(None)
    } else if price is Some && !no_quantity && !no_count {
        Ok(
            Some(
                SnapshotLevel {
                    price_units: price->0,
                    quantity: quantity->0,
                    order_count: count->0,
                },
            ),
        )
    } else {
        Err(
            ErrorModel::Validation(
                "inconsistent raw snapshot "@ + side + " level "@ + nat_text(level as nat) + " in "@
                    + path + " row "@ + nat_text(row as nat) + ": ("@ + optional_text(price) + ", "@
                    + optional_count_text(quantity) + ", "@ + optional_count_text(count) + ")"@,
            ),
        )
    }
}

fn append_count(text: &mut String, value: Option<u64>)
    ensures
        final(text)@ == old(text)@ + optional_count_text(value),
{
    match value {
        Some(value) => {
            let ghost before = text@;
            text.append("Some(");
            text.append(u64_text(value).as_str());
            text.append(")");
            assert(text@ =~= before + ("Some("@ + nat_text(value as nat) + ")"@));
        },
        None => text.append("None"),
    }
}

fn decode_level(
    side: &str,
    path: &str,
    level: usize,
    row: usize,
    price: Option<i64>,
    quantity: Option<u64>,
    count: Option<u64>,
) -> (r: Result<Option<SnapshotLevel>, ProductionError>)
    ensures
        match level_result(side@, path@, level as int, row, price, quantity, count) {
            Ok(level) => r == Ok::<Option<SnapshotLevel>, ProductionError>(level),
            Err(error) => r is Err && r->Err_0@ == error,
        },
{
    let some_quantity: u64 = match quantity {
        Some(quantity) => quantity,
        None => 0,
    };
    let some_count: u64 = match count {
        Some(count) => count,
        None => 0,
    };
    match price {
        None => if some_quantity == 0 && some_count == 0 {
            return Ok(None);
        },
        Some(price_units) => if some_quantity > 0 && some_count > 0 {
            return Ok(
                Some(
                    SnapshotLevel {
                        price_units,
                        quantity: some_quantity,
                        order_count: some_count,
                    },
                ),
            );
        },
    }
    let mut detail = String::from_str("inconsistent raw snapshot ");
    detail.append(side);
    detail.append(" level ");
    detail.append(u64_text(level as u64).as_str());
    detail.append(" in ");
    detail.append(path);
    detail.append(" row ");
    detail.append(u64_text(row as u64).as_str());
    detail.append(": (");
    detail.append(optional_string(price).as_str());
    detail.append(", ");
    append_count(&mut detail, quantity);
    detail.append(", ");
    append_count(&mut detail, count);
    detail.append(")");
    Err(ProductionError::Validation(detail))
}

fn read_value(values: &Vec<RawValue>, place: usize) -> (r: RawValue)
    ensures
        r == value_at(values@, place),
{
    if place < values.len() {
        values[place]
    } else {
        RawValue::Other
    }
}

fn read_decimal(values: &Vec<RawValue>, place: usize) -> (r: Option<i128>)
    ensures
        r == decimal_of(value_at(values@, place)),
{
    match read_value(values, place) {
        RawValue::Decimal(value) => value,
        _ => None,
    }
}

fn read_limit(values: &Vec<RawValue>, place: usize, name: &str) -> (r: Result<i64, String>)
    ensures
        match limit_result(name@, decimal_of(value_at(values@, place))) {
            Ok(limit) => r == Ok::<i64, String>(limit),
            Err(detail) => r is Err && r->Err_0@ == detail,
        },
{
    if let Some(raw) = read_decimal(values, place) {
        let magnitude: u128 = if raw < 0 {
            (-(raw + 1)) as u128 + 1
        } else {
            raw as u128
        };
        if magnitude % 100 == 0 {
            let whole: u128 = magnitude / 100;
            proof {
                let m = magnitude as int;
                assert(m == 100 * (m / 100));
                assert((-m) / 100 == -(m / 100) && (-m) % 100 == 0);
            }
            if raw < 0 {
                if whole > 0x8000_0000_0000_0000 {
                    return Err(overflow_detail(name));
                }
                return Ok((-(whole as i128)) as i64);
            }
            if whole > 0x7fff_ffff_ffff_ffff {
                return Err(overflow_detail(name));
            }
            return Ok(whole as i64);
        }
        proof {
            let m = magnitude as int;
            if raw < 0 {
                assert((-m) % 100 != 0) by {
                    if (-m) % 100 == 0 {
                        assert(-m == 100 * ((-m) / 100));
                        assert(m == 100 * (-((-m) / 100)));
                    }
                }
            }
        }
    }
    let mut detail = String::from_str("missing/invalid ");
    detail.append(name);
    Err(detail)
}

fn overflow_detail(name: &str) -> (r: String)
    ensures
        r@ == "overflow in "@ + name@,
{
    let mut detail = String::from_str("overflow in ");
    detail.append(name);
    detail
}

impl RawSnapshotColumns {
    /// Every column of the market has its place.
    pub closed spec fn wf(self) -> bool {
        &&& are_reference_columns(self.columns@, self.market)
        &&& self.places@.len() == reference_column_count(self.market)
    }

    /// Finds the columns of references among those of a file.
    pub fn bind(market: Market, columns: &Vec<Column>) -> (r: Result<Self, String>)
        ensures
            match bound_places(column_views(columns@), market, 0) {
                Ok(places) => {
                    &&& r is Ok
                    &&& r->Ok_0.wf()
                    &&& r->Ok_0.model() == (ColumnsModel {
                        market,
                        places,
                        limits: bound_limits(column_views(columns@)),
                    })
                },
                Err(detail) => r is Err && r->Err_0@ == detail,
            },
    {
        let required = reference_columns(market);
        let ghost all = column_views(columns@);
        let mut places: Vec<usize> = Vec::new();
        let count: usize = required.len();
        let mut at: usize = 0;
        while at < count
            invariant
                all == column_views(columns@),
                are_reference_columns(required@, market),
                count == required@.len(),
                at <= count,
                places@.len() == at,
                match bound_places(all, market, at as int) {
                    Ok(rest) => bound_places(all, market, 0) == Ok::<Seq<usize>, Seq<char>>(
                        places@ + rest,
                    ),
                    Err(detail) => bound_places(all, market, 0) == Err::<Seq<usize>, Seq<char>>(
                        detail,
                    ),
                },
            decreases count - at,
        {
            let ghost before = places@;
            match bind_place(columns, required[at].name.as_str(), required[at].kind) {
                Ok(place) => {
                    places.push(place);
                    proof {
                        if bound_places(all, market, at + 1) is Ok {
                            let rest = bound_places(all, market, at + 1)->Ok_0;
                            assert(before + (seq![place] + rest) =~= places@ + rest);
                        }
                    }
                },
                Err(detail) => return Err(detail),
            }
            at = at + 1;
        }
        assert(places@ + Seq::<usize>::empty() =~= places@);
        let limits = match bind_place(columns, "HighLimitPrice", RawKind::Decimal(6)) {
            Err(detail) => Err(detail),
            Ok(high) => match bind_place(columns, "LowLimitPrice", RawKind::Decimal(6)) {
                Err(detail) => Err(detail),
                Ok(low) => Ok((high, low)),
            },
        };
        Ok(RawSnapshotColumns { market, columns: required, places, limits })
    }

    fn price(&self, values: &Vec<RawValue>, k: usize, row: usize) -> (r: Result<
        Option<i64>,
        ProductionError,
    >)
        requires
            self.wf(),
            k < reference_column_count(self.model().market),
        ensures
            match self.model().price(values@, k as int, row) {
                Ok(price) => r == Ok::<Option<i64>, ProductionError>(price),
                Err(error) => r is Err && r->Err_0@ == error,
            },
    {
        let column = &self.columns[k];
        let scale: i8 = match column.kind {
            RawKind::Decimal(scale) => scale,
            _ => 0,
        };
        proof {
            reveal(reference_column);
        }
        decode_price(column.name.as_str(), read_decimal(values, self.places[k]), scale, row)
    }

    fn amount(&self, values: &Vec<RawValue>, k: usize, row: usize) -> (r: Result<
        u128,
        ProductionError,
    >)
        requires
            self.wf(),
            k < reference_column_count(self.model().market),
        ensures
            match self.model().amount(values@, k as int, row) {
                Ok(amount) => r == Ok::<u128, ProductionError>(amount),
                Err(error) => r is Err && r->Err_0@ == error,
            },
    {
        let column = &self.columns[k];
        let scale: i8 = match column.kind {
            RawKind::Decimal(scale) => scale,
            _ => 0,
        };
        proof {
            reveal(reference_column);
        }
        decode_amount(column.name.as_str(), read_decimal(values, self.places[k]), scale, row)
    }

    fn quantity(&self, values: &Vec<RawValue>, k: usize, row: usize) -> (r: Result<
        Option<u64>,
        ProductionError,
    >)
        requires
            self.wf(),
            k < reference_column_count(self.model().market),
        ensures
            match self.model().quantity(values@, k as int, row) {
                Ok(quantity) => r == Ok::<Option<u64>, ProductionError>(quantity),
                Err(error) => r is Err && r->Err_0@ == error,
            },
    {
        decode_quantity(
            self.columns[k].name.as_str(),
            read_value(values, self.places[k]),
            row,
        )
    }

    fn required(&self, values: &Vec<RawValue>, k: usize, row: usize) -> (r: Result<
        u64,
        ProductionError,
    >)
        requires
            self.wf(),
            k < reference_column_count(self.model().market),
        ensures
            match self.model().required(values@, k as int, row) {
                Ok(quantity) => r == Ok::<u64, ProductionError>(quantity),
                Err(error) => r is Err && r->Err_0@ == error,
            },
    {
        decode_required_quantity(
            self.columns[k].name.as_str(),
            read_value(values, self.places[k]),
            row,
        )
    }

    fn levels(&self, side: &str, path: &str, values: &Vec<RawValue>, first: usize, row: usize) -> (r:
        Result<SnapshotLevels, ProductionError>)
        requires
            self.wf(),
            first == 0 || first == 30,
        ensures
            match self.model().levels(side@, path@, values@, first as int, 0, row) {
                Ok(levels) => r is Ok && r->Ok_0@ == levels,
                Err(error) => r is Err && r->Err_0@ == error,
            },
    {
        let mut r = SnapshotLevels::new();
        let mut at: usize = 0;
        while at < REFERENCE_LEVELS
            invariant
                self.wf(),
                first == 0 || first == 30,
                at <= 10,
                match self.model().levels(side@, path@, values@, first as int, at as int, row) {
                    Ok(rest) => self.model().levels(side@, path@, values@, first as int, 0, row) == Ok::<
                        Seq<SnapshotLevel>,
                        ErrorModel,
                    >(r@ + rest),
                    Err(error) => self.model().levels(side@, path@, values@, first as int, 0, row)
                        == Err::<Seq<SnapshotLevel>, ErrorModel>(error),
                },
            decreases 10 - at,
        {
            let k: usize = first + 3 * at;
            let ghost before = r@;
            let price = match self.price(values, k, row) {
                Ok(price) => price,
                Err(error) => return Err(error),
            };
            let quantity = match self.quantity(values, k + 1, row) {
                Ok(quantity) => quantity,
                Err(error) => return Err(error),
            };
            let count: Option<u64> = match read_value(values, self.places[k + 2]) {
                RawValue::Unsigned(Some(count)) => Some(count as u64),
                _ => None,
            };
            match decode_level(side, path, at + 1, row, price, quantity, count) {
                Ok(Some(level)) => {
                    r.push(level);
                    proof {
                        let next = self.model().levels(
                            side@,
                            path@,
                            values@,
                            first as int,
                            at + 1,
                            row,
                        );
                        if next is Ok {
                            assert(before + (seq![level] + next->Ok_0) =~= r@ + next->Ok_0);
                        }
                    }
                },
                Ok(None) => {},
                Err(error) => return Err(error),
            }
            at = at + 1;
        }
        assert(r@ + Seq::<SnapshotLevel>::empty() =~= r@);
        Ok(r)
    }

    /// The closing price of the day before, where references tell it.
    pub fn pre_close(&self, values: &Vec<RawValue>, row: usize) -> (r: Result<
        Option<i64>,
        ProductionError,
    >)
        requires
            self.wf(),
        ensures
            match self.model().previous_close(values@, row) {
                Ok(price) => r == Ok::<Option<i64>, ProductionError>(price),
                Err(error) => r is Err && r->Err_0@ == error,
            },
    {
        if self.market == Market::Szse {
            self.price(values, PRE_CLOSE, row)
        } else {
            Ok(None)
        }
    }

    /// The limits of the day that a row tells.
    pub fn limits(&self, values: &Vec<RawValue>) -> (r: Result<(i64, i64), String>)
        ensures
            match self.model().day_limits(values@) {
                Ok(limits) => r == Ok::<(i64, i64), String>(limits),
                Err(detail) => r is Err && r->Err_0@ == detail,
            },
    {
        match &self.limits {
            Err(detail) => Err(detail.clone()),
            Ok(places) => {
                let high: i64 = match read_limit(values, places.0, "HighLimitPrice") {
                    Ok(limit) => limit,
                    Err(detail) => return Err(detail),
                };
                match read_limit(values, places.1, "LowLimitPrice") {
                    Ok(low) => Ok((high, low)),
                    Err(detail) => Err(detail),
                }
            },
        }
    }

    /// What a row shows of a book, or the first thing that is wrong with it.
    pub fn view(&self, path: &str, values: &Vec<RawValue>, row: usize) -> (r: Result<
        SnapshotBookView,
        ProductionError,
    >)
        requires
            self.wf(),
        ensures
            match self.model().decoded(path@, values@, row) {
                Ok(view) => r is Ok && r->Ok_0@ == view,
                Err(error) => r is Err && r->Err_0@ == error,
            },
    {
        let asks = match self.levels("Ask", path, values, 0, row) {
            Ok(levels) => levels,
            Err(error) => return Err(error),
        };
        let bids = match self.levels("Bid", path, values, 30, row) {
            Ok(levels) => levels,
            Err(error) => return Err(error),
        };
        let total_bid_quantity: u64 = match self.required(values, TOTAL_BID, row) {
            Ok(quantity) => quantity,
            Err(error) => return Err(error),
        };
        let weighted_bid_price_units = match self.price(values, WEIGHTED_BID, row) {
            Ok(price) => price,
            Err(error) => return Err(error),
        };
        let total_ask_quantity: u64 = match self.required(values, TOTAL_ASK, row) {
            Ok(quantity) => quantity,
            Err(error) => return Err(error),
        };
        let weighted_ask_price_units = match self.price(values, WEIGHTED_ASK, row) {
            Ok(price) => price,
            Err(error) => return Err(error),
        };
        let trade_count: u64 = match self.required(values, TRADE_COUNT, row) {
            Ok(quantity) => quantity,
            Err(error) => return Err(error),
        };
        let trade_quantity: u64 = match self.required(values, TRADE_QUANTITY, row) {
            Ok(quantity) => quantity,
            Err(error) => return Err(error),
        };
        let turnover_units: u128 = match self.amount(values, TURNOVER, row) {
            Ok(amount) => amount,
            Err(error) => return Err(error),
        };
        let last_price_units = match self.price(values, LAST_PRICE, row) {
            Ok(price) => price,
            Err(error) => return Err(error),
        };
        let high_price_units = match self.price(values, HIGH_PRICE, row) {
            Ok(price) => price,
            Err(error) => return Err(error),
        };
        let low_price_units = match self.price(values, LOW_PRICE, row) {
            Ok(price) => price,
            Err(error) => return Err(error),
        };
        Ok(
            SnapshotBookView {
                bids,
                asks,
                total_bid_quantity,
                weighted_bid_price_units,
                total_ask_quantity,
                weighted_ask_price_units,
                last_price_units,
                high_price_units,
                low_price_units,
                trade_count,
                trade_quantity,
                turnover_units,
            },
        )
    }
}

} // verus!
