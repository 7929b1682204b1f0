//! Values of raw fields.

use vstd::prelude::*;
use vstd::string::StringExecFns;

use crate::text::{concat, i64_text, int_text, trim, trimmed};

use super::super::error::{ErrorModel, ProductionError};
use super::super::time::{clock_result, MarketTimestampParser};

verus! {

pub open spec fn invalid_field(source_row: u64, field: Seq<char>, detail: Seq<char>) -> ErrorModel {
    ErrorModel::InvalidField { source_row, field, detail }
}

pub(crate) fn invalid(source_row: u64, field: &'static str, detail: &str) -> (r: ProductionError)
    ensures
        r@ == invalid_field(source_row, field@, detail@),
{
    ProductionError::InvalidField { source_row, field, detail: String::from_str(detail) }
}

/// The text of a field, if it has one.
pub open spec fn optional_text(value: Option<String>) -> Option<Seq<char>> {
    match value {
        Some(text) => Some(text@),
        None => None,
    }
}

/// The text of a field that must have one.
pub open spec fn text_result(value: Option<Seq<char>>, source_row: u64, field: Seq<char>) -> Result<
    Seq<char>,
    ErrorModel,
> {
    if value is None || value->0.len() == 0 {
        Err(invalid_field(source_row, field, "is null or empty"@))
    } else {
        Ok(trimmed(value->0))
    }
}

pub(crate) fn required_str(value: &Option<String>, source_row: u64, field: &'static str) -> (r:
    Result<String, ProductionError>)
    ensures
        match text_result(optional_text(*value), source_row, field@) {
            Ok(text) => r is Ok && r->Ok_0@ == text,
            Err(error) => r is Err && r->Err_0@ == error,
        },
{
    match value {
        Some(text) => if text.as_str().unicode_len() == 0 {
            Err(invalid(source_row, field, "is null or empty"))
        } else {
            Ok(trim(text.as_str()))
        },
        None => Err(invalid(source_row, field, "is null or empty")),
    }
}

/// A value that must be there.
pub open spec fn value_result<T>(value: Option<T>, source_row: u64, field: Seq<char>) -> Result<
    T,
    ErrorModel,
> {
    match value {
        Some(value) => Ok(value),
        None => Err(invalid_field(source_row, field, "is null"@)),
    }
}

pub(crate) fn required<T: Copy>(value: Option<T>, source_row: u64, field: &'static str) -> (r: Result<
    T,
    ProductionError,
>)
    ensures
        match value_result(value, source_row, field@) {
            Ok(value) => r is Ok && r->Ok_0 == value,
            Err(error) => r is Err && r->Err_0@ == error,
        },
{
    match value {
        Some(value) => Ok(value),
        None => Err(invalid(source_row, field, "is null")),
    }
}

/// A value that must be there and not negative.
pub open spec fn nonnegative_result(value: Option<i64>, source_row: u64, field: Seq<char>) -> Result<
    u64,
    ErrorModel,
> {
    match value {
        None => Err(invalid_field(source_row, field, "is null"@)),
        Some(value) => if value < 0 {
            Err(
                invalid_field(
                    source_row,
                    field,
                    "must be nonnegative: "@ + int_text(value as int),
                ),
            )
        } else {
            Ok(value as u64)
        },
    }
}

pub(crate) fn nonnegative_i64(value: Option<i64>, source_row: u64, field: &'static str) -> (r: Result<
    u64,
    ProductionError,
>)
    ensures
        match nonnegative_result(value, source_row, field@) {
            Ok(value) => r is Ok && r->Ok_0 == value,
            Err(error) => r is Err && r->Err_0@ == error,
        },
{
    match value {
        None => Err(invalid(source_row, field, "is null")),
        Some(value) => if value < 0 {
            let detail = concat("must be nonnegative: ", i64_text(value).as_str());
            Err(invalid(source_row, field, detail.as_str()))
        } else {
            Ok(value as u64)
        },
    }
}

/// A value that must be there and positive.
pub open spec fn positive_result(value: Option<i64>, source_row: u64, field: Seq<char>) -> Result<
    u64,
    ErrorModel,
> {
    match nonnegative_result(value, source_row, field) {
        Err(error) => Err(error),
        Ok(value) => if value == 0 {
            Err(invalid_field(source_row, field, "must be positive"@))
        } else {
            Ok(value)
        },
    }
}

pub(crate) fn positive_i64_u64(value: Option<i64>, source_row: u64, field: &'static str) -> (r:
    Result<u64, ProductionError>)
    ensures
        match positive_result(value, source_row, field@) {
            Ok(value) => r is Ok && r->Ok_0 == value,
            Err(error) => r is Err && r->Err_0@ == error,
        },
{
    match nonnegative_i64(value, source_row, field) {
        Ok(value) => if value == 0 {
            Err(invalid(source_row, field, "must be positive"))
        } else {
            Ok(value)
        },
        Err(error) => Err(error),
    }
}

/// A 32-bit value that must be there and positive.
pub open spec fn positive_narrow_result(
    value: Option<i32>,
    source_row: u64,
    field: Seq<char>,
) -> Result<u32, ErrorModel> {
    match value {
        None => Err(invalid_field(source_row, field, "is null"@)),
        Some(value) => if value <= 0 {
            Err(invalid_field(source_row, field, "must be positive: "@ + int_text(value as int)))
        } else {
            Ok(value as u32)
        },
    }
}

pub(crate) fn positive_i32_u32(value: Option<i32>, source_row: u64, field: &'static str) -> (r:
    Result<u32, ProductionError>)
    ensures
        match positive_narrow_result(value, source_row, field@) {
            Ok(value) => r is Ok && r->Ok_0 == value,
            Err(error) => r is Err && r->Err_0@ == error,
        },
{
    match value {
        None => Err(invalid(source_row, field, "is null")),
        Some(value) => if value <= 0 {
            let detail = concat("must be positive: ", i64_text(value as i64).as_str());
            Err(invalid(source_row, field, detail.as_str()))
        } else {
            Ok(value as u32)
        },
    }
}

/// A decimal of three or four places, in units of a ten-thousandth.
pub open spec fn decimal_result(
    value: Option<i128>,
    scale: i8,
    source_row: u64,
    field: Seq<char>,
    source_scale: i8,
) -> Result<i64, ErrorModel> {
    let scaled = if source_scale == 3 {
        value->0 * 10
    } else {
        value->0 as int
    };
    if value is None {
        Err(invalid_field(source_row, field, "is null"@))
    } else if scale != source_scale {
        Err(
            invalid_field(
                source_row,
                field,
                "scale "@ + int_text(scale as int) + " does not match "@ + int_text(
                    source_scale as int,
                ),
            ),
        )
    } else if (source_scale != 3 && source_scale != 4) || scaled > i128::MAX || scaled < i128::MIN {
        Err(ErrorModel::Arithmetic("price scale conversion"@))
    } else if scaled > i64::MAX || scaled < i64::MIN {
        Err(invalid_field(source_row, field, "price does not fit i64"@))
    } else {
        Ok(scaled as i64)
    }
}

pub(crate) fn decimal_units(
    value: Option<i128>,
    scale: i8,
    source_row: u64,
    field: &'static str,
    source_scale: i8,
) -> (r: Result<i64, ProductionError>)
    ensures
        match decimal_result(value, scale, source_row, field@, source_scale) {
            Ok(units) => r is Ok && r->Ok_0 == units,
            Err(error) => r is Err && r->Err_0@ == error,
        },
{
    let value: i128 = match value {
        Some(value) => value,
        None => return Err(invalid(source_row, field, "is null")),
    };
    if scale != source_scale {
        let detail = concat(
            concat(
                concat("scale ", i64_text(scale as i64).as_str()).as_str(),
                " does not match ",
            ).as_str(),
            i64_text(source_scale as i64).as_str(),
        );
        return Err(invalid(source_row, field, detail.as_str()));
    }
    let scaled: Option<i128> = if source_scale == 3 {
        value.checked_mul(10)
    } else if source_scale == 4 {
        Some(value)
    } else {
        None
    };
    match scaled {
        None => Err(ProductionError::Arithmetic("price scale conversion")),
        Some(scaled) => if scaled > 9_223_372_036_854_775_807 || scaled
            < -9_223_372_036_854_775_808 {
            Err(invalid(source_row, field, "price does not fit i64"))
        } else {
            Ok(scaled as i64)
        },
    }
}

/// The time that a field tells.
pub open spec fn timestamp_field_result(
    midnight: int,
    value: Option<Seq<char>>,
    source_row: u64,
    field: Seq<char>,
) -> Result<i64, ErrorModel> {
    match text_result(value, source_row, field) {
        Err(error) => Err(error),
        Ok(text) => match clock_result(midnight, text) {
            Ok(nanos) => Ok(nanos),
            Err(error) => Err(invalid_field(source_row, field, error.text())),
        },
    }
}

pub(crate) fn parse_timestamp_field(
    parser: &MarketTimestampParser,
    value: &Option<String>,
    source_row: u64,
    field: &'static str,
) -> (r: Result<i64, ProductionError>)
    ensures
        match timestamp_field_result(
            parser.spec_midnight() as int,
            optional_text(*value),
            source_row,
            field@,
        ) {
            Ok(nanos) => r is Ok && r->Ok_0 == nanos,
            Err(error) => r is Err && r->Err_0@ == error,
        },
{
    let text = match required_str(value, source_row, field) {
        Ok(text) => text,
        Err(error) => return Err(error),
    };
    match parser.parse(text.as_str()) {
        Ok(nanos) => Ok(nanos),
        Err(error) => Err(invalid(source_row, field, error.message().as_str())),
    }
}

} // verus!
