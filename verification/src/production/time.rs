use chrono::NaiveDate;
use vstd::prelude::*;
use vstd::string::{StrSliceExecFns, StringExecFns, StringSliceAdditionalSpecFns};
use vstd::utf8::encode_utf8;

use crate::market_data::{days_in_month, QuoteTimestampNs, TradingDay};
use crate::text::{concat, nat_text, quoted, quoted_text, same_text, u64_text};

use super::duration::Duration;
use super::error::{ErrorModel, ProductionError};

verus! {

pub const NANOS_PER_MILLISECOND: i64 = 1_000_000;

pub const NANOS_PER_DAY: i64 = 86_400_000_000_000;

/// Milliseconds that Shanghai time is ahead of UTC.
pub const SHANGHAI_OFFSET_MILLIS: i64 = 28_800_000;

/// Whether a character is a decimal digit.
pub open spec fn is_digit(c: char) -> bool {
    '0' <= c <= '9'
}

/// How many characters at the front of a text are decimal digits.
pub open spec fn leading_digits(text: Seq<char>) -> nat
    decreases text.len(),
{
    if text.len() > 0 && is_digit(text[0]) {
        1 + leading_digits(text.drop_first())
    } else {
        0
    }
}

/// The number that decimal digits stand for.
pub open spec fn digits_value(digits: Seq<char>) -> nat
    decreases digits.len(),
{
    if digits.len() == 0 {
        0
    } else {
        10 * digits_value(digits.drop_last()) + (digits.last() as u32 - 48) as nat
    }
}

/// What a text says as a duration: a number and one of the units `ms`, `s` and `m`.
pub open spec fn duration_result(text: Seq<char>) -> Result<nat, ErrorModel> {
    let count = leading_digits(text) as int;
    let amount = digits_value(text.take(count));
    let unit = text.skip(count);
    if count == 0 || amount > u64::MAX {
        Err(ErrorModel::InvalidRequest("invalid duration: "@ + text))
    } else if amount == 0 {
        Err(ErrorModel::InvalidRequest("duration must be positive"@))
    } else if unit == "ms"@ {
        Ok(amount * 1_000_000)
    } else if unit == "s"@ {
        Ok(amount * 1_000_000_000)
    } else if unit == "m"@ {
        if amount * 60 > u64::MAX {
            Err(ErrorModel::Arithmetic("duration"@))
        } else {
            Ok(amount * 60_000_000_000)
        }
    } else {
        Err(ErrorModel::InvalidRequest("duration must use ms, s, or m: "@ + text))
    }
}

proof fn lemma_leading_digits(text: Seq<char>, n: int)
    requires
        0 <= n <= text.len(),
        forall|i: int| 0 <= i < n ==> is_digit(#[trigger] text[i]),
        n < text.len() ==> !is_digit(text[n]),
    ensures
        leading_digits(text) == n,
    decreases n,
{
    if n > 0 {
        let rest = text.drop_first();
        assert forall|i: int| 0 <= i < n - 1 implies is_digit(#[trigger] rest[i]) by {
            assert(rest[i] == text[i + 1]);
        }
        lemma_leading_digits(rest, n - 1);
        assert(is_digit(text[0]));
    }
}

/// Reads a duration such as `100ms`, `30s` or `1m`.
pub fn parse_duration(value: &str) -> (r: Result<Duration, ProductionError>)
    ensures
        match duration_result(value@) {
            Ok(nanos) => r is Ok && r->Ok_0.spec_nanos() == nanos,
            Err(error) => r is Err && r->Err_0@ == error,
        },
{
    let length: usize = value.unicode_len();
    let mut count: usize = 0;
    let mut amount: u64 = 0;
    let mut overflow = false;
    while count < length && value.get_char(count) >= '0' && value.get_char(count) <= '9'
        invariant
            length == value@.len(),
            count <= length,
            forall|i: int| 0 <= i < count ==> is_digit(#[trigger] value@[i]),
            overflow ==> digits_value(value@.take(count as int)) > u64::MAX,
            !overflow ==> amount == digits_value(value@.take(count as int)),
        decreases length - count,
    {
        let c = value.get_char(count);
        let digit: u64 = (c as u32 - 48) as u64;
        proof {
            let next = value@.take(count + 1);
            assert(next.drop_last() =~= value@.take(count as int));
            assert(next.last() == c);
        }
        if !overflow {
            match amount.checked_mul(10) {
                Some(shifted) => match shifted.checked_add(digit) {
                    Some(sum) => {
                        amount = sum;
                    },
                    None => {
                        overflow = true;
                    },
                },
                None => {
                    overflow = true;
                },
            }
        }
        count = count + 1;
    }
    proof {
        lemma_leading_digits(value@, count as int);
    }
    if count == 0 || overflow {
        return Err(ProductionError::InvalidRequest(concat("invalid duration: ", value)));
    }
    if amount == 0 {
        return Err(ProductionError::InvalidRequest(String::from_str("duration must be positive")));
    }
    let unit = value.substring_char(count, length);
    assert(unit@ =~= value@.skip(count as int));
    if same_text(unit, "ms") {
        Ok(Duration::from_millis(amount))
    } else if same_text(unit, "s") {
        Ok(Duration::from_secs(amount))
    } else if same_text(unit, "m") {
        match amount.checked_mul(60) {
            Some(seconds) => Ok(Duration::from_secs(seconds)),
            None => Err(ProductionError::Arithmetic("duration")),
        }
    } else {
        Err(ProductionError::InvalidRequest(concat("duration must use ms, s, or m: ", value)))
    }
}

/// Days before a year of the proleptic Gregorian calendar, counted from year 1.
pub open spec fn days_before_year(year: int) -> int {
    365 * (year - 1) + (year - 1) / 4 - (year - 1) / 100 + (year - 1) / 400
}

/// Days of a year before a month.
pub open spec fn days_before_month(year: int, month: int) -> int
    decreases month,
{
    if month <= 1 {
        0
    } else {
        days_before_month(year, month - 1) + days_in_month(year, month - 1)
    }
}

/// Days from the first of January 1970 to a calendar day.
pub open spec fn epoch_days(year: int, month: int, day: int) -> int {
    days_before_year(year) + days_before_month(year, month) + day - 1 - 719_162
}

/// Whether `chrono` has the calendar day.
pub open spec fn chrono_has_day(year: int, month: int, day: int) -> bool {
    &&& -262_143 <= year <= 262_142
    &&& 1 <= month <= 12
    &&& 1 <= day <= days_in_month(year, month)
}

/// `chrono::NaiveDate::from_ymd_opt`, then midnight of that day as UTC milliseconds by
/// `NaiveDate::and_hms_opt`, `NaiveDateTime::and_utc` and `DateTime::timestamp_millis`:
/// milliseconds since the epoch of the day's midnight, `None` where there is no such day
/// or its year is out of `chrono`'s range.
#[verifier::external_body]
pub(crate) fn utc_midnight_millis(year: i32, month: u32, day: u32) -> (r: Option<i64>)
    ensures
        r is Some <==> chrono_has_day(year as int, month as int, day as int),
        r is Some ==> r->0 == epoch_days(year as int, month as int, day as int) * 86_400_000,
{
    let midnight = NaiveDate::from_ymd_opt(year, month, day)?.and_hms_opt(0, 0, 0)?;
    Some(midnight.and_utc().timestamp_millis())
}

/// Milliseconds since the epoch at which a trading day begins in Shanghai.
pub open spec fn shanghai_midnight(day: TradingDay) -> int {
    let value = day.spec_value() as int;
    epoch_days(value / 10_000, value / 100 % 100, value % 100) * 86_400_000
        - SHANGHAI_OFFSET_MILLIS
}

/// Whether the days of a year can be converted to timestamps.
pub open spec fn has_timestamps(day: TradingDay) -> bool {
    day.spec_value() / 10_000 <= 262_142
}

/// Two decimal digits of a byte string.
pub open spec fn two_digits(b: Seq<u8>, at: int) -> int {
    (b[at] - 48) * 10 + (b[at + 1] - 48)
}

pub open spec fn is_digit_byte(b: u8) -> bool {
    48 <= b <= 57
}

/// Whether bytes have the separators of `HH:MM:SS.mmm`.
pub open spec fn is_clock_shape(b: Seq<u8>) -> bool {
    b.len() == 12 && b[2] == 58 && b[5] == 58 && b[8] == 46
}

/// Milliseconds after midnight that bytes of the shape `HH:MM:SS.mmm` stand for. Second 60
/// is a leap second.
pub open spec fn clock_millis(b: Seq<u8>) -> Option<int> {
    let hour = two_digits(b, 0);
    let minute = two_digits(b, 3);
    let second = two_digits(b, 6);
    let fraction = two_digits(b, 9) * 10 + (b[11] - 48);
    if is_digit_byte(b[0]) && is_digit_byte(b[1]) && is_digit_byte(b[3]) && is_digit_byte(b[4])
        && is_digit_byte(b[6]) && is_digit_byte(b[7]) && is_digit_byte(b[9])
        && is_digit_byte(b[10]) && is_digit_byte(b[11]) && hour < 24 && minute < 60 && second
        <= 60 {
        Some(((hour * 60 + minute) * 60 + second) * 1000 + fraction)
    } else {
        None
    }
}

/// What a text says as a time of a day that begins at given milliseconds.
pub open spec fn clock_result(midnight: int, text: Seq<char>) -> Result<i64, ErrorModel> {
    let b = encode_utf8(text);
    if !is_clock_shape(b) {
        Err(
            ErrorModel::InvalidRequest(
                "timestamp must be HH:MM:SS.mmm: "@ + quoted_text(text),
            ),
        )
    } else {
        match clock_millis(b) {
            None => Err(
                ErrorModel::InvalidRequest("invalid market timestamp: "@ + quoted_text(text)),
            ),
            Some(millis) => {
                let nanos = (midnight + millis) * NANOS_PER_MILLISECOND;
                if i64::MIN <= nanos <= i64::MAX {
                    Ok(nanos as i64)
                } else {
                    Err(ErrorModel::Arithmetic("timestamp nanoseconds"@))
                }
            },
        }
    }
}

/// What a text says as a Shanghai time of a trading day, in nanoseconds since the epoch.
pub open spec fn timestamp_result(day: TradingDay, text: Seq<char>) -> Result<i64, ErrorModel> {
    if has_timestamps(day) {
        clock_result(shanghai_midnight(day), text)
    } else {
        Err(
            ErrorModel::InvalidRequest(
                "invalid trading day: "@ + nat_text(day.spec_value() as nat),
            ),
        )
    }
}

/// Reads a Shanghai time of a trading day such as `09:30:00.010`, as nanoseconds since the
/// epoch.
pub fn parse_market_timestamp(trading_day: TradingDay, value: &str) -> (r: Result<
    i64,
    ProductionError,
>)
    ensures
        match timestamp_result(trading_day, value@) {
            Ok(nanos) => r is Ok && r->Ok_0 == nanos,
            Err(error) => r is Err && r->Err_0@ == error,
        },
{
    match MarketTimestampParser::new(trading_day) {
        Ok(parser) => parser.parse(value),
        Err(error) => Err(error),
    }
}

/// The trading-day conversion is shared by every timestamp in an input stream.
pub struct MarketTimestampParser {
    pub(crate) midnight_millis: i64,
}

proof fn lemma_days_bounded(year: int, month: int, day: int)
    requires
        0 < year <= 262_142,
        1 <= month <= 12,
        1 <= day <= 31,
    ensures
        -800_000 <= epoch_days(year, month, day) <= 100_000_000,
{
    reveal_with_fuel(days_before_month, 14);
}

impl MarketTimestampParser {
    pub open(crate) spec fn spec_midnight(self) -> i64 {
        self.midnight_millis
    }

    #[verifier::type_invariant]
    pub(crate) open spec fn inv(self) -> bool {
        -100_000_000_000_000 <= self.midnight_millis <= 10_000_000_000_000_000
    }

    pub fn new(day: TradingDay) -> (r: Result<Self, ProductionError>)
        ensures
            r is Ok <==> has_timestamps(day),
            r is Ok ==> r->Ok_0.spec_midnight() == shanghai_midnight(day),
            r is Err ==> r->Err_0@ == ErrorModel::InvalidRequest(
                "invalid trading day: "@ + nat_text(day.spec_value() as nat),
            ),
    {
        let encoded: u32 = day.as_yyyymmdd();
        let midnight = utc_midnight_millis(
            (encoded / 10_000) as i32,
            encoded / 100 % 100,
            encoded % 100,
        );
        match midnight {
            Some(millis) => {
                proof {
                    let value = encoded as int;
                    lemma_days_bounded(value / 10_000, value / 100 % 100, value % 100);
                }
                Ok(Self { midnight_millis: millis - SHANGHAI_OFFSET_MILLIS })
            },
            None => Err(
                ProductionError::InvalidRequest(
                    concat("invalid trading day: ", u64_text(encoded as u64).as_str()),
                ),
            ),
        }
    }

    pub fn parse(&self, value: &str) -> (r: Result<i64, ProductionError>)
        ensures
            match clock_result(self.spec_midnight() as int, value@) {
                Ok(nanos) => r is Ok && r->Ok_0 == nanos,
                Err(error) => r is Err && r->Err_0@ == error,
            },
    {
        proof {
            use_type_invariant(self);
        }
        let bytes = value.as_bytes();
        if bytes.len() != 12 || bytes[2] != 58 || bytes[5] != 58 || bytes[8] != 46 {
            return Err(
                ProductionError::InvalidRequest(
                    concat("timestamp must be HH:MM:SS.mmm: ", quoted(value).as_str()),
                ),
            );
        }
        let millis = match Self::clock(bytes) {
            Some(millis) => millis,
            None => return Err(
                ProductionError::InvalidRequest(
                    concat("invalid market timestamp: ", quoted(value).as_str()),
                ),
            ),
        };
        match (self.midnight_millis + millis).checked_mul(NANOS_PER_MILLISECOND) {
            Some(nanos) => Ok(nanos),
            None => Err(ProductionError::Arithmetic("timestamp nanoseconds")),
        }
    }

    fn clock(bytes: &[u8]) -> (r: Option<i64>)
        requires
            bytes@.len() == 12,
        ensures
            r is Some <==> clock_millis(bytes@) is Some,
            r is Some ==> r->0 == clock_millis(bytes@)->0 && 0 <= r->0 <= 86_500_000,
    {
        let mut at: usize = 0;
        while at < 12
            invariant
                bytes@.len() == 12,
                at <= 12,
                forall|i: int|
                    0 <= i < at && i != 2 && i != 5 && i != 8 ==> is_digit_byte(
                        #[trigger] bytes@[i],
                    ),
            decreases 12 - at,
        {
            if at != 2 && at != 5 && at != 8 && (bytes[at] < 48 || bytes[at] > 57) {
                return None;
            }
            at = at + 1;
        }
        assert(is_digit_byte(bytes@[0]) && is_digit_byte(bytes@[1]) && is_digit_byte(bytes@[3])
            && is_digit_byte(bytes@[4]) && is_digit_byte(bytes@[6]) && is_digit_byte(bytes@[7])
            && is_digit_byte(bytes@[9]) && is_digit_byte(bytes@[10]) && is_digit_byte(bytes@[11]));
        let hour: i64 = (bytes[0] - 48) as i64 * 10 + (bytes[1] - 48) as i64;
        let minute: i64 = (bytes[3] - 48) as i64 * 10 + (bytes[4] - 48) as i64;
        let second: i64 = (bytes[6] - 48) as i64 * 10 + (bytes[7] - 48) as i64;
        let fraction: i64 = ((bytes[9] - 48) as i64 * 10 + (bytes[10] - 48) as i64) * 10 + (
        bytes[11] - 48) as i64;
        if hour < 24 && minute < 60 && second <= 60 {
            Some(((hour * 60 + minute) * 60 + second) * 1000 + fraction)
        } else {
            None
        }
    }
}

/// Nanoseconds after midnight in Shanghai.
pub open spec fn spec_time_of_day(nanos: int) -> int {
    (nanos + 28_800_000_000_000) % 86_400_000_000_000
}

/// Nanoseconds after midnight in Shanghai. A timestamp within eight hours of the end of the
/// representable time has none.
pub fn time_of_day_nanos(timestamp: QuoteTimestampNs) -> (r: i64)
    requires
        timestamp.spec_nanos() <= i64::MAX - 28_800_000_000_000,
    ensures
        r == spec_time_of_day(timestamp.spec_nanos() as int),
        0 <= r < NANOS_PER_DAY,
{
    let shifted: i64 = timestamp.as_nanos() + 28_800_000_000_000;
    match shifted.checked_rem_euclid(NANOS_PER_DAY) {
        Some(remainder) => remainder,
        None => 0,
    }
}

} // verus!
