//! Narrow reference-only compatibility; never changes replay or cached book values.

use vstd::prelude::*;

use crate::market_data::pow10;

verus! {

/// A turnover that agrees with its reference once it is rounded to twelve digits.
#[derive(Clone, Copy, Debug, PartialEq, Eq, Structural)]
pub struct TurnoverPrecisionAudit {
    pub actual_units: u128,
    pub reference_units: u128,
    pub quantum_units: u128,
}

/// Upper limits that were read as the mark of no limit.
#[derive(Debug, PartialEq, Eq)]
pub struct UpperLimitNormalizationAudit {
    pub records: u64,
    pub first_source: String,
    pub raw_upper_units: i64,
    pub normalized_upper_units: i64,
}

impl Clone for UpperLimitNormalizationAudit {
    fn clone(&self) -> (r: Self)
        ensures
            r == *self,
    {
        UpperLimitNormalizationAudit {
            records: self.records,
            first_source: self.first_source.clone(),
            raw_upper_units: self.raw_upper_units,
            normalized_upper_units: self.normalized_upper_units,
        }
    }
}

/// How many decimal digits a number has.
pub open spec fn digit_count(n: nat) -> nat
    decreases n,
{
    if n < 10 {
        1
    } else {
        1 + digit_count(n / 10)
    }
}

/// A number rounded to a multiple of a quantum, halves up.
pub open spec fn rounded_to(n: nat, quantum: nat) -> nat {
    ((n / quantum + if n % quantum >= quantum / 2 {
        1nat
    } else {
        0
    }) * quantum) as nat
}

/// The quantum that leaves twelve digits of a number, where it has more.
pub open spec fn twelve_digit_quantum(n: nat) -> Option<nat> {
    if digit_count(n) <= 12 {
        None
    } else {
        Some(pow10((digit_count(n) - 12) as nat))
    }
}

/// The audit of a turnover that differs from its reference only beyond twelve digits.
pub open spec fn precision_result(missing_reception: bool, expected: u128, actual: u128) -> Option<
    TurnoverPrecisionAudit,
> {
    if !missing_reception || expected == actual {
        None
    } else {
        match twelve_digit_quantum(actual as nat) {
            None => None,
            Some(quantum) => if rounded_to(actual as nat, quantum) == expected {
                Some(
                    TurnoverPrecisionAudit {
                        actual_units: actual,
                        reference_units: expected,
                        quantum_units: quantum as u128,
                    },
                )
            } else {
                None
            },
        }
    }
}

proof fn lemma_pow10_grows(a: nat, b: nat)
    requires
        a <= b,
    ensures
        0 < pow10(a) <= pow10(b),
    decreases b,
{
    if a < b {
        lemma_pow10_grows(a, (b - 1) as nat);
    } else if b > 0 {
        lemma_pow10_grows((a - 1) as nat, (b - 1) as nat);
    }
}

/// Dividing by ten as often as a number has digits beyond the first leaves one digit.
proof fn lemma_digit_count(n: nat)
    ensures
        digit_count(n) >= 1,
        pow10((digit_count(n) - 1) as nat) <= n || n == 0,
    decreases n,
{
    if n >= 10 {
        lemma_digit_count(n / 10);
    }
}

/// Multiplication by a power of ten does not change significant-digit rounding.
/// Compare the rounded reconstructed value to the *unmodified* reference value.
/// Positive amounts use round-half-up; overflow never qualifies for compatibility.
pub fn turnover_precision(missing_reception: bool, expected: u128, actual: u128) -> (r: Option<
    TurnoverPrecisionAudit,
>)
    ensures
        r == precision_result(missing_reception, expected, actual),
{
    if !missing_reception || expected == actual {
        return None;
    }
    let mut rest: u128 = actual;
    let mut digits: u32 = 1;
    let mut quantum: u128 = 1;
    proof {
        lemma_digit_count(actual as nat);
        assert(pow10(0) == 1);
        assert(actual * 1 == actual) by (nonlinear_arith);
    }
    while rest >= 10
        invariant
            1 <= digits,
            digits - 1 + digit_count(rest as nat) == digit_count(actual as nat),
            rest * pow10((digits - 1) as nat) <= actual,
            quantum == if digits <= 12 {
                1
            } else {
                pow10((digits - 12) as nat)
            },
            0 < pow10((digits - 1) as nat),
            digits <= 39,
        decreases rest,
    {
        let ghost power = pow10((digits - 1) as nat);
        proof {
            assert(pow10(digits as nat) == 10 * power);
            let tenth = rest / 10;
            assert(tenth * (10 * power) <= rest * power) by (nonlinear_arith)
                requires
                    tenth * 10 <= rest,
                    0 < power,
            ;
            assert(10 * power <= rest * power) by (nonlinear_arith)
                requires
                    10 <= rest,
                    0 < power,
            ;
            if digits >= 39 {
                lemma_pow10_grows(39, digits as nat);
                assert(pow10(39) > u128::MAX) by {
                    reveal_with_fuel(pow10, 40);
                }
            }
            if digits >= 12 {
                lemma_pow10_grows((digits + 1 - 12) as nat, (digits - 1) as nat);
                assert(pow10((digits + 1 - 12) as nat) == 10 * pow10((digits - 12) as nat));
            }
        }
        if digits >= 12 {
            assert(power <= rest * power) by (nonlinear_arith)
                requires
                    1 <= rest,
                    0 < power,
            ;
            quantum = quantum * 10;
        }
        rest = rest / 10;
        digits = digits + 1;
    }
    if digits <= 12 {
        return None;
    }
    proof {
        lemma_pow10_grows(0, (digits - 12) as nat);
        assert(pow10(0) == 1);
    }
    let whole: u128 = actual / quantum;
    let half: u128 = quantum / 2;
    let up: u128 = if actual % quantum >= half {
        1
    } else {
        0
    };
    assert(pow10((digits - 12) as nat) == 10 * pow10((digits - 13) as nat));
    assert(whole < 0xffff_ffff_ffff_ffff_ffff_ffff_ffff_ffff) by (nonlinear_arith)
        requires
            whole == actual / quantum,
            quantum >= 10,
            actual <= 0xffff_ffff_ffff_ffff_ffff_ffff_ffff_ffff,
    ;
    match (whole + up).checked_mul(quantum) {
        Some(rounded) => if rounded == expected {
            Some(
                TurnoverPrecisionAudit {
                    actual_units: actual,
                    reference_units: expected,
                    quantum_units: quantum,
                },
            )
        } else {
            None
        },
        None => None,
    }
}

} // verus!
