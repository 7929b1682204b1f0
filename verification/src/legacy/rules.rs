use vstd::prelude::*;

use crate::market_data::{CrossingBehavior, QuoteTimestampNs};

verus! {

const NANOS_PER_DAY: u128 = 86_400_000_000_000;

const SHANGHAI_OFFSET_NANOS: i128 = 28_800_000_000_000;

/// Half past nine.
pub const CONTINUOUS_START_NANOS: u128 = 34_200_000_000_000;

/// Three minutes to three.
pub const CONTINUOUS_END_NANOS: u128 = 53_820_000_000_000;

/// Nanoseconds after midnight in Shanghai.
pub open spec fn shanghai_time_of_day(nanos: int) -> int {
    (nanos + 28_800_000_000_000) % 86_400_000_000_000
}

/// Historical behavior implemented by the original QTP order book.
#[derive(Clone, Copy, Debug, PartialEq, Eq, Structural)]
pub struct LegacyQtpRules;

impl LegacyQtpRules {
    /// Orders of continuous trading hide while they cross; all others rest.
    pub open spec fn spec_crossing(nanos: int) -> CrossingBehavior {
        if CONTINUOUS_START_NANOS <= shanghai_time_of_day(nanos) < CONTINUOUS_END_NANOS {
            CrossingBehavior::HideIfCrossing
        } else {
            CrossingBehavior::Rest
        }
    }

    /// The crossing behavior of the old `[09:30, 14:57)` compatibility window in
    /// Asia/Shanghai.
    #[must_use]
    pub fn crossing_behavior(quote_time: QuoteTimestampNs) -> (r: CrossingBehavior)
        ensures
            r == Self::spec_crossing(quote_time.spec_nanos() as int),
    {
        // A whole number of days keeps the time of day and makes the sum positive.
        let shift: i128 = 110_000 * 86_400_000_000_000;
        let local: i128 = quote_time.as_nanos() as i128 + SHANGHAI_OFFSET_NANOS + shift;
        let time_of_day: u128 = local as u128 % NANOS_PER_DAY;
        proof {
            let nanos = quote_time.spec_nanos() + 28_800_000_000_000;
            vstd::arithmetic::div_mod::lemma_mod_multiples_vanish(
                110_000,
                nanos as int,
                86_400_000_000_000,
            );
            assert(86_400_000_000_000 * 110_000 + nanos == local);
        }
        if CONTINUOUS_START_NANOS <= time_of_day && time_of_day < CONTINUOUS_END_NANOS {
            CrossingBehavior::HideIfCrossing
        } else {
            CrossingBehavior::Rest
        }
    }
}

} // verus!
