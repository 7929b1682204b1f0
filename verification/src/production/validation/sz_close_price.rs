//! Track successful SZ trades and reconcile the reference closing price.
//! Only a validation view is adjusted; replay and the OrderBook remain untouched.

use std::collections::VecDeque;

use vstd::prelude::*;
use vstd::string::StringExecFns;

use crate::market_data::{Market, QuoteTimestampNs};
use crate::sums::{lemma_sum_bounds, lemma_sum_push, lemma_sum_remove, seq_sum};

use super::super::error::{ErrorModel, ProductionError};
use super::super::replay::LAST_QUOTE_TIME_NS;
use super::super::time::{spec_time_of_day, time_of_day_nanos};
use super::super::types::{is_etf_symbol, spec_is_etf};
use super::rules::{
    average_error, millis, price_quantum, round_weighted_to_quantum, timestamp_ns_to_ms,
    validation_price_quantum, weighted_average,
};

verus! {

/// The last successful trade before the closing auction.
#[derive(Clone, Copy, Debug, PartialEq, Eq, Structural)]
pub struct RangeBase {
    pub price: i64,
    pub time_ms: i64,
    pub raw_sequence: Option<u64>,
}

#[derive(Clone, Copy, Debug, PartialEq, Eq, Structural)]
pub struct TradeSample {
    pub quote_time_ns: i64,
    pub price_units: i64,
    pub quantity: u64,
}

/// Nanoseconds after midnight at which the closing auction starts.
pub const CLOSE_CALL_START: i64 = 53_820_000_000_000;

/// Nanoseconds after midnight at which the market closes.
pub const MARKET_CLOSE: i64 = 54_000_000_000_000;

/// The successful trades of a symbol that its closing price may depend on.
pub struct SzClosePriceTracker {
    range_base: Option<RangeBase>,
    last_minute: VecDeque<TradeSample>,
    weighted_price_quantity: u128,
    quantity: u128,
    has_closing_auction_trade: bool,
}

/// The trades of the last minute with the sums that are kept of them, the last trade before the
/// closing auction, and whether the closing auction had one.
#[verifier::ext_equal]
pub struct TrackerModel {
    pub range_base: Option<RangeBase>,
    pub last_minute: Seq<TradeSample>,
    pub weighted_price_quantity: u128,
    pub quantity: u128,
    pub has_closing_auction_trade: bool,
}

/// What came of a trade: the tracker it leaves, and why it was not taken.
#[verifier::ext_equal]
pub struct TrackerStep {
    pub state: TrackerModel,
    pub error: Option<ErrorModel>,
}

pub open spec fn sample_value() -> spec_fn(TradeSample) -> int {
    |sample: TradeSample| sample.price_units * sample.quantity
}

pub open spec fn sample_quantity() -> spec_fn(TradeSample) -> int {
    |sample: TradeSample| sample.quantity as int
}

impl View for SzClosePriceTracker {
    type V = TrackerModel;

    closed spec fn view(&self) -> TrackerModel {
        TrackerModel {
            range_base: self.range_base,
            last_minute: self.last_minute@,
            weighted_price_quantity: self.weighted_price_quantity,
            quantity: self.quantity,
            has_closing_auction_trade: self.has_closing_auction_trade,
        }
    }
}

/// The samples from a time on; samples are in the order of their times.
pub open spec fn since(samples: Seq<TradeSample>, cutoff: int) -> Seq<TradeSample>
    decreases samples.len(),
{
    if samples.len() > 0 && samples[0].quote_time_ns < cutoff {
        since(samples.drop_first(), cutoff)
    } else {
        samples
    }
}

impl TrackerModel {
    pub open spec fn empty() -> Self {
        TrackerModel {
            range_base: None,
            last_minute: Seq::empty(),
            weighted_price_quantity: 0,
            quantity: 0,
            has_closing_auction_trade: false,
        }
    }

    pub open spec fn done(self) -> TrackerStep {
        TrackerStep { state: self, error: None }
    }

    pub open spec fn failed(self, error: ErrorModel) -> TrackerStep {
        TrackerStep { state: self, error: Some(error) }
    }

    /// The tracker without the trades before a time, one after the other up to the first that
    /// a sum does not hold. A trade leaves before its share of the sums does.
    pub open spec fn evicted(self, cutoff: int) -> TrackerStep
        decreases self.last_minute.len(),
    {
        if self.last_minute.len() == 0 || self.last_minute[0].quote_time_ns >= cutoff {
            self.done()
        } else {
            let sample = self.last_minute[0];
            let weighted = self.weighted_price_quantity - sample_value()(sample);
            let quantity = self.quantity - sample.quantity;
            let left = TrackerModel { last_minute: self.last_minute.drop_first(), ..self };
            let weighed = TrackerModel { weighted_price_quantity: weighted as u128, ..left };
            if weighted < 0 {
                left.failed(ErrorModel::Arithmetic("SZ close weighted subtraction"@))
            } else if quantity < 0 {
                weighed.failed(ErrorModel::Arithmetic("SZ close quantity subtraction"@))
            } else {
                TrackerModel { quantity: quantity as u128, ..weighed }.evicted(cutoff)
            }
        }
    }

    /// The tracker once a trade of the last minute is taken: it is the last before the closing
    /// auction so far, or one of the closing auction.
    pub open spec fn placed(self, sample: TradeSample) -> Self {
        let time = spec_time_of_day(sample.quote_time_ns as int);
        TrackerModel {
            range_base: if time < CLOSE_CALL_START {
                Some(
                    RangeBase {
                        price: sample.price_units,
                        time_ms: millis(sample.quote_time_ns),
                        raw_sequence: None,
                    },
                )
            } else {
                self.range_base
            },
            has_closing_auction_trade: self.has_closing_auction_trade || CLOSE_CALL_START <= time
                <= MARKET_CLOSE,
            ..self
        }
    }

    /// What comes of a trade. The tracker keeps the trades of the last sixty seconds, both ends
    /// included. A trade whose price or time cannot be is refused at once; one that a sum or
    /// the sixty seconds cannot hold has been listed by then.
    pub open spec fn observe_step(self, sample: TradeSample) -> TrackerStep {
        let weighted = self.weighted_price_quantity + sample_value()(sample);
        let quantity = self.quantity + sample.quantity;
        let cutoff = sample.quote_time_ns - 60_000_000_000;
        let listed = TrackerModel { last_minute: self.last_minute.push(sample), ..self };
        let weighed = TrackerModel { weighted_price_quantity: weighted as u128, ..listed };
        let summed = TrackerModel { quantity: quantity as u128, ..weighed };
        if sample.price_units < 0 {
            self.failed(ErrorModel::Arithmetic("SZ close trade price"@))
        } else if self.last_minute.len() > 0 && sample.quote_time_ns
            < self.last_minute.last().quote_time_ns {
            self.failed(
                ErrorModel::Validation(
                    "SZ per-symbol trade time regressed while calculating close price"@,
                ),
            )
        } else if weighted > u128::MAX {
            listed.failed(ErrorModel::Arithmetic("SZ close weighted value"@))
        } else if quantity > u128::MAX {
            weighed.failed(ErrorModel::Arithmetic("SZ close quantity"@))
        } else if cutoff < i64::MIN {
            summed.failed(ErrorModel::Arithmetic("SZ close one-minute cutoff"@))
        } else {
            let evicted = summed.evicted(cutoff);
            if evicted.error is Some {
                evicted
            } else {
                evicted.state.placed(sample).done()
            }
        }
    }

    /// Why a trade cannot be taken.
    pub open spec fn observe_error(self, sample: TradeSample) -> Option<ErrorModel> {
        self.observe_step(sample).error
    }

    /// The tracker after a trade, whether it was taken or not.
    pub open spec fn observed(self, sample: TradeSample) -> Self {
        self.observe_step(sample).state
    }

    /// Whether the sums are those of the trades of the last minute.
    pub open spec fn is_summed(self) -> bool {
        &&& self.weighted_price_quantity == seq_sum(self.last_minute, sample_value())
        &&& self.quantity == seq_sum(self.last_minute, sample_quantity())
        &&& forall|i: int|
            0 <= i < self.last_minute.len() ==> (#[trigger] self.last_minute[i]).price_units >= 0
    }

    /// The tracker once the last trade before the closing auction has a sequence.
    pub open spec fn sequenced(self, sequence: Option<u64>) -> Self {
        TrackerModel {
            range_base: match self.range_base {
                Some(base) => Some(
                    RangeBase {
                        raw_sequence: if base.raw_sequence is None {
                            sequence
                        } else {
                            base.raw_sequence
                        },
                        ..base
                    },
                ),
                None => None,
            },
            ..self
        }
    }

    /// The average price of the last minute by its sums, or why there is none to compute.
    pub open spec fn average(self, quantum: i64) -> Result<Option<i64>, ErrorModel> {
        let weighted = self.weighted_price_quantity as int;
        let total = self.quantity as int;
        if total == 0 {
            Ok(None)
        } else if quantum < 0 {
            Err(ErrorModel::Arithmetic("SZ close price quantum"@))
        } else if average_error(weighted, total, quantum as int) is Some {
            Err(average_error(weighted, total, quantum as int)->0)
        } else if weighted_average(weighted, total, quantum as int) > i64::MAX {
            Err(ErrorModel::Arithmetic("SZ close price conversion"@))
        } else {
            Ok(Some(weighted_average(weighted, total, quantum as int) as i64))
        }
    }
}

impl SzClosePriceTracker {
    /// No trade has a price below nothing.
    pub closed spec fn wf(self) -> bool {
        forall|i: int|
            0 <= i < self.last_minute@.len() ==> (#[trigger] self.last_minute@[i]).price_units >= 0
    }

    #[must_use]
    pub fn new() -> (r: Self)
        ensures
            r.wf(),
            r@ == TrackerModel::empty(),
    {
        SzClosePriceTracker {
            range_base: None,
            last_minute: VecDeque::new(),
            weighted_price_quantity: 0,
            quantity: 0,
            has_closing_auction_trade: false,
        }
    }

    /// The last successful trade before the closing auction.
    #[must_use]
    pub fn range_base(&self) -> (r: Option<RangeBase>)
        ensures
            r == self@.range_base,
    {
        self.range_base
    }

    #[must_use]
    pub fn has_closing_auction_trade(&self) -> (r: bool)
        ensures
            r == self@.has_closing_auction_trade,
    {
        self.has_closing_auction_trade
    }

    /// How many trades the last minute has.
    #[must_use]
    pub fn sample_count(&self) -> (r: usize)
        ensures
            r == self@.last_minute.len(),
    {
        self.last_minute.len()
    }
}

/// The worth of a trade fits.
proof fn lemma_value(sample: TradeSample)
    requires
        sample.price_units >= 0,
    ensures
        0 <= sample_value()(sample) <= 0x7fff_ffff_ffff_ffff * 0xffff_ffff_ffff_ffff,
{
    let price = sample.price_units;
    let quantity = sample.quantity;
    assert(0 <= price * quantity <= 0x7fff_ffff_ffff_ffff * 0xffff_ffff_ffff_ffff)
        by (nonlinear_arith)
        requires
            0 <= price <= 0x7fff_ffff_ffff_ffff,
            0 <= quantity <= 0xffff_ffff_ffff_ffff,
    ;
}

/// The sums over samples are not negative.
proof fn lemma_sums(samples: Seq<TradeSample>)
    requires
        forall|i: int| 0 <= i < samples.len() ==> (#[trigger] samples[i]).price_units >= 0,
    ensures
        seq_sum(samples, sample_value()) >= 0,
        seq_sum(samples, sample_quantity()) >= 0,
{
    assert forall|i: int| 0 <= i < samples.len() implies sample_value()(#[trigger] samples[i])
        >= 0 by {
        lemma_value(samples[i]);
    }
    lemma_sum_bounds(samples, sample_value());
    lemma_sum_bounds(samples, sample_quantity());
}

proof fn lemma_evicted(tracker: TrackerModel, cutoff: int)
    requires
        tracker.is_summed(),
    ensures
        ({
            let step = tracker.evicted(cutoff);
            &&& step.error is None
            &&& step.state.is_summed()
            &&& step.state.last_minute == since(tracker.last_minute, cutoff)
        }),
    decreases tracker.last_minute.len(),
{
    let samples = tracker.last_minute;
    if samples.len() > 0 && samples[0].quote_time_ns < cutoff {
        lemma_value(samples[0]);
        lemma_sum_remove(samples, 0, sample_value());
        lemma_sum_remove(samples, 0, sample_quantity());
        assert(samples.remove(0) =~= samples.drop_first());
        lemma_sums(samples.drop_first());
        let next = TrackerModel {
            last_minute: samples.drop_first(),
            weighted_price_quantity: (tracker.weighted_price_quantity - sample_value()(
                samples[0],
            )) as u128,
            quantity: (tracker.quantity - samples[0].quantity) as u128,
            ..tracker
        };
        lemma_evicted(next, cutoff);
    }
}

/// As long as every trade is taken, the sums are those of the trades of the last sixty seconds,
/// and a trade is refused for nothing but its price, its time or a sum that does not fit.
pub proof fn taken_trades_are_summed(tracker: TrackerModel, sample: TradeSample)
    requires
        tracker.is_summed(),
    ensures
        TrackerModel::empty().is_summed(),
        tracker.observe_error(sample) is None <==> {
            let samples = tracker.last_minute.push(sample);
            &&& sample.price_units >= 0
            &&& tracker.last_minute.len() > 0 ==> tracker.last_minute.last().quote_time_ns
                <= sample.quote_time_ns
            &&& seq_sum(samples, sample_value()) <= u128::MAX
            &&& seq_sum(samples, sample_quantity()) <= u128::MAX
            &&& i64::MIN <= sample.quote_time_ns - 60_000_000_000
        },
        tracker.observe_error(sample) is None ==> {
            let next = tracker.observed(sample);
            &&& next.is_summed()
            &&& next.last_minute == since(
                tracker.last_minute.push(sample),
                sample.quote_time_ns - 60_000_000_000,
            )
        },
{
    let samples = tracker.last_minute.push(sample);
    lemma_sum_push(tracker.last_minute, sample, sample_value());
    lemma_sum_push(tracker.last_minute, sample, sample_quantity());
    if sample.price_units >= 0 && seq_sum(samples, sample_value()) <= u128::MAX && seq_sum(
        samples,
        sample_quantity(),
    ) <= u128::MAX {
        lemma_sums(samples);
        let summed = TrackerModel {
            last_minute: samples,
            weighted_price_quantity: seq_sum(samples, sample_value()) as u128,
            quantity: seq_sum(samples, sample_quantity()) as u128,
            ..tracker
        };
        lemma_evicted(summed, sample.quote_time_ns - 60_000_000_000);
    }
}

impl SzClosePriceTracker {
    /// Takes a successful trade.
    pub fn observe(&mut self, quote_time_ns: i64, price_units: i64, quantity: u64) -> (r: Result<
        (),
        ProductionError,
    >)
        requires
            old(self).wf(),
            quote_time_ns <= LAST_QUOTE_TIME_NS,
        ensures
            final(self).wf(),
            ({
                let sample = TradeSample { quote_time_ns, price_units, quantity };
                &&& final(self)@ == old(self)@.observed(sample)
                &&& match old(self)@.observe_error(sample) {
                    Some(error) => r is Err && r->Err_0@ == error,
                    None => r is Ok,
                }
            }),
    {
        let sample = TradeSample { quote_time_ns, price_units, quantity };
        if price_units < 0 {
            return Err(ProductionError::Arithmetic("SZ close trade price"));
        }
        proof {
            lemma_value(sample);
        }
        let value: u128 = price_units as u128 * quantity as u128;
        let count: usize = self.last_minute.len();
        if count > 0 && quote_time_ns < self.last_minute[count - 1].quote_time_ns {
            return Err(
                ProductionError::Validation(
                    String::from_str(
                        "SZ per-symbol trade time regressed while calculating close price",
                    ),
                ),
            );
        }
        self.last_minute.push_back(sample);
        self.weighted_price_quantity = match self.weighted_price_quantity.checked_add(value) {
            Some(sum) => sum,
            None => return Err(ProductionError::Arithmetic("SZ close weighted value")),
        };
        self.quantity = match self.quantity.checked_add(quantity as u128) {
            Some(sum) => sum,
            None => return Err(ProductionError::Arithmetic("SZ close quantity")),
        };
        let cutoff: i64 = match quote_time_ns.checked_sub(60_000_000_000) {
            Some(cutoff) => cutoff,
            None => return Err(ProductionError::Arithmetic("SZ close one-minute cutoff")),
        };
        match self.evict(cutoff) {
            Ok(()) => {},
            Err(error) => return Err(error),
        }
        let time: i64 = time_of_day_nanos(QuoteTimestampNs::from_nanos(quote_time_ns));
        if time < CLOSE_CALL_START {
            self.range_base = Some(
                RangeBase {
                    price: price_units,
                    time_ms: timestamp_ns_to_ms(quote_time_ns),
                    raw_sequence: None,
                },
            );
        }
        if CLOSE_CALL_START <= time && time <= MARKET_CLOSE {
            self.has_closing_auction_trade = true;
        }
        Ok(())
    }

    /// Drops the trades before a time.
    fn evict(&mut self, cutoff: i64) -> (r: Result<(), ProductionError>)
        requires
            old(self).wf(),
        ensures
            final(self).wf(),
            final(self)@ == old(self)@.evicted(cutoff as int).state,
            match old(self)@.evicted(cutoff as int).error {
                Some(error) => r is Err && r->Err_0@ == error,
                None => r is Ok,
            },
    {
        while self.last_minute.len() > 0 && self.last_minute[0].quote_time_ns < cutoff
            invariant
                self.wf(),
                old(self)@.evicted(cutoff as int) == self@.evicted(cutoff as int),
            decreases self.last_minute@.len(),
        {
            let ghost samples = self.last_minute@;
            proof {
                lemma_value(samples[0]);
            }
            if let Some(sample) = self.last_minute.pop_front() {
                assert(self.last_minute@ =~= samples.drop_first());
                let value: u128 = sample.price_units as u128 * sample.quantity as u128;
                self.weighted_price_quantity = match self.weighted_price_quantity.checked_sub(
                    value,
                ) {
                    Some(sum) => sum,
                    None => return Err(
                        ProductionError::Arithmetic("SZ close weighted subtraction"),
                    ),
                };
                self.quantity = match self.quantity.checked_sub(sample.quantity as u128) {
                    Some(sum) => sum,
                    None => return Err(
                        ProductionError::Arithmetic("SZ close quantity subtraction"),
                    ),
                };
            }
        }
        Ok(())
    }

    /// Gives the last trade before the closing auction its sequence, if it has none.
    pub fn note_sequence(&mut self, sequence: Option<u64>)
        requires
            old(self).wf(),
        ensures
            final(self).wf(),
            final(self)@ == old(self)@.sequenced(sequence),
    {
        if let Some(base) = self.range_base {
            if base.raw_sequence.is_none() {
                self.range_base = Some(
                    RangeBase {
                        price: base.price,
                        time_ms: base.time_ms,
                        raw_sequence: sequence,
                    },
                );
            }
        }
    }

    /// The average price of the last minute.
    pub fn average_close_price(&self, quantum: i64) -> (r: Result<Option<i64>, ProductionError>)
        requires
            self.wf(),
            quantum != 0 || self@.quantity == 0,
        ensures
            match self@.average(quantum) {
                Ok(price) => r == Ok::<Option<i64>, ProductionError>(price),
                Err(error) => r is Err && r->Err_0@ == error,
            },
    {
        if self.quantity == 0 {
            return Ok(None);
        }
        if quantum < 0 {
            return Err(ProductionError::Arithmetic("SZ close price quantum"));
        }
        let units: u128 = match round_weighted_to_quantum(
            self.weighted_price_quantity,
            self.quantity,
            quantum as u128,
        ) {
            Ok(units) => units,
            Err(error) => return Err(error),
        };
        if units > 0x7fff_ffff_ffff_ffff {
            Err(ProductionError::Arithmetic("SZ close price conversion"))
        } else {
            Ok(Some(units as i64))
        }
    }
}

/// The official closing price of a symbol and how it came about: where the closing auction
/// had no trade, the average of the last minute of trading, and without any trade the price
/// of the day before.
pub open spec fn official_close(
    symbol: Seq<char>,
    pre_close_price_units: Option<i64>,
    tracker: Option<TrackerModel>,
) -> Result<Option<(Option<i64>, Seq<char>)>, ErrorModel> {
    let is_etf = spec_is_etf(Market::Szse, symbol);
    match tracker {
        Some(tracker) => if tracker.has_closing_auction_trade {
            Ok(None)
        } else {
            match tracker.average(price_quantum(Market::Szse, symbol)) {
                Err(error) => Err(error),
                Ok(price) => Ok(
                    Some(
                        (
                            price,
                            if is_etf {
                                "SZ_ETF_AVG_CLOSE_PRICE"@
                            } else {
                                "SZ_STOCK_AVG_CLOSE_PRICE"@
                            },
                        ),
                    ),
                ),
            }
        },
        None => Ok(
            Some(
                (
                    pre_close_price_units,
                    if is_etf {
                        "SZ_ETF_PRE_CLOSE_PRICE"@
                    } else {
                        "SZ_STOCK_PRE_CLOSE_PRICE"@
                    },
                ),
            ),
        ),
    }
}

/// The rule by which a reference's last price is the official closing price.
pub open spec fn close_price_tag(
    symbol: Seq<char>,
    pre_close_price_units: Option<i64>,
    tracker: Option<TrackerModel>,
    expected_last: Option<i64>,
) -> Result<Option<Seq<char>>, ErrorModel> {
    match official_close(symbol, pre_close_price_units, tracker) {
        Err(error) => Err(error),
        Ok(None) => Ok(None),
        Ok(Some((price, tag))) => if price == expected_last {
            Ok(Some(tag))
        } else {
            Ok(None)
        },
    }
}

/// Finds the rule by which a reference's last price is the official closing price, where the
/// last price is all that differs.
pub fn reconcile_sz_market_close_price(
    symbol: &str,
    pre_close_price_units: Option<i64>,
    tracker: Option<&SzClosePriceTracker>,
    expected_last_price_units: Option<i64>,
    only_last_price_differs: bool,
) -> (r: Result<Option<&'static str>, ProductionError>)
    requires
        tracker matches Some(tracker) ==> tracker.wf(),
    ensures
        if only_last_price_differs {
            match close_price_tag(
                symbol@,
                pre_close_price_units,
                match tracker {
                    Some(tracker) => Some(tracker@),
                    None => None,
                },
                expected_last_price_units,
            ) {
                Ok(Some(tag)) => r is Ok && r->Ok_0 is Some && r->Ok_0->0@ == tag,
                Ok(None) => r is Ok && r->Ok_0 is None,
                Err(error) => r is Err && r->Err_0@ == error,
            }
        } else {
            r is Ok && r->Ok_0 is None
        },
{
    if !only_last_price_differs {
        return Ok(None);
    }
    let is_etf = is_etf_symbol(Market::Szse, symbol);
    let (official, tag) = match tracker {
        Some(tracker) => {
            if tracker.has_closing_auction_trade {
                return Ok(None);
            }
            let average = match tracker.average_close_price(
                validation_price_quantum(Market::Szse, symbol),
            ) {
                Ok(price) => price,
                Err(error) => return Err(error),
            };
            (
                average,
                if is_etf {
                    "SZ_ETF_AVG_CLOSE_PRICE"
                } else {
                    "SZ_STOCK_AVG_CLOSE_PRICE"
                },
            )
        },
        None => (
            pre_close_price_units,
            if is_etf {
                "SZ_ETF_PRE_CLOSE_PRICE"
            } else {
                "SZ_STOCK_PRE_CLOSE_PRICE"
            },
        ),
    };
    if official != expected_last_price_units {
        return Ok(None);
    }
    Ok(Some(tag))
}

} // verus!
