//! Shared scalar types and normalized order-book events.

use std::cmp::Ordering;

use vstd::prelude::*;
use vstd::std_specs::cmp::{PartialOrdIs, PartialOrdSpecImpl};

verus! {

/// A monotonic timestamp carried only by legacy QTP input.
#[derive(Clone, Copy, Debug, PartialEq, Eq, Hash, Structural)]
pub struct LegacySteadyTimestampNs {
    pub(crate) nanoseconds: i64,
}

impl LegacySteadyTimestampNs {
    pub open(crate) spec fn spec_nanos(self) -> i64 {
        self.nanoseconds
    }

    #[must_use]
    pub fn from_nanos(nanoseconds: i64) -> (r: Self)
        ensures
            r.spec_nanos() == nanoseconds,
    {
        Self { nanoseconds }
    }

    #[must_use]
    pub fn as_nanos(self) -> (r: i64)
        ensures
            r == self.spec_nanos(),
    {
        self.nanoseconds
    }
}

/// A required local receive or generation timestamp in Unix epoch nanoseconds.
#[derive(Clone, Copy, Debug, PartialEq, Eq, PartialOrd, Ord, Hash, Structural)]
pub struct LocalTimestampNs {
    pub(crate) nanoseconds: i64,
}

impl LocalTimestampNs {
    pub open(crate) spec fn spec_nanos(self) -> i64 {
        self.nanoseconds
    }

    /// The timestamp of a given number of nanoseconds.
    pub open(crate) spec fn spec_new(nanoseconds: i64) -> Self {
        Self { nanoseconds }
    }

    #[must_use]
    pub fn from_nanos(nanoseconds: i64) -> (r: Self)
        ensures
            r == Self::spec_new(nanoseconds),
            r.spec_nanos() == nanoseconds,
    {
        Self { nanoseconds }
    }

    #[must_use]
    pub fn as_nanos(self) -> (r: i64)
        ensures
            r == self.spec_nanos(),
    {
        self.nanoseconds
    }
}

/// A required exchange quote timestamp in Unix epoch nanoseconds.
#[derive(Clone, Copy, Debug, PartialEq, Eq, PartialOrd, Ord, Hash, Structural)]
pub struct QuoteTimestampNs {
    pub(crate) nanoseconds: i64,
}

impl QuoteTimestampNs {
    pub open(crate) spec fn spec_nanos(self) -> i64 {
        self.nanoseconds
    }

    /// The timestamp of a given number of nanoseconds.
    pub open(crate) spec fn spec_new(nanoseconds: i64) -> Self {
        Self { nanoseconds }
    }

    #[must_use]
    pub fn from_nanos(nanoseconds: i64) -> (r: Self)
        ensures
            r == Self::spec_new(nanoseconds),
            r.spec_nanos() == nanoseconds,
    {
        Self { nanoseconds }
    }

    #[must_use]
    pub fn as_nanos(self) -> (r: i64)
        ensures
            r == self.spec_nanos(),
    {
        self.nanoseconds
    }
}

/// Source timestamps attached to a raw market-data record.
#[derive(Clone, Copy, Debug, PartialEq, Eq, Structural)]
pub struct RawEventTime {
    pub steady_time: Option<LegacySteadyTimestampNs>,
    pub local_time: LocalTimestampNs,
    pub quote_time: QuoteTimestampNs,
}

/// Instrument symbol.
#[derive(Debug, PartialEq, Eq, PartialOrd, Ord, Hash)]
pub struct Symbol {
    pub(crate) text: String,
}

impl View for Symbol {
    type V = Seq<char>;

    open(crate) spec fn view(&self) -> Seq<char> {
        self.text@
    }
}

impl Clone for Symbol {
    fn clone(&self) -> (r: Self)
        ensures
            r == *self,
    {
        Symbol { text: self.text.clone() }
    }
}

impl Symbol {
    #[must_use]
    pub fn new(value: String) -> (r: Self)
        ensures
            r@ == value@,
    {
        Self { text: value }
    }

    #[must_use]
    pub fn as_str(&self) -> (r: &str)
        ensures
            r@ == self@,
    {
        self.text.as_str()
    }

    /// Whether the two symbols are spelled alike.
    #[must_use]
    pub fn same(&self, other: &Symbol) -> (r: bool)
        ensures
            r == (self@ == other@),
    {
        self.text == other.text
    }
}

impl From<&str> for Symbol {
    fn from(value: &str) -> (r: Self)
        ensures
            r@ == value@,
    {
        Self { text: value.to_owned() }
    }
}

impl vstd::std_specs::convert::FromSpecImpl<&str> for Symbol {
    open spec fn obeys_from_spec() -> bool {
        false
    }

    open spec fn from_spec(v: &str) -> Self {
        arbitrary()
    }
}

impl From<String> for Symbol {
    fn from(value: String) -> (r: Self)
        ensures
            r@ == value@,
    {
        Self::new(value)
    }
}

impl vstd::std_specs::convert::FromSpecImpl<String> for Symbol {
    open spec fn obeys_from_spec() -> bool {
        false
    }

    open spec fn from_spec(v: String) -> Self {
        arbitrary()
    }
}

/// Supported securities exchange.
///
/// `Sse` means Shanghai Stock Exchange and `Szse` means Shenzhen Stock Exchange.
/// External CLI, directory and report market codes remain `SH` and `SZ`.
#[derive(Clone, Copy, Debug, PartialEq, Eq, Hash, Structural)]
pub enum Market {
    Sse,
    Szse,
}

/// Number of days of a month of the proleptic Gregorian calendar.
pub open spec fn days_in_month(year: int, month: int) -> int {
    if month == 2 {
        if year % 4 == 0 && (year % 100 != 0 || year % 400 == 0) {
            29
        } else {
            28
        }
    } else if month == 4 || month == 6 || month == 9 || month == 11 {
        30
    } else {
        31
    }
}

/// Whether an integer spells an existing calendar day as `YYYYMMDD`.
pub open spec fn is_calendar_day(value: int) -> bool {
    let year = value / 10_000;
    let month = value / 100 % 100;
    let day = value % 100;
    &&& year > 0
    &&& 1 <= month <= 12
    &&& 1 <= day <= days_in_month(year, month)
}

/// Trading day encoded as a validated `YYYYMMDD` value.
#[derive(Clone, Copy, Debug, PartialEq, Eq, PartialOrd, Ord, Hash, Structural)]
pub struct TradingDay {
    pub(crate) value: u32,
}

impl TradingDay {
    #[verifier::type_invariant]
    pub(crate) open spec fn inv(self) -> bool {
        is_calendar_day(self.value as int)
    }

    pub open(crate) spec fn spec_value(self) -> u32 {
        self.value
    }

    #[must_use]
    pub fn from_yyyymmdd(value: u32) -> (r: Option<Self>)
        ensures
            r is Some <==> is_calendar_day(value as int),
            r is Some ==> r->0.spec_value() == value,
    {
        let year: u32 = value / 10_000;
        let month: u32 = value / 100 % 100;
        let day: u32 = value % 100;
        if year == 0 || month == 0 || month > 12 || day == 0 {
            return None;
        }
        let leap = year % 4 == 0 && (year % 100 != 0 || year % 400 == 0);
        let days: u32 = if month == 2 {
            if leap {
                29
            } else {
                28
            }
        } else if month == 4 || month == 6 || month == 9 || month == 11 {
            30
        } else {
            31
        };
        if day > days {
            return None;
        }
        Some(Self { value })
    }

    #[must_use]
    pub fn as_yyyymmdd(self) -> (r: u32)
        ensures
            r == self.spec_value(),
            is_calendar_day(r as int),
    {
        proof {
            use_type_invariant(&self);
        }
        self.value
    }
}

/// Identity of one order book.
#[derive(Debug, PartialEq, Eq, Hash)]
pub struct BookKey {
    pub market: Market,
    pub trading_day: TradingDay,
    pub symbol: Symbol,
}

impl Clone for BookKey {
    fn clone(&self) -> (r: Self)
        ensures
            r == *self,
    {
        BookKey { market: self.market, trading_day: self.trading_day, symbol: self.symbol.clone() }
    }
}

impl BookKey {
    /// Whether both keys name the same book.
    pub open spec fn spec_same(self, other: BookKey) -> bool {
        &&& self.market == other.market
        &&& self.trading_day == other.trading_day
        &&& self.symbol@ == other.symbol@
    }

    /// Whether both keys name the same book.
    #[must_use]
    pub fn same(&self, other: &BookKey) -> (r: bool)
        ensures
            r == self.spec_same(*other),
    {
        self.market == other.market && self.trading_day == other.trading_day && self.symbol.same(
            &other.symbol,
        )
    }
}

/// Buy or sell side accepted by the core.
#[derive(Clone, Copy, Debug, PartialEq, Eq, Hash, Structural)]
pub enum Side {
    Buy,
    Sell,
}

impl Side {
    pub open spec fn spec_opposite(self) -> Side {
        match self {
            Side::Buy => Side::Sell,
            Side::Sell => Side::Buy,
        }
    }

    /// The other side of the book.
    #[must_use]
    pub fn opposite(self) -> (r: Side)
        ensures
            r == self.spec_opposite(),
    {
        match self {
            Side::Buy => Side::Sell,
            Side::Sell => Side::Buy,
        }
    }
}

/// Positive order quantity.
#[derive(Clone, Copy, Debug, PartialEq, Eq, PartialOrd, Ord, Hash, Structural)]
pub struct Quantity {
    pub(crate) value: u64,
}

impl Quantity {
    #[verifier::type_invariant]
    pub(crate) open spec fn inv(self) -> bool {
        self.value > 0
    }

    pub open(crate) spec fn spec_get(self) -> u64 {
        self.value
    }

    /// The value of a given number.
    pub open(crate) spec fn spec_new(value: u64) -> Self {
        Self { value }
    }

    #[must_use]
    pub fn new(value: u64) -> (r: Option<Self>)
        ensures
            r == if value == 0 {
                None
            } else {
                Some(Self::spec_new(value))
            },
            r is Some ==> r->0.spec_get() == value,
    {
        if value == 0 {
            None
        } else {
            Some(Self { value })
        }
    }

    #[must_use]
    pub fn get(self) -> (r: u64)
        ensures
            r == self.spec_get(),
            r > 0,
    {
        proof {
            use_type_invariant(&self);
        }
        self.value
    }
}

/// Positive exchange order number.
#[derive(Clone, Copy, Debug, PartialEq, Eq, PartialOrd, Ord, Hash, Structural)]
pub struct OrderId {
    pub(crate) value: u64,
}

impl OrderId {
    #[verifier::type_invariant]
    pub(crate) open spec fn inv(self) -> bool {
        self.value > 0
    }

    pub open(crate) spec fn spec_get(self) -> u64 {
        self.value
    }

    /// The value of a given number.
    pub open(crate) spec fn spec_new(value: u64) -> Self {
        Self { value }
    }

    #[must_use]
    pub fn new(value: u64) -> (r: Option<Self>)
        ensures
            r == if value == 0 {
                None
            } else {
                Some(Self::spec_new(value))
            },
            r is Some ==> r->0.spec_get() == value,
    {
        if value == 0 {
            None
        } else {
            Some(Self { value })
        }
    }

    #[must_use]
    pub fn get(self) -> (r: u64)
        ensures
            r == self.spec_get(),
            r > 0,
    {
        proof {
            use_type_invariant(&self);
        }
        self.value
    }
}

/// Positive sequence of a raw record.
#[derive(Clone, Copy, Debug, PartialEq, Eq, PartialOrd, Ord, Hash, Structural)]
pub struct RawSequence {
    pub(crate) value: u64,
}

impl RawSequence {
    #[verifier::type_invariant]
    pub(crate) open spec fn inv(self) -> bool {
        self.value > 0
    }

    pub open(crate) spec fn spec_get(self) -> u64 {
        self.value
    }

    /// The value of a given number.
    pub open(crate) spec fn spec_new(value: u64) -> Self {
        Self { value }
    }

    #[must_use]
    pub fn new(value: u64) -> (r: Option<Self>)
        ensures
            r == if value == 0 {
                None
            } else {
                Some(Self::spec_new(value))
            },
            r is Some ==> r->0.spec_get() == value,
    {
        if value == 0 {
            None
        } else {
            Some(Self { value })
        }
    }

    #[must_use]
    pub fn get(self) -> (r: u64)
        ensures
            r == self.spec_get(),
            r > 0,
    {
        proof {
            use_type_invariant(&self);
        }
        self.value
    }
}

/// Positive sequence of an event applied to one book.
#[derive(Clone, Copy, Debug, PartialEq, Eq, PartialOrd, Ord, Hash, Structural)]
pub struct ApplySequence {
    pub(crate) value: u64,
}

impl ApplySequence {
    #[verifier::type_invariant]
    pub(crate) open spec fn inv(self) -> bool {
        self.value > 0
    }

    pub open(crate) spec fn spec_get(self) -> u64 {
        self.value
    }

    /// The value of a given number.
    pub open(crate) spec fn spec_new(value: u64) -> Self {
        Self { value }
    }

    #[must_use]
    pub fn new(value: u64) -> (r: Option<Self>)
        ensures
            r == if value == 0 {
                None
            } else {
                Some(Self::spec_new(value))
            },
            r is Some ==> r->0.spec_get() == value,
    {
        if value == 0 {
            None
        } else {
            Some(Self { value })
        }
    }

    #[must_use]
    pub fn get(self) -> (r: u64)
        ensures
            r == self.spec_get(),
            r > 0,
    {
        proof {
            use_type_invariant(&self);
        }
        self.value
    }
}

/// Positive exchange channel number.
#[derive(Clone, Copy, Debug, PartialEq, Eq, PartialOrd, Ord, Hash, Structural)]
pub struct ChannelId {
    pub(crate) value: u32,
}

impl ChannelId {
    #[verifier::type_invariant]
    pub(crate) open spec fn inv(self) -> bool {
        self.value > 0
    }

    pub open(crate) spec fn spec_get(self) -> u32 {
        self.value
    }

    /// The value of a given number.
    pub open(crate) spec fn spec_new(value: u32) -> Self {
        Self { value }
    }

    #[must_use]
    pub fn new(value: u32) -> (r: Option<Self>)
        ensures
            r == if value == 0 {
                None
            } else {
                Some(Self::spec_new(value))
            },
            r is Some ==> r->0.spec_get() == value,
    {
        if value == 0 {
            None
        } else {
            Some(Self { value })
        }
    }

    #[must_use]
    pub fn get(self) -> (r: u32)
        ensures
            r == self.spec_get(),
            r > 0,
    {
        proof {
            use_type_invariant(&self);
        }
        self.value
    }
}

/// Positive integer price units.
#[derive(Clone, Copy, Debug, PartialEq, Eq, Ord, Hash, Structural)]
pub struct Price {
    pub(crate) value: i64,
}

impl Price {
    #[verifier::type_invariant]
    pub(crate) open spec fn inv(self) -> bool {
        self.value > 0
    }

    pub open(crate) spec fn spec_units(self) -> i64 {
        self.value
    }

    /// The price of a given number of units.
    pub open(crate) spec fn spec_new(units: i64) -> Self {
        Self { value: units }
    }

    #[must_use]
    pub fn from_units(units: i64) -> (r: Option<Self>)
        ensures
            r == if units > 0 {
                Some(Self::spec_new(units))
            } else {
                None
            },
            r is Some ==> r->0.spec_units() == units,
    {
        if units <= 0 {
            None
        } else {
            Some(Self { value: units })
        }
    }

    #[must_use]
    pub fn units(self) -> (r: i64)
        ensures
            r == self.spec_units(),
            r > 0,
    {
        proof {
            use_type_invariant(&self);
        }
        self.value
    }

    pub open spec fn spec_max(self, other: Price) -> Price {
        if other.spec_units() >= self.spec_units() {
            other
        } else {
            self
        }
    }

    pub open spec fn spec_min(self, other: Price) -> Price {
        if other.spec_units() < self.spec_units() {
            other
        } else {
            self
        }
    }

    /// The higher of two prices.
    #[must_use]
    pub fn higher(self, other: Price) -> (r: Price)
        ensures
            r == self.spec_max(other),
    {
        if other.value >= self.value {
            other
        } else {
            self
        }
    }

    /// The lower of two prices.
    #[must_use]
    pub fn lower(self, other: Price) -> (r: Price)
        ensures
            r == self.spec_min(other),
    {
        if other.value < self.value {
            other
        } else {
            self
        }
    }
}

impl PartialOrd for Price {
    fn partial_cmp(&self, other: &Self) -> (r: Option<Ordering>) {
        Some(
            if self.value < other.value {
                Ordering::Less
            } else if self.value == other.value {
                Ordering::Equal
            } else {
                Ordering::Greater
            },
        )
    }
}

impl PartialOrdSpecImpl for Price {
    open spec fn obeys_partial_cmp_spec() -> bool {
        true
    }

    /// Prices compare in the order of their units.
    open spec fn partial_cmp_spec(&self, other: &Self) -> Option<Ordering> {
        Some(
            if self.spec_units() < other.spec_units() {
                Ordering::Less
            } else if self.spec_units() == other.spec_units() {
                Ordering::Equal
            } else {
                Ordering::Greater
            },
        )
    }
}

/// Prices compare in the order of their units: this is a total order, in which two prices are
/// equal only where they are the same.
pub proof fn prices_compare_by_their_units(a: Price, b: Price)
    ensures
        a.is_lt(&b) <==> a.spec_units() < b.spec_units(),
        a.is_le(&b) <==> a.spec_units() <= b.spec_units(),
        a.is_gt(&b) <==> a.spec_units() > b.spec_units(),
        a.is_ge(&b) <==> a.spec_units() >= b.spec_units(),
        a.is_le(&b) && a.is_ge(&b) <==> a == b,
{
}

/// Two prices of the same units are the same price.
pub proof fn price_is_its_units(a: Price, b: Price)
    requires
        a.spec_units() == b.spec_units(),
    ensures
        a == b,
{
}

/// Ten to the power of a natural number.
pub open spec fn pow10(exponent: nat) -> nat
    decreases exponent,
{
    if exponent == 0 {
        1
    } else {
        10 * pow10((exponent - 1) as nat)
    }
}

/// Decimal scale used to convert display prices into integer units.
#[derive(Clone, Copy, Debug, PartialEq, Eq, Structural)]
pub struct PriceScale {
    pub(crate) places: u8,
    pub(crate) factor: u64,
}

impl PriceScale {
    pub const MAX_DECIMAL_PLACES: u8 = 9;

    #[verifier::type_invariant]
    pub(crate) open spec fn inv(self) -> bool {
        self.places <= Self::MAX_DECIMAL_PLACES && self.factor == pow10(self.places as nat)
    }

    pub open(crate) spec fn spec_decimal_places(self) -> u8 {
        self.places
    }

    pub open(crate) spec fn spec_multiplier(self) -> u64 {
        self.factor
    }

    #[must_use]
    pub fn from_decimal_places(decimal_places: u8) -> (r: Option<Self>)
        ensures
            r is Some <==> decimal_places <= 9,
            r is Some ==> r->0.spec_decimal_places() == decimal_places && r->0.spec_multiplier()
                == pow10(decimal_places as nat),
    {
        if decimal_places > Self::MAX_DECIMAL_PLACES {
            return None;
        }
        let mut factor: u64 = 1;
        let mut place: u8 = 0;
        while place < decimal_places
            invariant
                place <= decimal_places <= 9,
                factor == pow10(place as nat),
            decreases decimal_places - place,
        {
            proof {
                reveal_with_fuel(pow10, 11);
            }
            factor = factor * 10;
            place = place + 1;
        }
        Some(Self { places: decimal_places, factor })
    }

    #[must_use]
    pub fn decimal_places(self) -> (r: u8)
        ensures
            r == self.spec_decimal_places(),
            r <= 9,
    {
        proof {
            use_type_invariant(&self);
        }
        self.places
    }

    #[must_use]
    pub fn multiplier(self) -> (r: u64)
        ensures
            r == self.spec_multiplier(),
            r == pow10(self.spec_decimal_places() as nat),
    {
        proof {
            use_type_invariant(&self);
        }
        self.factor
    }
}

/// Full identity of an order within one book.
#[derive(Clone, Copy, Debug, PartialEq, Eq, Hash, Structural)]
pub struct OrderKey {
    pub channel_id: ChannelId,
    pub side: Side,
    pub order_id: OrderId,
}

/// Metadata shared by normalized events.
#[derive(Debug, PartialEq, Eq)]
pub struct EventMeta {
    pub book_key: BookKey,
    pub raw_sequence: RawSequence,
    pub apply_sequence: ApplySequence,
    pub local_time: LocalTimestampNs,
    pub quote_time: QuoteTimestampNs,
}

impl Clone for EventMeta {
    fn clone(&self) -> (r: Self)
        ensures
            r == *self,
    {
        EventMeta {
            book_key: self.book_key.clone(),
            raw_sequence: self.raw_sequence,
            apply_sequence: self.apply_sequence,
            local_time: self.local_time,
            quote_time: self.quote_time,
        }
    }
}

/// Legacy QTP order side before normalization.
#[derive(Clone, Copy, Debug, PartialEq, Eq, Structural)]
pub enum RawOrderSide {
    Buy,
    Sell,
    Borrow,
    Loan,
}

/// Legacy QTP order type before normalization.
#[derive(Clone, Copy, Debug, PartialEq, Eq, Structural)]
pub enum RawOrderType {
    MarketPrice,
    LimitPrice,
    ForwardBestPrice,
    ReverseBestPrice,
    Cancelled,
}

/// Legacy QTP transaction type before normalization.
#[derive(Clone, Copy, Debug, PartialEq, Eq, Structural)]
pub enum RawTradeType {
    Trade,
    Cancelled,
}

/// Legacy QTP aggressor flag retained for audit.
#[derive(Clone, Copy, Debug, PartialEq, Eq, Structural)]
pub enum RawTradeSide {
    Unknown,
    Buy,
    Sell,
}

/// A floating-point price in the units of a price scale.
#[derive(Clone, Copy, Debug, PartialEq, Eq, Structural)]
pub enum ScaledPrice {
    Units(i64),
    /// The price is not finite or not positive.
    Invalid,
    /// The price lies between two units.
    Misaligned,
    /// The price has more units than can be counted.
    Overflow,
}

/// A price of a legacy record: the bits of its floating-point number, and what that is in the
/// units of the record's book.
#[derive(Clone, Copy, Debug, PartialEq, Eq, Structural)]
pub struct RawPrice {
    pub bits: u64,
    pub scaled: ScaledPrice,
}

/// A legacy order.
#[derive(Debug, PartialEq, Eq)]
pub struct OrderRecord {
    pub event_time: RawEventTime,
    pub symbol: Symbol,
    pub kind: RawOrderType,
    pub side: RawOrderSide,
    pub channel_no: i32,
    pub sequence: i64,
    pub order_id: i64,
    pub price: RawPrice,
    pub quantity: u64,
}

impl Clone for OrderRecord {
    fn clone(&self) -> (r: Self)
        ensures
            r == *self,
    {
        OrderRecord {
            event_time: self.event_time,
            symbol: self.symbol.clone(),
            kind: self.kind,
            side: self.side,
            channel_no: self.channel_no,
            sequence: self.sequence,
            order_id: self.order_id,
            price: self.price,
            quantity: self.quantity,
        }
    }
}

/// A legacy trade or cancellation.
#[derive(Debug, PartialEq, Eq)]
pub struct TradeRecord {
    pub event_time: RawEventTime,
    pub symbol: Symbol,
    pub kind: RawTradeType,
    pub side: RawTradeSide,
    pub channel_no: i32,
    pub sequence: i64,
    pub bid_order_id: i64,
    pub ask_order_id: i64,
    pub price: RawPrice,
    pub quantity: u64,
}

impl Clone for TradeRecord {
    fn clone(&self) -> (r: Self)
        ensures
            r == *self,
    {
        TradeRecord {
            event_time: self.event_time,
            symbol: self.symbol.clone(),
            kind: self.kind,
            side: self.side,
            channel_no: self.channel_no,
            sequence: self.sequence,
            bid_order_id: self.bid_order_id,
            ask_order_id: self.ask_order_id,
            price: self.price,
            quantity: self.quantity,
        }
    }
}

/// A legacy record.
#[derive(Debug, PartialEq, Eq)]
pub enum MarketDataRecord {
    Order(OrderRecord),
    Trade(TradeRecord),
}

impl Clone for MarketDataRecord {
    fn clone(&self) -> (r: Self)
        ensures
            r == *self,
    {
        match self {
            MarketDataRecord::Order(order) => MarketDataRecord::Order(order.clone()),
            MarketDataRecord::Trade(trade) => MarketDataRecord::Trade(trade.clone()),
        }
    }
}

/// Price resolution performed against the current book at apply time.
#[derive(Clone, Copy, Debug, PartialEq, Eq, Structural)]
pub enum PricingInstruction {
    Provided(Price),
    SameSideBest,
    OppositeBest,
    /// No effective price is available or needed for an always-hidden order.
    Unpriced,
}

/// Placement behavior after the effective price is resolved.
#[derive(Clone, Copy, Debug, PartialEq, Eq, Structural)]
pub enum CrossingBehavior {
    Rest,
    HideIfCrossing,
    /// Start as an aggressive hidden order, then price any unfilled remainder
    /// at the latest trade price and let it rest once it no longer crosses.
    ///
    /// Shenzhen `OrdType='1'` market orders use this market-to-limit behavior.
    RestAtLastTradePrice,
    /// Keep the order out of visible depth for its entire lifetime.
    AlwaysHide,
}

/// Reference to one side of a trade.
#[derive(Clone, Copy, Debug, PartialEq, Eq, Structural)]
pub enum OrderReference {
    Absent,
    Resolved(OrderKey),
    Unresolved { side: Side, order_id: OrderId },
}

#[derive(Debug, PartialEq, Eq)]
pub struct AddOrder {
    pub meta: EventMeta,
    pub order_key: OrderKey,
    pub pricing: PricingInstruction,
    pub crossing: CrossingBehavior,
    pub quantity: Quantity,
}

impl Clone for AddOrder {
    fn clone(&self) -> (r: Self)
        ensures
            r == *self,
    {
        AddOrder {
            meta: self.meta.clone(),
            order_key: self.order_key,
            pricing: self.pricing,
            crossing: self.crossing,
            quantity: self.quantity,
        }
    }
}

#[derive(Debug, PartialEq, Eq)]
pub struct OrderCancel {
    pub meta: EventMeta,
    pub order_key: OrderKey,
}

impl Clone for OrderCancel {
    fn clone(&self) -> (r: Self)
        ensures
            r == *self,
    {
        OrderCancel { meta: self.meta.clone(), order_key: self.order_key }
    }
}

#[derive(Debug, PartialEq, Eq)]
pub struct Trade {
    pub meta: EventMeta,
    pub bid_order: OrderReference,
    pub ask_order: OrderReference,
    pub price: Price,
    pub quantity: Quantity,
}

impl Clone for Trade {
    fn clone(&self) -> (r: Self)
        ensures
            r == *self,
    {
        Trade {
            meta: self.meta.clone(),
            bid_order: self.bid_order,
            ask_order: self.ask_order,
            price: self.price,
            quantity: self.quantity,
        }
    }
}

/// Event accepted by the deterministic order-book state machine.
#[derive(Debug, PartialEq, Eq)]
pub enum BookEvent {
    AddOrder(AddOrder),
    OrderCancel(OrderCancel),
    Trade(Trade),
}

impl Clone for BookEvent {
    fn clone(&self) -> (r: Self)
        ensures
            r == *self,
    {
        match self {
            BookEvent::AddOrder(event) => BookEvent::AddOrder(event.clone()),
            BookEvent::OrderCancel(event) => BookEvent::OrderCancel(event.clone()),
            BookEvent::Trade(event) => BookEvent::Trade(event.clone()),
        }
    }
}

impl BookEvent {
    pub open spec fn spec_meta(self) -> EventMeta {
        match self {
            BookEvent::AddOrder(event) => event.meta,
            BookEvent::OrderCancel(event) => event.meta,
            BookEvent::Trade(event) => event.meta,
        }
    }

    #[must_use]
    pub fn meta(&self) -> (r: &EventMeta)
        ensures
            *r == self.spec_meta(),
    {
        match self {
            BookEvent::AddOrder(event) => &event.meta,
            BookEvent::OrderCancel(event) => &event.meta,
            BookEvent::Trade(event) => &event.meta,
        }
    }
}

} // verus!
