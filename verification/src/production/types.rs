use vstd::prelude::*;
use vstd::string::StringExecFns;

use crate::market_data::{Market, Symbol, TradingDay};
use crate::order_book::{market_name, market_text};
use crate::text::same_text;

use super::duration::Duration;

verus! {

/// Integer price units of replay and validation.
///
/// One unit represents CNY 0.0001. This is a storage scale, not an exchange tick size.
pub const PRODUCTION_PRICE_MULTIPLIER: u64 = 10_000;

/// Decimal places of the price unit.
pub const PRODUCTION_PRICE_DECIMAL_PLACES: u8 = 4;

/// Which securities of a market are wanted.
#[derive(Debug, PartialEq, Eq)]
pub enum TargetUniverse {
    AllStocks,
    AllEtfs,
    AllStocksAndEtfs,
    Symbols(Vec<Symbol>),
}

/// Whether a text is a six-digit code that begins with one of the given three digits.
pub open spec fn is_code(symbol: Seq<char>, prefixes: Seq<Seq<char>>) -> bool {
    &&& symbol.len() == 6
    &&& forall|i: int| 0 <= i < 6 ==> '0' <= #[trigger] symbol[i] <= '9'
    &&& prefixes.contains(symbol.take(3))
}

pub open spec fn stock_prefixes(market: Market) -> Seq<Seq<char>> {
    match market {
        Market::Sse => seq!["600"@, "601"@, "603"@, "605"@, "688"@, "689"@],
        Market::Szse => seq!["000"@, "001"@, "002"@, "003"@, "300"@, "301"@, "302"@],
    }
}

pub open spec fn etf_prefixes(market: Market) -> Seq<Seq<char>> {
    match market {
        Market::Sse => seq![
            "510"@,
            "511"@,
            "512"@,
            "513"@,
            "515"@,
            "516"@,
            "517"@,
            "518"@,
            "560"@,
            "561"@,
            "562"@,
            "563"@,
            "588"@,
        ],
        Market::Szse => seq!["159"@],
    }
}

pub open spec fn chinext_prefixes() -> Seq<Seq<char>> {
    seq!["300"@, "301"@, "302"@]
}

pub open spec fn spec_is_stock(market: Market, symbol: Seq<char>) -> bool {
    is_code(symbol, stock_prefixes(market))
}

pub open spec fn spec_is_etf(market: Market, symbol: Seq<char>) -> bool {
    is_code(symbol, etf_prefixes(market))
}

pub open spec fn spec_is_supported(market: Market, symbol: Seq<char>) -> bool {
    spec_is_stock(market, symbol) || spec_is_etf(market, symbol)
}

pub open spec fn spec_is_chinext(symbol: Seq<char>) -> bool {
    spec_is_stock(Market::Szse, symbol) && chinext_prefixes().contains(symbol.take(3))
}

/// The first three digits of a six-digit code.
fn code_prefix(symbol: &str) -> (r: Option<&str>)
    ensures
        r is Some <==> symbol@.len() == 6 && forall|i: int|
            0 <= i < 6 ==> '0' <= #[trigger] symbol@[i] <= '9',
        r is Some ==> r->0@ == symbol@.take(3),
{
    if symbol.unicode_len() != 6 {
        return None;
    }
    let mut at: usize = 0;
    while at < 6
        invariant
            symbol@.len() == 6,
            at <= 6,
            forall|i: int| 0 <= i < at ==> '0' <= #[trigger] symbol@[i] <= '9',
        decreases 6 - at,
    {
        let c = symbol.get_char(at);
        if c < '0' || c > '9' {
            return None;
        }
        at = at + 1;
    }
    let prefix = symbol.substring_char(0, 3);
    assert(prefix@ =~= symbol@.take(3));
    Some(prefix)
}

fn one_of(prefix: &str, prefixes: &[&'static str]) -> (r: bool)
    ensures
        r <==> exists|i: int| 0 <= i < prefixes@.len() && (#[trigger] prefixes@[i])@ == prefix@,
{
    let mut at: usize = 0;
    while at < prefixes.len()
        invariant
            at <= prefixes@.len(),
            forall|i: int| 0 <= i < at ==> (#[trigger] prefixes@[i])@ != prefix@,
        decreases prefixes@.len() - at,
    {
        if same_text(prefix, prefixes[at]) {
            return true;
        }
        at = at + 1;
    }
    false
}

#[must_use]
pub fn is_stock_symbol(market: Market, symbol: &str) -> (r: bool)
    ensures
        r == spec_is_stock(market, symbol@),
{
    let prefix = match code_prefix(symbol) {
        Some(prefix) => prefix,
        None => return false,
    };
    let ghost wanted = stock_prefixes(market);
    match market {
        Market::Sse => {
            let prefixes = ["600", "601", "603", "605", "688", "689"];
            let r = one_of(prefix, &prefixes);
            proof {
                lemma_listed(prefixes@, wanted, prefix@);
            }
            r
        },
        Market::Szse => {
            let prefixes = ["000", "001", "002", "003", "300", "301", "302"];
            let r = one_of(prefix, &prefixes);
            proof {
                lemma_listed(prefixes@, wanted, prefix@);
            }
            r
        },
    }
}

/// Listed texts as texts and as literals.
proof fn lemma_listed(literals: Seq<&'static str>, texts: Seq<Seq<char>>, text: Seq<char>)
    requires
        literals.len() == texts.len(),
        forall|i: int| 0 <= i < literals.len() ==> (#[trigger] literals[i])@ == texts[i],
    ensures
        texts.contains(text) <==> exists|i: int|
            0 <= i < literals.len() && (#[trigger] literals[i])@ == text,
{
    if texts.contains(text) {
        let i = choose|i: int| 0 <= i < texts.len() && texts[i] == text;
        assert(literals[i]@ == text);
    }
}

#[must_use]
pub fn is_etf_symbol(market: Market, symbol: &str) -> (r: bool)
    ensures
        r == spec_is_etf(market, symbol@),
{
    let prefix = match code_prefix(symbol) {
        Some(prefix) => prefix,
        None => return false,
    };
    let ghost wanted = etf_prefixes(market);
    match market {
        Market::Sse => {
            let prefixes = [
                "510",
                "511",
                "512",
                "513",
                "515",
                "516",
                "517",
                "518",
                "560",
                "561",
                "562",
                "563",
                "588",
            ];
            let r = one_of(prefix, &prefixes);
            proof {
                lemma_listed(prefixes@, wanted, prefix@);
            }
            r
        },
        Market::Szse => {
            let prefixes = ["159"];
            let r = one_of(prefix, &prefixes);
            proof {
                lemma_listed(prefixes@, wanted, prefix@);
            }
            r
        },
    }
}

#[must_use]
pub fn is_supported_symbol(market: Market, symbol: &str) -> (r: bool)
    ensures
        r == spec_is_supported(market, symbol@),
{
    is_stock_symbol(market, symbol) || is_etf_symbol(market, symbol)
}

/// Current SZ ChiNext code ranges; not the SSE STAR Market.
#[must_use]
pub fn is_chinext_symbol(symbol: &str) -> (r: bool)
    ensures
        r == spec_is_chinext(symbol@),
{
    if !is_stock_symbol(Market::Szse, symbol) {
        return false;
    }
    match code_prefix(symbol) {
        Some(prefix) => {
            let prefixes = ["300", "301", "302"];
            let r = one_of(prefix, &prefixes);
            proof {
                lemma_listed(prefixes@, chinext_prefixes(), prefix@);
            }
            r
        },
        None => false,
    }
}

impl TargetUniverse {
    /// Whether a security is wanted.
    pub open spec fn spec_contains(self, market: Market, symbol: Seq<char>) -> bool {
        match self {
            TargetUniverse::AllStocks => spec_is_stock(market, symbol),
            TargetUniverse::AllEtfs => spec_is_etf(market, symbol),
            TargetUniverse::AllStocksAndEtfs => spec_is_supported(market, symbol),
            TargetUniverse::Symbols(symbols) => spec_names(symbols@, symbol),
        }
    }

    #[must_use]
    pub fn contains(&self, market: Market, symbol: &str) -> (r: bool)
        ensures
            r == self.spec_contains(market, symbol@),
    {
        match self {
            TargetUniverse::AllStocks => is_stock_symbol(market, symbol),
            TargetUniverse::AllEtfs => is_etf_symbol(market, symbol),
            TargetUniverse::AllStocksAndEtfs => is_supported_symbol(market, symbol),
            TargetUniverse::Symbols(symbols) => names(symbols, symbol),
        }
    }
}

/// Whether a symbol is listed.
pub open spec fn spec_names(symbols: Seq<Symbol>, symbol: Seq<char>) -> bool {
    exists|i: int| 0 <= i < symbols.len() && (#[trigger] symbols[i])@ == symbol
}

fn names(symbols: &Vec<Symbol>, symbol: &str) -> (r: bool)
    ensures
        r == spec_names(symbols@, symbol@),
{
    let mut at: usize = 0;
    while at < symbols.len()
        invariant
            at <= symbols@.len(),
            forall|i: int| 0 <= i < at ==> (#[trigger] symbols@[i])@ != symbol@,
        decreases symbols@.len() - at,
    {
        if same_text(symbols[at].as_str(), symbol) {
            assert(symbols@[at as int]@ == symbol@);
            return true;
        }
        at = at + 1;
    }
    false
}

#[derive(Clone, Copy, Debug, PartialEq, Eq, Structural)]
pub enum SnapshotKind {
    Scheduled,
    MarketClose,
}

#[derive(Clone, Copy, Debug, PartialEq, Eq, Hash, Structural)]
pub enum ValidationAnchor {
    PreOpen,
    ContinuousTrading,
    MarketClose,
}

/// At which interval and to which depth books are recorded.
#[derive(Clone, Copy, Debug, PartialEq, Eq, Structural)]
pub struct SnapshotSchedule {
    pub interval: Duration,
    pub depth: usize,
}

impl SnapshotSchedule {
    /// Why there is no such schedule.
    pub open spec fn spec_error(interval: Duration, depth: usize) -> Option<Seq<char>> {
        if interval.spec_nanos() == 0 {
            Some("snapshot interval must be positive"@)
        } else if interval.spec_nanos() > i64::MAX {
            Some("snapshot interval is too large"@)
        } else if depth == 0 {
            Some("snapshot depth must be positive"@)
        } else {
            None
        }
    }

    pub fn new(interval: Duration, depth: usize) -> (r: Result<Self, String>)
        ensures
            match Self::spec_error(interval, depth) {
                Some(error) => r is Err && r->Err_0@ == error,
                None => r == Ok::<Self, String>(SnapshotSchedule { interval, depth }),
            },
    {
        if interval.is_zero() {
            return Err(String::from_str("snapshot interval must be positive"));
        }
        if interval.as_nanos() > i64::MAX as u128 {
            return Err(String::from_str("snapshot interval is too large"));
        }
        if depth == 0 {
            return Err(String::from_str("snapshot depth must be positive"));
        }
        Ok(Self { interval, depth })
    }
}

/// How to handle market remainders when the source omits execution qualifiers.
#[derive(Clone, Copy, Debug, Default, PartialEq, Eq, Structural)]
pub enum SzMarketOrderPolicy {
    /// Practical replay: hidden orders rest at their own latest execution price
    /// once they no longer cross. Does not certify exact intermediate states.
    RestAtLastTradePrice,
    /// Reject remainders whose disposition cannot be established from the feed.
    #[default]
    RequireEvidence,
    /// Diagnostic only: assume one order's immediate responses are contiguous.
    /// This is not a verified Tonglian protocol guarantee.
    AssumeContiguous,
}

/// One market day to replay. The roots name directories.
#[derive(Debug, PartialEq, Eq)]
pub struct MarketDayRequest {
    pub raw_root: String,
    pub output_root: String,
    pub temp_root: String,
    pub trading_day: TradingDay,
    pub market: Market,
    pub targets: TargetUniverse,
    pub snapshots: Option<SnapshotSchedule>,
    pub batch_size: usize,
    pub sz_market_order_policy: SzMarketOrderPolicy,
}

impl MarketDayRequest {
    pub open spec fn unsupported_text(self, symbol: Seq<char>) -> Seq<char> {
        "symbol "@ + symbol + " is not a supported stock or ETF for "@ + market_text(self.market)
    }

    /// The place of the first explicit symbol that the market does not have.
    pub open spec fn first_unsupported(self, symbols: Seq<Symbol>, at: int) -> bool {
        &&& 0 <= at < symbols.len()
        &&& !spec_is_supported(self.market, symbols[at]@)
        &&& forall|i: int|
            0 <= i < at ==> spec_is_supported(self.market, (#[trigger] symbols[i])@)
    }

    /// Whether the request can be served as far as it shows by itself.
    pub open spec fn spec_valid(self) -> bool {
        &&& self.market == Market::Szse || self.sz_market_order_policy
            == SzMarketOrderPolicy::RequireEvidence
        &&& self.batch_size > 0
        &&& self.targets matches TargetUniverse::Symbols(symbols) ==> {
            &&& symbols@.len() > 0
            &&& forall|i: int|
                0 <= i < symbols@.len() ==> spec_is_supported(
                    self.market,
                    (#[trigger] symbols@[i])@,
                )
        }
    }

    /// Whether a text is what keeps the request from being served.
    pub open spec fn is_complaint(self, text: Seq<char>) -> bool {
        if self.market != Market::Szse && self.sz_market_order_policy
            != SzMarketOrderPolicy::RequireEvidence {
            text == "SZ market-order policy is only valid for SZ requests"@
        } else if self.batch_size == 0 {
            text == "batch size must be positive"@
        } else {
            self.targets matches TargetUniverse::Symbols(symbols) && if symbols@.len() == 0 {
                text == "explicit symbol list must not be empty"@
            } else {
                exists|at: int| #[trigger]
                    self.first_unsupported(symbols@, at) && text == self.unsupported_text(
                        symbols@[at]@,
                    )
            }
        }
    }

    pub fn validate(&self) -> (r: Result<(), String>)
        ensures
            r is Ok <==> self.spec_valid(),
            r is Err ==> self.is_complaint(r->Err_0@),
    {
        if self.market != Market::Szse && self.sz_market_order_policy
            != SzMarketOrderPolicy::RequireEvidence {
            return Err(String::from_str("SZ market-order policy is only valid for SZ requests"));
        }
        if self.batch_size == 0 {
            return Err(String::from_str("batch size must be positive"));
        }
        if let TargetUniverse::Symbols(symbols) = &self.targets {
            if symbols.len() == 0 {
                return Err(String::from_str("explicit symbol list must not be empty"));
            }
            let mut at: usize = 0;
            while at < symbols.len()
                invariant
                    self.targets == TargetUniverse::Symbols(*symbols),
                    symbols@.len() > 0,
                    self.batch_size > 0,
                    self.market == Market::Szse || self.sz_market_order_policy
                        == SzMarketOrderPolicy::RequireEvidence,
                    at <= symbols@.len(),
                    forall|i: int|
                        0 <= i < at ==> spec_is_supported(
                            self.market,
                            (#[trigger] symbols@[i])@,
                        ),
                decreases symbols@.len() - at,
            {
                if !is_supported_symbol(self.market, symbols[at].as_str()) {
                    assert(self.first_unsupported(symbols@, at as int));
                    let mut text = String::from_str("symbol ");
                    text.append(symbols[at].as_str());
                    text.append(" is not a supported stock or ETF for ");
                    text.append(market_name(self.market));
                    return Err(text);
                }
                at = at + 1;
            }
        }
        Ok(())
    }
}

#[derive(Debug, PartialEq, Eq)]
pub struct ValidationConfig {
    pub request: MarketDayRequest,
    /// Optional lookback before each continuous snapshot timestamp.
    ///
    /// `None` keeps the market default: SSE uses one second and SZSE uses zero.
    /// It shifts only the window start, without changing the per-symbol horizon
    /// or replay ordering.
    pub continuous_lookback: Option<Duration>,
    /// Optional diagnostic horizon after each continuous snapshot timestamp.
    ///
    /// `None` selects the standard per-symbol horizon: SZ ChiNext uses three
    /// seconds, SZ ETFs use 1,100 milliseconds, and other supported securities
    /// use one second. An explicit
    /// override is reported as diagnostic mode, not standard acceptance.
    pub continuous_lookahead: Option<Duration>,
    /// Keep one report record for every successful reference frame.
    ///
    /// Full-market validation should normally disable this: aggregate counts
    /// still cover every frame, while `records` retains only mismatches and
    /// non-comparable cases.
    pub retain_matched_records: bool,
    /// Optional cap for retained mismatch/not-comparable detail records.
    /// Aggregate counts always cover every evaluated reference frame.
    pub max_detail_records: Option<usize>,
}

/// The policy for Shenzhen market orders that options ask for. Without any, Shenzhen replays
/// let orders rest at their last trade price.
pub fn request_policy(
    market: Market,
    chosen: Option<SzMarketOrderPolicy>,
    assume_contiguous: bool,
) -> (r: Result<SzMarketOrderPolicy, String>)
    ensures
        if market != Market::Szse && (chosen is Some || assume_contiguous) {
            r is Err && r->Err_0@ == "SZ market-order policy is only valid for SZ requests"@
        } else {
            r == Ok::<SzMarketOrderPolicy, String>(
                if assume_contiguous {
                    SzMarketOrderPolicy::AssumeContiguous
                } else if chosen is Some {
                    chosen->0
                } else if market == Market::Szse {
                    SzMarketOrderPolicy::RestAtLastTradePrice
                } else {
                    SzMarketOrderPolicy::RequireEvidence
                },
            )
        },
{
    if market != Market::Szse && (chosen.is_some() || assume_contiguous) {
        return Err(String::from_str("SZ market-order policy is only valid for SZ requests"));
    }
    if assume_contiguous {
        return Ok(SzMarketOrderPolicy::AssumeContiguous);
    }
    match chosen {
        Some(policy) => Ok(policy),
        None => if market == Market::Szse {
            Ok(SzMarketOrderPolicy::RestAtLastTradePrice)
        } else {
            Ok(SzMarketOrderPolicy::RequireEvidence)
        },
    }
}

/// The securities that options ask for: explicit ones, or else all stocks, ETFs or both.
pub fn request_targets(symbols: Vec<Symbol>, only_etfs: bool, include_etfs: bool) -> (r:
    TargetUniverse)
    ensures
        r == if symbols@.len() > 0 {
            TargetUniverse::Symbols(symbols)
        } else if only_etfs {
            TargetUniverse::AllEtfs
        } else if include_etfs {
            TargetUniverse::AllStocksAndEtfs
        } else {
            TargetUniverse::AllStocks
        },
{
    if symbols.len() > 0 {
        TargetUniverse::Symbols(symbols)
    } else if only_etfs {
        TargetUniverse::AllEtfs
    } else if include_etfs {
        TargetUniverse::AllStocksAndEtfs
    } else {
        TargetUniverse::AllStocks
    }
}

} // verus!
