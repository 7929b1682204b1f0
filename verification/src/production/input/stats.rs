//! Counts of raw rows, and which of them are selected.

use vstd::prelude::*;

use crate::market_data::{Market, Symbol};

use super::super::error::{ErrorModel, ProductionError};
use super::super::replay::{bump, bump_error};
use super::super::symbol_map::SymbolMap;
use super::super::time::MarketTimestampParser;
use super::super::types::{is_supported_symbol, spec_is_supported, MarketDayRequest};
use super::fields::{
    optional_text, parse_timestamp_field, required_str, text_result, timestamp_field_result,
};

verus! {

/// Counts of the raw rows of a market day, and the channel of each selected symbol.
pub struct IngestStats {
    pub input_rows: u64,
    pub selected_rows: u64,
    pub excluded_rows: u64,
    pub excluded_after_cutoff_rows: u64,
    pub excluded_non_stock_rows: u64,
    pub excluded_unselected_stock_rows: u64,
    pub channels: usize,
    pub symbol_channels: SymbolMap<u32>,
}

#[verifier::ext_equal]
pub struct StatsModel {
    pub input_rows: u64,
    pub selected_rows: u64,
    pub excluded_rows: u64,
    pub excluded_after_cutoff_rows: u64,
    pub excluded_non_stock_rows: u64,
    pub excluded_unselected_stock_rows: u64,
    pub channels: usize,
    pub symbol_channels: Map<Seq<char>, u32>,
}

impl View for IngestStats {
    type V = StatsModel;

    open spec fn view(&self) -> StatsModel {
        StatsModel {
            input_rows: self.input_rows,
            selected_rows: self.selected_rows,
            excluded_rows: self.excluded_rows,
            excluded_after_cutoff_rows: self.excluded_after_cutoff_rows,
            excluded_non_stock_rows: self.excluded_non_stock_rows,
            excluded_unselected_stock_rows: self.excluded_unselected_stock_rows,
            channels: self.channels,
            symbol_channels: self.symbol_channels@,
        }
    }
}

impl StatsModel {
    pub open spec fn empty() -> Self {
        StatsModel {
            input_rows: 0,
            selected_rows: 0,
            excluded_rows: 0,
            excluded_after_cutoff_rows: 0,
            excluded_non_stock_rows: 0,
            excluded_unselected_stock_rows: 0,
            channels: 0,
            symbol_channels: Map::empty(),
        }
    }

    /// How many rows were selected or excluded.
    pub open spec fn settled(self) -> int {
        self.selected_rows + self.excluded_rows + self.excluded_after_cutoff_rows
    }

    /// No row is counted twice.
    pub open spec fn wf(self) -> bool {
        &&& self.settled() <= self.input_rows
        &&& self.excluded_rows == self.excluded_non_stock_rows
            + self.excluded_unselected_stock_rows
    }

    /// One more row was read.
    pub open spec fn read(self) -> Self {
        StatsModel { input_rows: (self.input_rows + 1) as u64, ..self }
    }

    /// The row was selected.
    pub open spec fn select(self) -> Self {
        StatsModel { selected_rows: (self.selected_rows + 1) as u64, ..self }
    }

    /// Why the channel of a symbol is in conflict with the one it had.
    pub open spec fn conflict(self, symbol: Seq<char>, channel: u32) -> Option<ErrorModel> {
        if self.symbol_channels.contains_key(symbol) && self.symbol_channels[symbol] != channel {
            Some(
                ErrorModel::SymbolChannelConflict {
                    symbol,
                    first_channel: self.symbol_channels[symbol],
                    second_channel: channel,
                },
            )
        } else {
            None
        }
    }

    pub open spec fn registered(self, symbol: Seq<char>, channel: u32) -> Self {
        StatsModel { symbol_channels: self.symbol_channels.insert(symbol, channel), ..self }
    }
}

/// What the selection of a row came to: the counts it leaves, and its symbol and time if it
/// is selected so far.
pub struct Selection {
    pub stats: StatsModel,
    pub outcome: Result<Option<(Seq<char>, i64)>, ErrorModel>,
}

impl StatsModel {
    /// Decides whether a row that was read is selected: its symbol is one of the market, the
    /// request asks for it, and its time is before the cutoff. Its symbol must keep to one
    /// channel.
    pub open spec fn selection(
        self,
        request: MarketDayRequest,
        market: Market,
        midnight: int,
        cutoff: Option<i64>,
        source_row: u64,
        channel: u32,
        symbol: Option<Seq<char>>,
        time: Option<Seq<char>>,
        time_field: Seq<char>,
    ) -> Selection {
        match text_result(symbol, source_row, "SecurityID"@) {
            Err(error) => Selection { stats: self, outcome: Err(error) },
            Ok(symbol) => if !spec_is_supported(market, symbol) {
                Selection {
                    stats: StatsModel {
                        excluded_rows: (self.excluded_rows + 1) as u64,
                        excluded_non_stock_rows: (self.excluded_non_stock_rows + 1) as u64,
                        ..self
                    },
                    outcome: Ok(None),
                }
            } else if !request.targets.spec_contains(market, symbol) {
                Selection {
                    stats: StatsModel {
                        excluded_rows: (self.excluded_rows + 1) as u64,
                        excluded_unselected_stock_rows: (self.excluded_unselected_stock_rows
                            + 1) as u64,
                        ..self
                    },
                    outcome: Ok(None),
                }
            } else {
                match timestamp_field_result(midnight, time, source_row, time_field) {
                    Err(error) => Selection { stats: self, outcome: Err(error) },
                    Ok(nanos) => if cutoff is Some && nanos >= cutoff->0 {
                        Selection {
                            stats: StatsModel {
                                excluded_after_cutoff_rows: (self.excluded_after_cutoff_rows
                                    + 1) as u64,
                                ..self
                            },
                            outcome: Ok(None),
                        }
                    } else {
                        Selection {
                            stats: self.registered(symbol, channel),
                            outcome: match self.conflict(symbol, channel) {
                                Some(error) => Err(error),
                                None => Ok(Some((symbol, nanos))),
                            },
                        }
                    },
                }
            },
        }
    }
}

impl Default for IngestStats {
    fn default() -> (r: Self)
        ensures
            r.wf(),
            r@ == StatsModel::empty(),
    {
        IngestStats {
            input_rows: 0,
            selected_rows: 0,
            excluded_rows: 0,
            excluded_after_cutoff_rows: 0,
            excluded_non_stock_rows: 0,
            excluded_unselected_stock_rows: 0,
            channels: 0,
            symbol_channels: SymbolMap::new(),
        }
    }
}

impl IngestStats {
    pub open spec fn wf(self) -> bool {
        self@.wf() && self.symbol_channels.wf()
    }

    /// Counts a row that was read.
    pub(crate) fn count_input(&mut self) -> (r: Result<(), ProductionError>)
        requires
            old(self).wf(),
        ensures
            final(self).wf(),
            match bump_error(old(self).input_rows, "input row count"@) {
                Some(error) => r is Err && r->Err_0@ == error && final(self)@ == old(self)@,
                None => r is Ok && final(self)@ == old(self)@.read(),
            },
    {
        self.input_rows = match bump(self.input_rows, "input row count") {
            Ok(count) => count,
            Err(error) => return Err(error),
        };
        Ok(())
    }

    /// Decides whether a row that was read is selected.
    pub(crate) fn select(
        &mut self,
        request: &MarketDayRequest,
        market: Market,
        parser: &MarketTimestampParser,
        cutoff: Option<i64>,
        source_row: u64,
        channel: u32,
        symbol: &Option<String>,
        time: &Option<String>,
        time_field: &'static str,
    ) -> (r: Result<Option<(String, i64)>, ProductionError>)
        requires
            old(self).wf(),
            old(self)@.settled() < old(self).input_rows,
        ensures
            final(self).wf(),
            ({
                let selection = old(self)@.selection(
                    *request,
                    market,
                    parser.spec_midnight() as int,
                    cutoff,
                    source_row,
                    channel,
                    optional_text(*symbol),
                    optional_text(*time),
                    time_field@,
                );
                &&& final(self)@ == selection.stats
                &&& match selection.outcome {
                    Ok(Some((symbol, nanos))) => {
                        &&& r is Ok
                        &&& r->Ok_0 is Some
                        &&& (r->Ok_0->0).0@ == symbol
                        &&& (r->Ok_0->0).1 == nanos
                        &&& final(self)@.settled() == old(self)@.settled()
                    },
                    Ok(None) => {
                        &&& r is Ok
                        &&& r->Ok_0 is None
                        &&& final(self)@.settled() == old(self)@.settled() + 1
                    },
                    Err(error) => r is Err && r->Err_0@ == error,
                }
            }),
            final(self).input_rows == old(self).input_rows,
    {
        let symbol = match required_str(symbol, source_row, "SecurityID") {
            Ok(symbol) => symbol,
            Err(error) => return Err(error),
        };
        if !is_supported_symbol(market, symbol.as_str()) {
            self.excluded_rows = self.excluded_rows + 1;
            self.excluded_non_stock_rows = self.excluded_non_stock_rows + 1;
            return Ok(None);
        }
        if !request.targets.contains(market, symbol.as_str()) {
            self.excluded_rows = self.excluded_rows + 1;
            self.excluded_unselected_stock_rows = self.excluded_unselected_stock_rows + 1;
            return Ok(None);
        }
        let quote_time_ns = match parse_timestamp_field(parser, time, source_row, time_field) {
            Ok(nanos) => nanos,
            Err(error) => return Err(error),
        };
        if let Some(cutoff) = cutoff {
            if quote_time_ns >= cutoff {
                self.excluded_after_cutoff_rows = self.excluded_after_cutoff_rows + 1;
                return Ok(None);
            }
        }
        match register_symbol_channel(self, symbol.as_str(), channel) {
            Ok(()) => Ok(Some((symbol, quote_time_ns))),
            Err(error) => Err(error),
        }
    }
}

/// Notes the channel of a symbol, which must be the one it had. A conflict still overwrites
/// the channel.
pub fn register_symbol_channel(stats: &mut IngestStats, symbol: &str, channel: u32) -> (r: Result<
    (),
    ProductionError,
>)
    requires
        old(stats).wf(),
    ensures
        final(stats).wf(),
        final(stats)@ == old(stats)@.registered(symbol@, channel),
        match old(stats)@.conflict(symbol@, channel) {
            Some(error) => r is Err && r->Err_0@ == error,
            None => r is Ok,
        },
{
    let known = match stats.symbol_channels.get(symbol) {
        Some(first_channel) => Some(*first_channel),
        None => None,
    };
    match known {
        None => {
            stats.symbol_channels.insert(symbol, channel);
            Ok(())
        },
        Some(first_channel) => {
            let registered = stats.symbol_channels.get_mut(symbol);
            *registered = channel;
            if first_channel != channel {
                return Err(
                    ProductionError::SymbolChannelConflict {
                        symbol: Symbol::from(symbol),
                        first_channel,
                        second_channel: channel,
                    },
                );
            }
            Ok(())
        },
    }
}

} // verus!
