use vstd::prelude::*;
use vstd::string::StringExecFns;

use crate::market_data::{Market, Symbol};
use crate::order_book::{market_name, market_text, BookError};
use crate::text::{i64_text, int_text, nat_text, u64_text};

verus! {

/// Why a market day cannot be replayed or validated.
#[derive(Debug, PartialEq, Eq)]
#[allow(inconsistent_fields)]
pub enum ProductionError {
    UnresolvedSzOrder {
        symbol: String,
        channel: u32,
        order_sequence: u64,
        last_sequence: u64,
        detail: &'static str,
    },
    InvalidField { source_row: u64, field: &'static str, detail: String },
    InvalidRequest(String),
    NonIncreasingSequence {
        market: Market,
        channel: u32,
        sequence_name: &'static str,
        previous: u64,
        current: u64,
    },
    AmbiguousSequence { channel: u32, sequence: u64 },
    QuoteTimeRegression { symbol: Symbol, previous: i64, current: i64 },
    SymbolChannelConflict { symbol: Symbol, first_channel: u32, second_channel: u32 },
    Normalize { symbol: Symbol, sequence: u64, detail: String },
    Apply { symbol: Symbol, sequence: u64, source: BookError },
    Validation(String),
    Arithmetic(&'static str),
}

/// An error with its texts as sequences of characters.
#[allow(inconsistent_fields)]
pub enum ErrorModel {
    UnresolvedSzOrder {
        symbol: Seq<char>,
        channel: u32,
        order_sequence: u64,
        last_sequence: u64,
        detail: Seq<char>,
    },
    InvalidField { source_row: u64, field: Seq<char>, detail: Seq<char> },
    InvalidRequest(Seq<char>),
    NonIncreasingSequence {
        market: Market,
        channel: u32,
        sequence_name: Seq<char>,
        previous: u64,
        current: u64,
    },
    AmbiguousSequence { channel: u32, sequence: u64 },
    QuoteTimeRegression { symbol: Seq<char>, previous: i64, current: i64 },
    SymbolChannelConflict { symbol: Seq<char>, first_channel: u32, second_channel: u32 },
    Normalize { symbol: Seq<char>, sequence: u64, detail: Seq<char> },
    Apply { symbol: Seq<char>, sequence: u64, source: BookError },
    Validation(Seq<char>),
    Arithmetic(Seq<char>),
}

impl View for ProductionError {
    type V = ErrorModel;

    open spec fn view(&self) -> ErrorModel {
        match *self {
            ProductionError::UnresolvedSzOrder {
                symbol,
                channel,
                order_sequence,
                last_sequence,
                detail,
            } => ErrorModel::UnresolvedSzOrder {
                symbol: symbol@,
                channel,
                order_sequence,
                last_sequence,
                detail: detail@,
            },
            ProductionError::InvalidField { source_row, field, detail } =>
                ErrorModel::InvalidField { source_row, field: field@, detail: detail@ },
            ProductionError::InvalidRequest(detail) => ErrorModel::InvalidRequest(detail@),
            ProductionError::NonIncreasingSequence {
                market,
                channel,
                sequence_name,
                previous,
                current,
            } => ErrorModel::NonIncreasingSequence {
                market,
                channel,
                sequence_name: sequence_name@,
                previous,
                current,
            },
            ProductionError::AmbiguousSequence { channel, sequence } =>
                ErrorModel::AmbiguousSequence { channel, sequence },
            ProductionError::QuoteTimeRegression { symbol, previous, current } =>
                ErrorModel::QuoteTimeRegression { symbol: symbol@, previous, current },
            ProductionError::SymbolChannelConflict { symbol, first_channel, second_channel } =>
                ErrorModel::SymbolChannelConflict {
                symbol: symbol@,
                first_channel,
                second_channel,
            },
            ProductionError::Normalize { symbol, sequence, detail } => ErrorModel::Normalize {
                symbol: symbol@,
                sequence,
                detail: detail@,
            },
            ProductionError::Apply { symbol, sequence, source } => ErrorModel::Apply {
                symbol: symbol@,
                sequence,
                source,
            },
            ProductionError::Validation(detail) => ErrorModel::Validation(detail@),
            ProductionError::Arithmetic(what) => ErrorModel::Arithmetic(what@),
        }
    }
}

impl ErrorModel {
    /// What the error says.
    pub open spec fn text(self) -> Seq<char> {
        match self {
            ErrorModel::UnresolvedSzOrder {
                symbol,
                channel,
                order_sequence,
                last_sequence,
                detail,
            } => "unresolved Shenzhen order "@ + nat_text(order_sequence as nat) + " for "@
                + symbol + " in channel "@ + nat_text(channel as nat) + " after sequence "@
                + nat_text(last_sequence as nat) + ": "@ + detail,
            ErrorModel::InvalidField { source_row, field, detail } => "invalid "@ + field
                + " at source row "@ + nat_text(source_row as nat) + ": "@ + detail,
            ErrorModel::InvalidRequest(detail) => "invalid request: "@ + detail,
            ErrorModel::NonIncreasingSequence {
                market,
                channel,
                sequence_name,
                previous,
                current,
            } => "non-increasing "@ + sequence_name + " in "@ + market_text(market) + " channel "@
                + nat_text(channel as nat) + ": "@ + nat_text(previous as nat) + " then "@
                + nat_text(current as nat),
            ErrorModel::AmbiguousSequence { channel, sequence } =>
                "ambiguous Shenzhen ApplSeqNum "@ + nat_text(sequence as nat) + " in channel "@
                + nat_text(channel as nat),
            ErrorModel::QuoteTimeRegression { symbol, previous, current } =>
                "quote time regressed for "@ + symbol + ": "@ + int_text(previous as int)
                + " then "@ + int_text(current as int),
            ErrorModel::SymbolChannelConflict { symbol, first_channel, second_channel } =>
                "symbol "@ + symbol + " appeared in channels "@ + nat_text(first_channel as nat)
                + " and "@ + nat_text(second_channel as nat),
            ErrorModel::Normalize { symbol, sequence, detail } => "normalization failed for "@
                + symbol + " sequence "@ + nat_text(sequence as nat) + ": "@ + detail,
            ErrorModel::Apply { symbol, sequence, source } => "order-book apply failed for "@
                + symbol + " sequence "@ + nat_text(sequence as nat) + ": "@ + source.text(),
            ErrorModel::Validation(detail) => "validation failed: "@ + detail,
            ErrorModel::Arithmetic(what) => "integer arithmetic overflow while computing "@ + what,
        }
    }
}

impl ProductionError {
    /// What the error says.
    pub fn message(&self) -> (r: String)
        ensures
            r@ == self@.text(),
    {
        match self {
            ProductionError::UnresolvedSzOrder {
                symbol,
                channel,
                order_sequence,
                last_sequence,
                detail,
            } => {
                let mut r = String::from_str("unresolved Shenzhen order ");
                r.append(u64_text(*order_sequence).as_str());
                r.append(" for ");
                r.append(symbol.as_str());
                r.append(" in channel ");
                r.append(u64_text(*channel as u64).as_str());
                r.append(" after sequence ");
                r.append(u64_text(*last_sequence).as_str());
                r.append(": ");
                r.append(*detail);
                r
            },
            ProductionError::InvalidField { source_row, field, detail } => {
                let mut r = String::from_str("invalid ");
                r.append(*field);
                r.append(" at source row ");
                r.append(u64_text(*source_row).as_str());
                r.append(": ");
                r.append(detail.as_str());
                r
            },
            ProductionError::InvalidRequest(detail) => {
                let mut r = String::from_str("invalid request: ");
                r.append(detail.as_str());
                r
            },
            ProductionError::NonIncreasingSequence {
                market,
                channel,
                sequence_name,
                previous,
                current,
            } => {
                let mut r = String::from_str("non-increasing ");
                r.append(*sequence_name);
                r.append(" in ");
                r.append(market_name(*market));
                r.append(" channel ");
                r.append(u64_text(*channel as u64).as_str());
                r.append(": ");
                r.append(u64_text(*previous).as_str());
                r.append(" then ");
                r.append(u64_text(*current).as_str());
                r
            },
            ProductionError::AmbiguousSequence { channel, sequence } => {
                let mut r = String::from_str("ambiguous Shenzhen ApplSeqNum ");
                r.append(u64_text(*sequence).as_str());
                r.append(" in channel ");
                r.append(u64_text(*channel as u64).as_str());
                r
            },
            ProductionError::QuoteTimeRegression { symbol, previous, current } => {
                let mut r = String::from_str("quote time regressed for ");
                r.append(symbol.as_str());
                r.append(": ");
                r.append(i64_text(*previous).as_str());
                r.append(" then ");
                r.append(i64_text(*current).as_str());
                r
            },
            ProductionError::SymbolChannelConflict { symbol, first_channel, second_channel } => {
                let mut r = String::from_str("symbol ");
                r.append(symbol.as_str());
                r.append(" appeared in channels ");
                r.append(u64_text(*first_channel as u64).as_str());
                r.append(" and ");
                r.append(u64_text(*second_channel as u64).as_str());
                r
            },
            ProductionError::Normalize { symbol, sequence, detail } => {
                let mut r = String::from_str("normalization failed for ");
                r.append(symbol.as_str());
                r.append(" sequence ");
                r.append(u64_text(*sequence).as_str());
                r.append(": ");
                r.append(detail.as_str());
                r
            },
            ProductionError::Apply { symbol, sequence, source } => {
                let mut r = String::from_str("order-book apply failed for ");
                r.append(symbol.as_str());
                r.append(" sequence ");
                r.append(u64_text(*sequence).as_str());
                r.append(": ");
                r.append(source.message().as_str());
                r
            },
            ProductionError::Validation(detail) => {
                let mut r = String::from_str("validation failed: ");
                r.append(detail.as_str());
                r
            },
            ProductionError::Arithmetic(what) => {
                let mut r = String::from_str("integer arithmetic overflow while computing ");
                r.append(*what);
                r
            },
        }
    }
}

} // verus!
