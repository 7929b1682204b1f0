//! Shanghai ticks.

use std::collections::HashMap;

use vstd::prelude::*;

use crate::market_data::Market;
use crate::text::{concat, nat_text, quoted, quoted_text, same_text, u64_text};

use super::super::error::{ErrorModel, ProductionError};
use super::super::replay::bump_error;
use super::super::rows::{Aggressor, SseKind, SseModel, SseRow};
use super::super::time::MarketTimestampParser;
use super::super::types::MarketDayRequest;
use super::fields::{
    decimal_result, decimal_units, invalid, invalid_field, nonnegative_i64, nonnegative_result,
    optional_text, parse_timestamp_field, required, required_str, text_result,
    timestamp_field_result, value_result,
};
use super::stats::{IngestStats, StatsModel};

verus! {

/// A Shanghai tick as the feed has it; a field without a value is `None`.
#[derive(Debug)]
pub struct RawSseRow {
    pub source_row: Option<u64>,
    pub channel: Option<u64>,
    pub biz_index: Option<u64>,
    pub security_id: Option<String>,
    pub tick_time: Option<String>,
    pub kind: Option<String>,
    pub flag: Option<String>,
    pub local_time: Option<String>,
    pub price: Option<i128>,
    pub price_scale: i8,
    pub quantity: Option<i64>,
    pub buy_order_no: Option<u64>,
    pub sell_order_no: Option<u64>,
}

/// What Shanghai ticks came to: the counts and last sequences that they leave, the selected
/// rows, and why they went no further.
#[verifier::ext_equal]
pub struct SseIngest {
    pub stats: StatsModel,
    pub sequences: Map<u32, u64>,
    pub rows: Seq<SseModel>,
    pub error: Option<ErrorModel>,
}

/// The channel of a tick.
pub open spec fn sse_channel(value: Option<u64>, source_row: u64) -> Result<u32, ErrorModel> {
    match value_result(value, source_row, "Channel"@) {
        Err(error) => Err(error),
        Ok(value) => if value > u32::MAX {
            Err(
                invalid_field(
                    source_row,
                    "Channel"@,
                    "out of range: "@ + nat_text(value as nat),
                ),
            )
        } else if value == 0 {
            Err(invalid_field(source_row, "Channel"@, "must be positive"@))
        } else {
            Ok(value as u32)
        },
    }
}

/// Why a sequence cannot follow those of its channel.
pub open spec fn sequence_error(
    sequences: Map<u32, u64>,
    market: Market,
    channel: u32,
    current: u64,
    sequence_name: Seq<char>,
) -> Option<ErrorModel> {
    if current == 0 {
        Some(
            ErrorModel::NonIncreasingSequence {
                market,
                channel,
                sequence_name,
                previous: 0,
                current,
            },
        )
    } else if sequences.contains_key(channel) && current <= sequences[channel] {
        Some(
            ErrorModel::NonIncreasingSequence {
                market,
                channel,
                sequence_name,
                previous: sequences[channel],
                current,
            },
        )
    } else {
        None
    }
}

/// The last sequences after one more; zero is none.
pub open spec fn sequence_noted(sequences: Map<u32, u64>, channel: u32, current: u64) -> Map<
    u32,
    u64,
> {
    if current == 0 {
        sequences
    } else {
        sequences.insert(channel, current)
    }
}

pub open spec fn sse_kind(text: Seq<char>) -> Option<SseKind> {
    if text == "A"@ {
        Some(SseKind::Add)
    } else if text == "D"@ {
        Some(SseKind::Delete)
    } else if text == "T"@ {
        Some(SseKind::Trade)
    } else if text == "S"@ {
        Some(SseKind::Status)
    } else {
        None
    }
}

pub open spec fn sse_flag(text: Seq<char>) -> Aggressor {
    if text == "B"@ {
        Aggressor::Buy
    } else if text == "S"@ {
        Aggressor::Sell
    } else if text == "N"@ {
        Aggressor::Neutral
    } else {
        Aggressor::Other
    }
}

pub open spec fn sse_status(text: Seq<char>) -> u8 {
    if text == "CCALL"@ {
        1
    } else if text == "CLOSE"@ {
        2
    } else if text == "TRADE"@ {
        3
    } else {
        0
    }
}

/// The row of a selected tick, or which of its other fields is wrong.
pub open spec fn sse_row(
    raw: RawSseRow,
    midnight: int,
    source_row: u64,
    channel: u32,
    sequence: u64,
    symbol: Seq<char>,
    quote_time_ns: i64,
) -> Result<SseModel, ErrorModel> {
    let kind = text_result(optional_text(raw.kind), source_row, "Type"@);
    let flag = text_result(optional_text(raw.flag), source_row, "TickBSFlag"@);
    let local = timestamp_field_result(
        midnight,
        optional_text(raw.local_time),
        source_row,
        "LocalTime"@,
    );
    let price = decimal_result(raw.price, raw.price_scale, source_row, "Price"@, 3);
    let quantity = nonnegative_result(raw.quantity, source_row, "Qty"@);
    let buy = value_result(raw.buy_order_no, source_row, "BuyOrderNO"@);
    let sell = value_result(raw.sell_order_no, source_row, "SellOrderNO"@);
    if kind is Err {
        Err(kind->Err_0)
    } else if sse_kind(kind->Ok_0) is None {
        Err(
            invalid_field(
                source_row,
                "Type"@,
                "unsupported value "@ + quoted_text(kind->Ok_0),
            ),
        )
    } else if flag is Err {
        Err(flag->Err_0)
    } else if local is Err {
        Err(local->Err_0)
    } else if price is Err {
        Err(price->Err_0)
    } else if quantity is Err {
        Err(quantity->Err_0)
    } else if buy is Err {
        Err(buy->Err_0)
    } else if sell is Err {
        Err(sell->Err_0)
    } else {
        Ok(
            SseModel {
                source_row,
                sequence,
                channel,
                symbol,
                quote_time_ns,
                local_time_ns: local->Ok_0,
                kind: sse_kind(kind->Ok_0)->0,
                buy_order_no: buy->Ok_0,
                sell_order_no: sell->Ok_0,
                price_units: price->Ok_0,
                quantity: quantity->Ok_0,
                flag: sse_flag(flag->Ok_0),
                status: sse_status(flag->Ok_0),
            },
        )
    }
}

/// What one Shanghai tick does.
#[verifier::opaque]
pub open spec fn sse_ingested(
    before: SseIngest,
    request: MarketDayRequest,
    midnight: int,
    cutoff: Option<i64>,
    raw: RawSseRow,
) -> SseIngest {
    let read = SseIngest { stats: before.stats.read(), ..before };
    let source = value_result(raw.source_row, 0, "source_row_no"@);
    let channel = sse_channel(raw.channel, source->Ok_0);
    let sequence = value_result(raw.biz_index, source->Ok_0, "BizIndex"@);
    if bump_error(before.stats.input_rows, "input row count"@) is Some {
        SseIngest { error: bump_error(before.stats.input_rows, "input row count"@), ..before }
    } else if source is Err {
        SseIngest { error: Some(source->Err_0), ..read }
    } else if channel is Err {
        SseIngest { error: Some(channel->Err_0), ..read }
    } else if sequence is Err {
        SseIngest { error: Some(sequence->Err_0), ..read }
    } else {
        let complaint = sequence_error(
            before.sequences,
            Market::Sse,
            channel->Ok_0,
            sequence->Ok_0,
            "BizIndex"@,
        );
        let noted = SseIngest {
            sequences: sequence_noted(before.sequences, channel->Ok_0, sequence->Ok_0),
            ..read
        };
        if complaint is Some {
            SseIngest { error: complaint, ..noted }
        } else {
            let selection = read.stats.selection(
                request,
                Market::Sse,
                midnight,
                cutoff,
                source->Ok_0,
                channel->Ok_0,
                optional_text(raw.security_id),
                optional_text(raw.tick_time),
                "TickTime"@,
            );
            let decided = SseIngest { stats: selection.stats, ..noted };
            match selection.outcome {
                Err(error) => SseIngest { error: Some(error), ..decided },
                Ok(None) => decided,
                Ok(Some((symbol, quote_time_ns))) => match sse_row(
                    raw,
                    midnight,
                    source->Ok_0,
                    channel->Ok_0,
                    sequence->Ok_0,
                    symbol,
                    quote_time_ns,
                ) {
                    Err(error) => SseIngest { error: Some(error), ..decided },
                    Ok(row) => SseIngest {
                        stats: decided.stats.select(),
                        rows: decided.rows.push(row),
                        ..decided
                    },
                },
            }
        }
    }
}

/// What Shanghai ticks do, up to the first that is wrong.
pub open spec fn sse_ingested_all(
    before: SseIngest,
    request: MarketDayRequest,
    midnight: int,
    cutoff: Option<i64>,
    raws: Seq<RawSseRow>,
) -> SseIngest
    decreases raws.len(),
{
    if raws.len() == 0 || before.error is Some {
        before
    } else {
        sse_ingested_all(
            sse_ingested(before, request, midnight, cutoff, raws[0]),
            request,
            midnight,
            cutoff,
            raws.drop_first(),
        )
    }
}

/// The views of rows.
pub open spec fn sse_views(rows: Seq<SseRow>) -> Seq<SseModel> {
    rows.map_values(|row: SseRow| row@)
}

fn channel_of(value: Option<u64>, source_row: u64) -> (r: Result<u32, ProductionError>)
    ensures
        match sse_channel(value, source_row) {
            Ok(channel) => r is Ok && r->Ok_0 == channel,
            Err(error) => r is Err && r->Err_0@ == error,
        },
{
    let value: u64 = match required(value, source_row, "Channel") {
        Ok(value) => value,
        Err(error) => return Err(error),
    };
    if value > 0xffff_ffff {
        let detail = concat("out of range: ", u64_text(value).as_str());
        Err(invalid(source_row, "Channel", detail.as_str()))
    } else if value == 0 {
        Err(invalid(source_row, "Channel", "must be positive"))
    } else {
        Ok(value as u32)
    }
}

/// Notes the sequence of a channel, which must grow from row to row.
pub fn validate_sequence(
    sequences: &mut HashMap<u32, u64>,
    market: Market,
    channel: u32,
    current: u64,
    sequence_name: &'static str,
) -> (r: Result<(), ProductionError>)
    ensures
        final(sequences)@ == sequence_noted(old(sequences)@, channel, current),
        match sequence_error(old(sequences)@, market, channel, current, sequence_name@) {
            Some(error) => r is Err && r->Err_0@ == error,
            None => r is Ok,
        },
{
    broadcast use vstd::std_specs::hash::group_hash_axioms;

    if current == 0 {
        return Err(
            ProductionError::NonIncreasingSequence {
                market,
                channel,
                sequence_name,
                previous: 0,
                current,
            },
        );
    }
    if let Some(previous) = sequences.insert(channel, current) {
        if current <= previous {
            return Err(
                ProductionError::NonIncreasingSequence {
                    market,
                    channel,
                    sequence_name,
                    previous,
                    current,
                },
            );
        }
    }
    Ok(())
}

fn kind_of(text: &str) -> (r: Option<SseKind>)
    ensures
        r == sse_kind(text@),
{
    if same_text(text, "A") {
        Some(SseKind::Add)
    } else if same_text(text, "D") {
        Some(SseKind::Delete)
    } else if same_text(text, "T") {
        Some(SseKind::Trade)
    } else if same_text(text, "S") {
        Some(SseKind::Status)
    } else {
        None
    }
}

fn flag_of(text: &str) -> (r: Aggressor)
    ensures
        r == sse_flag(text@),
{
    if same_text(text, "B") {
        Aggressor::Buy
    } else if same_text(text, "S") {
        Aggressor::Sell
    } else if same_text(text, "N") {
        Aggressor::Neutral
    } else {
        Aggressor::Other
    }
}

fn status_of(text: &str) -> (r: u8)
    ensures
        r == sse_status(text@),
{
    if same_text(text, "CCALL") {
        1
    } else if same_text(text, "CLOSE") {
        2
    } else if same_text(text, "TRADE") {
        3
    } else {
        0
    }
}

fn row_of(
    raw: &RawSseRow,
    parser: &MarketTimestampParser,
    source_row: u64,
    channel: u32,
    sequence: u64,
    symbol: String,
    quote_time_ns: i64,
) -> (r: Result<SseRow, ProductionError>)
    ensures
        match sse_row(
            *raw,
            parser.spec_midnight() as int,
            source_row,
            channel,
            sequence,
            symbol@,
            quote_time_ns,
        ) {
            Ok(row) => r is Ok && r->Ok_0@ == row,
            Err(error) => r is Err && r->Err_0@ == error,
        },
{
    let kind_text = match required_str(&raw.kind, source_row, "Type") {
        Ok(text) => text,
        Err(error) => return Err(error),
    };
    let kind = match kind_of(kind_text.as_str()) {
        Some(kind) => kind,
        None => {
            let detail = concat("unsupported value ", quoted(kind_text.as_str()).as_str());
            return Err(invalid(source_row, "Type", detail.as_str()));
        },
    };
    let flag_text = match required_str(&raw.flag, source_row, "TickBSFlag") {
        Ok(text) => text,
        Err(error) => return Err(error),
    };
    let local_time_ns = match parse_timestamp_field(
        parser,
        &raw.local_time,
        source_row,
        "LocalTime",
    ) {
        Ok(nanos) => nanos,
        Err(error) => return Err(error),
    };
    let price_units = match decimal_units(raw.price, raw.price_scale, source_row, "Price", 3) {
        Ok(units) => units,
        Err(error) => return Err(error),
    };
    let quantity = match nonnegative_i64(raw.quantity, source_row, "Qty") {
        Ok(quantity) => quantity,
        Err(error) => return Err(error),
    };
    let buy_order_no = match required(raw.buy_order_no, source_row, "BuyOrderNO") {
        Ok(order_no) => order_no,
        Err(error) => return Err(error),
    };
    let sell_order_no = match required(raw.sell_order_no, source_row, "SellOrderNO") {
        Ok(order_no) => order_no,
        Err(error) => return Err(error),
    };
    Ok(
        SseRow {
            source_row,
            sequence,
            channel,
            symbol,
            quote_time_ns,
            local_time_ns,
            kind,
            buy_order_no,
            sell_order_no,
            price_units,
            quantity,
            flag: flag_of(flag_text.as_str()),
            status: status_of(flag_text.as_str()),
        },
    )
}

fn ingest_row(
    request: &MarketDayRequest,
    parser: &MarketTimestampParser,
    cutoff: Option<i64>,
    raw: &RawSseRow,
    sequences: &mut HashMap<u32, u64>,
    stats: &mut IngestStats,
    rows: &mut Vec<SseRow>,
) -> (r: Result<(), ProductionError>)
    requires
        old(stats).wf(),
    ensures
        final(stats).wf(),
        r is Ok ==> final(stats)@.settled() - old(stats)@.settled() == 1,
        r is Ok ==> final(stats).input_rows == old(stats).input_rows + 1,
        sse_ingested(
            SseIngest {
                stats: old(stats)@,
                sequences: old(sequences)@,
                rows: sse_views(old(rows)@),
                error: None,
            },
            *request,
            parser.spec_midnight() as int,
            cutoff,
            *raw,
        ) == (SseIngest {
            stats: final(stats)@,
            sequences: final(sequences)@,
            rows: sse_views(final(rows)@),
            error: match r {
                Ok(_) => None,
                Err(error) => Some(error@),
            },
        }),
{
    proof {
        reveal(sse_ingested);
    }
    match stats.count_input() {
        Ok(()) => {},
        Err(error) => return Err(error),
    }
    let source_row: u64 = match required(raw.source_row, 0, "source_row_no") {
        Ok(value) => value,
        Err(error) => return Err(error),
    };
    let channel: u32 = match channel_of(raw.channel, source_row) {
        Ok(channel) => channel,
        Err(error) => return Err(error),
    };
    let sequence: u64 = match required(raw.biz_index, source_row, "BizIndex") {
        Ok(value) => value,
        Err(error) => return Err(error),
    };
    match validate_sequence(sequences, Market::Sse, channel, sequence, "BizIndex") {
        Ok(()) => {},
        Err(error) => return Err(error),
    }
    let (symbol, quote_time_ns) = match stats.select(
        request,
        Market::Sse,
        parser,
        cutoff,
        source_row,
        channel,
        &raw.security_id,
        &raw.tick_time,
        "TickTime",
    ) {
        Ok(Some(selected)) => selected,
        Ok(None) => return Ok(()),
        Err(error) => return Err(error),
    };
    let row = match row_of(raw, parser, source_row, channel, sequence, symbol, quote_time_ns) {
        Ok(row) => row,
        Err(error) => return Err(error),
    };
    let ghost before = sse_views(rows@);
    rows.push(row);
    assert(sse_views(rows@) =~= before.push(row@));
    stats.selected_rows = stats.selected_rows + 1;
    Ok(())
}

/// Selects rows from Shanghai ticks, in their order, up to the first that is wrong.
pub fn ingest_sse(
    request: &MarketDayRequest,
    parser: &MarketTimestampParser,
    quote_time_exclusive: Option<i64>,
    raws: &Vec<RawSseRow>,
    sequences: &mut HashMap<u32, u64>,
    stats: &mut IngestStats,
    rows: &mut Vec<SseRow>,
) -> (r: Result<(), ProductionError>)
    requires
        old(stats).wf(),
    ensures
        final(stats).wf(),
        r is Ok ==> final(stats).input_rows - old(stats).input_rows == raws@.len(),
        r is Ok ==> final(stats)@.settled() - old(stats)@.settled() == raws@.len(),
        sse_ingested_all(
            SseIngest {
                stats: old(stats)@,
                sequences: old(sequences)@,
                rows: sse_views(old(rows)@),
                error: None,
            },
            *request,
            parser.spec_midnight() as int,
            quote_time_exclusive,
            raws@,
        ) == (SseIngest {
            stats: final(stats)@,
            sequences: final(sequences)@,
            rows: sse_views(final(rows)@),
            error: match r {
                Ok(_) => None,
                Err(error) => Some(error@),
            },
        }),
{
    let ghost midnight = parser.spec_midnight() as int;
    let ghost start = SseIngest {
        stats: stats@,
        sequences: sequences@,
        rows: sse_views(rows@),
        error: None,
    };
    let mut at: usize = 0;
    assert(raws@.skip(0) =~= raws@);
    while at < raws.len()
        invariant
            stats.wf(),
            at <= raws@.len(),
            midnight == parser.spec_midnight(),
            stats.input_rows - old(stats).input_rows == at,
            stats@.settled() - old(stats)@.settled() == at,
            start == (SseIngest {
                stats: old(stats)@,
                sequences: old(sequences)@,
                rows: sse_views(old(rows)@),
                error: None,
            }),
            sse_ingested_all(start, *request, midnight, quote_time_exclusive, raws@)
                == sse_ingested_all(
                SseIngest {
                    stats: stats@,
                    sequences: sequences@,
                    rows: sse_views(rows@),
                    error: None,
                },
                *request,
                midnight,
                quote_time_exclusive,
                raws@.skip(at as int),
            ),
        decreases raws@.len() - at,
    {
        proof {
            reveal_with_fuel(sse_ingested_all, 2);
            assert(raws@.skip(at as int)[0] == raws@[at as int]);
            assert(raws@.skip(at as int).drop_first() =~= raws@.skip(at + 1));
        }
        match ingest_row(
            request,
            parser,
            quote_time_exclusive,
            &raws[at],
            sequences,
            stats,
            rows,
        ) {
            Ok(()) => {},
            Err(error) => return Err(error),
        }
        at = at + 1;
    }
    Ok(())
}

} // verus!
