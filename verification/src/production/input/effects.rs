//! What becomes of raw rows: which are selected, and what the rows that are kept hold.

use vstd::prelude::*;

use crate::market_data::Market;
use crate::text::trimmed;

use super::super::error::ErrorModel;
use super::super::rows::{Aggressor, SseKind, SzExecutionKind, SzOrderKind, SzSide};
use super::super::time::clock_result;
use super::super::types::{spec_is_supported, MarketDayRequest};
use super::fields::optional_text;
use super::shanghai::{sse_ingested, sse_row, RawSseRow, SseIngest};
use super::shenzhen::{
    sz_execution_ingested, sz_execution_row, sz_order_ingested, sz_order_row, AuditModel, RawSzExecution, RawSzOrder,
    RegressionModel, SzExecutionIngest, SzOrderIngest,
};
use super::stats::StatsModel;

verus! {

/// Whether a text is there and spells a time of a day.
pub open spec fn spells_time(midnight: int, text: Option<Seq<char>>, nanos: i64) -> bool {
    &&& text is Some
    &&& text->0.len() > 0
    &&& clock_result(midnight, trimmed(text->0)) == Ok::<i64, ErrorModel>(nanos)
}

/// Whether a text names an instrument that the request asks for.
pub open spec fn names_target(
    request: MarketDayRequest,
    market: Market,
    text: Option<Seq<char>>,
    symbol: Seq<char>,
) -> bool {
    &&& text is Some
    &&& text->0.len() > 0
    &&& symbol == trimmed(text->0)
    &&& spec_is_supported(market, symbol)
    &&& request.targets.spec_contains(market, symbol)
}

/// A Shenzhen order that is kept has the values of its raw fields: side code 49 is a buy and
/// 50 a sell; order types 49, 50 and 85 are market, limit and same-side best; its price is in
/// units of a ten-thousandth. Its instrument is asked for and its time is before the cutoff.
pub proof fn kept_orders_hold_their_raw_fields(
    before: SzOrderIngest,
    request: MarketDayRequest,
    midnight: int,
    cutoff: Option<i64>,
    raw: RawSzOrder,
)
    requires
        before.error is None,
        sz_order_ingested(before, request, midnight, cutoff, raw).rows != before.rows,
    ensures
        ({
            let after = sz_order_ingested(before, request, midnight, cutoff, raw);
            let row = after.rows.last();
            &&& after.error is None
            &&& after.rows == before.rows.push(row)
            &&& after.stats.selected_rows == (before.stats.selected_rows + 1) as u64
            &&& after.stats.excluded_rows == before.stats.excluded_rows
            &&& after.stats.excluded_after_cutoff_rows == before.stats.excluded_after_cutoff_rows
            &&& after.stats.symbol_channels == before.stats.symbol_channels.insert(
                row.symbol,
                row.channel,
            )
            &&& raw.source_row == Some(row.source_row)
            &&& raw.channel is Some && raw.channel->0 == row.channel
            &&& raw.sequence is Some && raw.sequence->0 == row.sequence
            &&& row.sequence > 0
            &&& names_target(request, Market::Szse, optional_text(raw.security_id), row.symbol)
            &&& spells_time(midnight, optional_text(raw.transact_time), row.quote_time_ns)
            &&& spells_time(midnight, optional_text(raw.local_time), row.local_time_ns)
            &&& cutoff matches Some(end) ==> row.quote_time_ns < end
            &&& raw.price is Some && raw.price->0 == row.price_units
            &&& raw.price_scale == 4
            &&& raw.quantity is Some && raw.quantity->0 == row.quantity
            &&& row.quantity > 0
            &&& raw.side == Some(49i32) || raw.side == Some(50i32)
            &&& raw.side == Some(49i32) <==> row.side == SzSide::Buy
            &&& raw.side == Some(50i32) <==> row.side == SzSide::Sell
            &&& raw.kind == Some(49i32) <==> row.kind == SzOrderKind::Market
            &&& raw.kind == Some(50i32) <==> row.kind == SzOrderKind::Limit
            &&& raw.kind == Some(85i32) <==> row.kind == SzOrderKind::SameSideBest
        }),
{
    reveal(sz_order_ingested);
    let after = sz_order_ingested(before, request, midnight, cutoff, raw);
    assert(after.rows =~= before.rows.push(after.rows.last()));
}

/// A Shenzhen execution that is kept has the values of its raw fields: execution type 70 is a
/// trade and 52 a cancellation; its price is in units of a ten-thousandth.
pub proof fn kept_executions_hold_their_raw_fields(
    before: SzExecutionIngest,
    request: MarketDayRequest,
    midnight: int,
    cutoff: Option<i64>,
    raw: RawSzExecution,
)
    requires
        before.error is None,
        sz_execution_ingested(before, request, midnight, cutoff, raw).rows != before.rows,
    ensures
        ({
            let after = sz_execution_ingested(before, request, midnight, cutoff, raw);
            let row = after.rows.last();
            &&& after.error is None
            &&& after.rows == before.rows.push(row)
            &&& after.stats.selected_rows == (before.stats.selected_rows + 1) as u64
            &&& after.stats.excluded_rows == before.stats.excluded_rows
            &&& after.stats.excluded_after_cutoff_rows == before.stats.excluded_after_cutoff_rows
            &&& after.stats.symbol_channels == before.stats.symbol_channels.insert(
                row.symbol,
                row.channel,
            )
            &&& raw.source_row == Some(row.source_row)
            &&& raw.channel is Some && raw.channel->0 == row.channel
            &&& raw.sequence is Some && raw.sequence->0 == row.sequence
            &&& row.sequence > 0
            &&& names_target(request, Market::Szse, optional_text(raw.security_id), row.symbol)
            &&& spells_time(midnight, optional_text(raw.transact_time), row.quote_time_ns)
            &&& spells_time(midnight, optional_text(raw.local_time), row.local_time_ns)
            &&& cutoff matches Some(end) ==> row.quote_time_ns < end
            &&& raw.bid_order_no is Some && raw.bid_order_no->0 == row.bid_order_no
            &&& raw.ask_order_no is Some && raw.ask_order_no->0 == row.ask_order_no
            &&& raw.price is Some && raw.price->0 == row.price_units
            &&& raw.price_scale == 4
            &&& raw.quantity is Some && raw.quantity->0 == row.quantity
            &&& row.quantity > 0
            &&& raw.kind == Some(70i32) <==> row.kind == SzExecutionKind::Trade
            &&& raw.kind == Some(52i32) <==> row.kind == SzExecutionKind::Cancel
        }),
{
    reveal(sz_execution_ingested);
    let after = sz_execution_ingested(before, request, midnight, cutoff, raw);
    assert(after.rows =~= before.rows.push(after.rows.last()));
}

/// Whether a text is there and spells a word, apart from white space around it.
pub open spec fn spells(text: Option<Seq<char>>, word: Seq<char>) -> bool {
    text is Some && text->0.len() > 0 && trimmed(text->0) == word
}

/// A Shanghai tick that is kept has the values of its raw fields: types A, D, T and S are
/// additions, deletions, trades and statuses; flags B, S and N are buy, sell and neither; its
/// price comes in thousandths and is kept in units of a ten-thousandth.
pub proof fn kept_ticks_hold_their_raw_fields(
    before: SseIngest,
    request: MarketDayRequest,
    midnight: int,
    cutoff: Option<i64>,
    raw: RawSseRow,
)
    requires
        before.error is None,
        sse_ingested(before, request, midnight, cutoff, raw).rows != before.rows,
    ensures
        ({
            let after = sse_ingested(before, request, midnight, cutoff, raw);
            let row = after.rows.last();
            let kind = optional_text(raw.kind);
            let flag = optional_text(raw.flag);
            &&& after.error is None
            &&& after.rows == before.rows.push(row)
            &&& after.stats.selected_rows == (before.stats.selected_rows + 1) as u64
            &&& after.stats.excluded_rows == before.stats.excluded_rows
            &&& after.stats.excluded_after_cutoff_rows == before.stats.excluded_after_cutoff_rows
            &&& after.stats.symbol_channels == before.stats.symbol_channels.insert(
                row.symbol,
                row.channel,
            )
            &&& raw.source_row == Some(row.source_row)
            &&& raw.channel is Some && raw.channel->0 == row.channel
            &&& row.channel > 0
            &&& raw.biz_index == Some(row.sequence)
            &&& row.sequence > 0
            &&& names_target(request, Market::Sse, optional_text(raw.security_id), row.symbol)
            &&& spells_time(midnight, optional_text(raw.tick_time), row.quote_time_ns)
            &&& spells_time(midnight, optional_text(raw.local_time), row.local_time_ns)
            &&& cutoff matches Some(end) ==> row.quote_time_ns < end
            &&& raw.price is Some && raw.price->0 * 10 == row.price_units
            &&& raw.price_scale == 3
            &&& raw.quantity is Some && raw.quantity->0 == row.quantity
            &&& raw.buy_order_no == Some(row.buy_order_no)
            &&& raw.sell_order_no == Some(row.sell_order_no)
            &&& spells(kind, "A"@) <==> row.kind == SseKind::Add
            &&& spells(kind, "D"@) <==> row.kind == SseKind::Delete
            &&& spells(kind, "T"@) <==> row.kind == SseKind::Trade
            &&& spells(kind, "S"@) <==> row.kind == SseKind::Status
            &&& spells(flag, "B"@) <==> row.flag == Aggressor::Buy
            &&& spells(flag, "S"@) <==> row.flag == Aggressor::Sell
            &&& spells(flag, "N"@) <==> row.flag == Aggressor::Neutral
            &&& spells(flag, "CCALL"@) <==> row.status == 1
            &&& spells(flag, "CLOSE"@) <==> row.status == 2
            &&& spells(flag, "TRADE"@) <==> row.status == 3
        }),
{
    reveal(sse_ingested);
    let after = sse_ingested(before, request, midnight, cutoff, raw);
    assert(after.rows =~= before.rows.push(after.rows.last()));
    reveal_strlit("A");
    reveal_strlit("D");
    reveal_strlit("T");
    reveal_strlit("S");
    reveal_strlit("B");
    reveal_strlit("N");
    reveal_strlit("CCALL");
    reveal_strlit("CLOSE");
    reveal_strlit("TRADE");
    assert("A"@[0] == 'A' && "D"@[0] == 'D' && "T"@[0] == 'T' && "S"@[0] == 'S' && "B"@[0] == 'B'
        && "N"@[0] == 'N');
    assert("CCALL"@[1] == 'C' && "CLOSE"@[1] == 'L' && "TRADE"@[1] == 'R');
}

/// How the counts of excluded rows may change for a row that is left out: an instrument that
/// is no supported one, one that was not asked for, or a time that is not before the cutoff.
pub open spec fn left_out(
    before: StatsModel,
    after: StatsModel,
    request: MarketDayRequest,
    market: Market,
    midnight: int,
    cutoff: Option<i64>,
    security: Option<Seq<char>>,
    time: Option<Seq<char>>,
) -> bool {
    let symbol = trimmed(security->0);
    &&& security is Some
    &&& after.selected_rows == before.selected_rows
    &&& after.symbol_channels == before.symbol_channels
    &&& if !spec_is_supported(market, symbol) {
        &&& after.excluded_rows == (before.excluded_rows + 1) as u64
        &&& after.excluded_non_stock_rows == (before.excluded_non_stock_rows + 1) as u64
        &&& after.excluded_unselected_stock_rows == before.excluded_unselected_stock_rows
        &&& after.excluded_after_cutoff_rows == before.excluded_after_cutoff_rows
    } else if !request.targets.spec_contains(market, symbol) {
        &&& after.excluded_rows == (before.excluded_rows + 1) as u64
        &&& after.excluded_unselected_stock_rows == (before.excluded_unselected_stock_rows
            + 1) as u64
        &&& after.excluded_non_stock_rows == before.excluded_non_stock_rows
        &&& after.excluded_after_cutoff_rows == before.excluded_after_cutoff_rows
    } else {
        &&& after.excluded_after_cutoff_rows == (before.excluded_after_cutoff_rows + 1) as u64
        &&& after.excluded_rows == before.excluded_rows
        &&& after.excluded_non_stock_rows == before.excluded_non_stock_rows
        &&& after.excluded_unselected_stock_rows == before.excluded_unselected_stock_rows
        &&& cutoff is Some
        &&& time is Some
        &&& clock_result(midnight, trimmed(time->0)) is Ok
        &&& clock_result(midnight, trimmed(time->0))->Ok_0 >= cutoff->0
    }
}

/// A Shenzhen order that is left out without an error is counted under its reason.
pub proof fn orders_are_left_out_for_a_reason(
    before: SzOrderIngest,
    request: MarketDayRequest,
    midnight: int,
    cutoff: Option<i64>,
    raw: RawSzOrder,
)
    requires
        before.error is None,
        ({
            let after = sz_order_ingested(before, request, midnight, cutoff, raw);
            after.error is None && after.rows == before.rows
        }),
    ensures
        left_out(
            before.stats,
            sz_order_ingested(before, request, midnight, cutoff, raw).stats,
            request,
            Market::Szse,
            midnight,
            cutoff,
            optional_text(raw.security_id),
            optional_text(raw.transact_time),
        ),
{
    reveal(sz_order_ingested);
    let after = sz_order_ingested(before, request, midnight, cutoff, raw);
    assert(after.rows.len() == before.rows.len());
}

/// A Shenzhen execution that is left out without an error is counted under its reason.
pub proof fn executions_are_left_out_for_a_reason(
    before: SzExecutionIngest,
    request: MarketDayRequest,
    midnight: int,
    cutoff: Option<i64>,
    raw: RawSzExecution,
)
    requires
        before.error is None,
        ({
            let after = sz_execution_ingested(before, request, midnight, cutoff, raw);
            after.error is None && after.rows == before.rows
        }),
    ensures
        left_out(
            before.stats,
            sz_execution_ingested(before, request, midnight, cutoff, raw).stats,
            request,
            Market::Szse,
            midnight,
            cutoff,
            optional_text(raw.security_id),
            optional_text(raw.transact_time),
        ),
{
    reveal(sz_execution_ingested);
    let after = sz_execution_ingested(before, request, midnight, cutoff, raw);
    assert(after.rows.len() == before.rows.len());
}

/// A Shanghai tick that is left out without an error is counted under its reason.
pub proof fn ticks_are_left_out_for_a_reason(
    before: SseIngest,
    request: MarketDayRequest,
    midnight: int,
    cutoff: Option<i64>,
    raw: RawSseRow,
)
    requires
        before.error is None,
        ({
            let after = sse_ingested(before, request, midnight, cutoff, raw);
            after.error is None && after.rows == before.rows
        }),
    ensures
        left_out(
            before.stats,
            sse_ingested(before, request, midnight, cutoff, raw).stats,
            request,
            Market::Sse,
            midnight,
            cutoff,
            optional_text(raw.security_id),
            optional_text(raw.tick_time),
        ),
{
    reveal(sse_ingested);
    let after = sse_ingested(before, request, midnight, cutoff, raw);
    assert(after.rows.len() == before.rows.len());
}

/// A Shenzhen order whose fields are all there and in range, with a side code of 49 or 50 and
/// an order type of 49, 50 or 85, is kept where its instrument is asked for, its time is before
/// the cutoff, its sequence is not that of the row before on its channel, and its instrument
/// was not seen on another channel.
pub proof fn sound_orders_are_kept(
    before: SzOrderIngest,
    request: MarketDayRequest,
    midnight: int,
    cutoff: Option<i64>,
    raw: RawSzOrder,
    symbol: Seq<char>,
    quote_time_ns: i64,
    local_time_ns: i64,
)
    requires
        before.error is None,
        before.stats.input_rows < u64::MAX,
        raw.source_row is Some,
        raw.channel is Some && raw.channel->0 > 0,
        raw.sequence is Some && raw.sequence->0 > 0,
        names_target(request, Market::Szse, optional_text(raw.security_id), symbol),
        spells_time(midnight, optional_text(raw.transact_time), quote_time_ns),
        spells_time(midnight, optional_text(raw.local_time), local_time_ns),
        cutoff matches Some(end) ==> quote_time_ns < end,
        raw.price is Some && i64::MIN <= raw.price->0 <= i64::MAX,
        raw.price_scale == 4,
        raw.quantity is Some && raw.quantity->0 > 0,
        raw.side == Some(49i32) || raw.side == Some(50i32),
        raw.kind == Some(49i32) || raw.kind == Some(50i32) || raw.kind == Some(85i32),
        before.audit.last.contains_key(raw.channel->0 as u32) ==> before.audit.last[raw.channel->0
            as u32].0 != raw.sequence->0,
        before.stats.symbol_channels.contains_key(symbol) ==> before.stats.symbol_channels[symbol]
            == raw.channel->0,
    ensures
        ({
            let after = sz_order_ingested(before, request, midnight, cutoff, raw);
            &&& after.error is None
            &&& after.rows.len() == before.rows.len() + 1
            &&& after.rows.last().quote_time_ns == quote_time_ns
            &&& after.rows.last().local_time_ns == local_time_ns
            &&& after.rows.last().symbol == symbol
            &&& after.stats.input_rows == before.stats.input_rows + 1
        }),
{
    reveal(sz_order_ingested);
}

/// A Shenzhen execution whose fields are all there and in range, with an execution type of 70
/// or 52, is kept under the same conditions.
pub proof fn sound_executions_are_kept(
    before: SzExecutionIngest,
    request: MarketDayRequest,
    midnight: int,
    cutoff: Option<i64>,
    raw: RawSzExecution,
    symbol: Seq<char>,
    quote_time_ns: i64,
    local_time_ns: i64,
)
    requires
        before.error is None,
        before.stats.input_rows < u64::MAX,
        raw.source_row is Some,
        raw.channel is Some && raw.channel->0 > 0,
        raw.sequence is Some && raw.sequence->0 > 0,
        names_target(request, Market::Szse, optional_text(raw.security_id), symbol),
        spells_time(midnight, optional_text(raw.transact_time), quote_time_ns),
        spells_time(midnight, optional_text(raw.local_time), local_time_ns),
        cutoff matches Some(end) ==> quote_time_ns < end,
        raw.bid_order_no is Some && raw.bid_order_no->0 >= 0,
        raw.ask_order_no is Some && raw.ask_order_no->0 >= 0,
        raw.price is Some && i64::MIN <= raw.price->0 <= i64::MAX,
        raw.price_scale == 4,
        raw.quantity is Some && raw.quantity->0 > 0,
        raw.kind == Some(70i32) || raw.kind == Some(52i32),
        before.audit.last.contains_key(raw.channel->0 as u32) ==> before.audit.last[raw.channel->0
            as u32].0 != raw.sequence->0,
        before.stats.symbol_channels.contains_key(symbol) ==> before.stats.symbol_channels[symbol]
            == raw.channel->0,
    ensures
        ({
            let after = sz_execution_ingested(before, request, midnight, cutoff, raw);
            &&& after.error is None
            &&& after.rows.len() == before.rows.len() + 1
            &&& after.rows.last().quote_time_ns == quote_time_ns
            &&& after.rows.last().local_time_ns == local_time_ns
            &&& after.rows.last().symbol == symbol
            &&& after.stats.input_rows == before.stats.input_rows + 1
        }),
{
    reveal(sz_execution_ingested);
}

/// A Shanghai tick whose fields are all there and in range, with one of the four types, is
/// kept where its instrument is asked for, its time is before the cutoff, its sequence is past
/// the last one of its channel, and its instrument was not seen on another channel.
pub proof fn sound_ticks_are_kept(
    before: SseIngest,
    request: MarketDayRequest,
    midnight: int,
    cutoff: Option<i64>,
    raw: RawSseRow,
    symbol: Seq<char>,
    quote_time_ns: i64,
    local_time_ns: i64,
)
    requires
        before.error is None,
        before.stats.input_rows < u64::MAX,
        raw.source_row is Some,
        raw.channel is Some && 0 < raw.channel->0 <= u32::MAX,
        raw.biz_index is Some && raw.biz_index->0 > 0,
        names_target(request, Market::Sse, optional_text(raw.security_id), symbol),
        spells_time(midnight, optional_text(raw.tick_time), quote_time_ns),
        spells_time(midnight, optional_text(raw.local_time), local_time_ns),
        cutoff matches Some(end) ==> quote_time_ns < end,
        raw.price is Some && i64::MIN <= raw.price->0 * 10 <= i64::MAX,
        raw.price_scale == 3,
        raw.quantity is Some && raw.quantity->0 >= 0,
        raw.buy_order_no is Some,
        raw.sell_order_no is Some,
        spells(optional_text(raw.kind), "A"@) || spells(optional_text(raw.kind), "D"@) || spells(
            optional_text(raw.kind),
            "T"@,
        ) || spells(optional_text(raw.kind), "S"@),
        optional_text(raw.flag) is Some && optional_text(raw.flag)->0.len() > 0,
        before.sequences.contains_key(raw.channel->0 as u32) ==> before.sequences[raw.channel->0
            as u32] < raw.biz_index->0,
        before.stats.symbol_channels.contains_key(symbol) ==> before.stats.symbol_channels[symbol]
            == raw.channel->0,
    ensures
        ({
            let after = sse_ingested(before, request, midnight, cutoff, raw);
            &&& after.error is None
            &&& after.rows.len() == before.rows.len() + 1
            &&& after.rows.last().quote_time_ns == quote_time_ns
            &&& after.rows.last().local_time_ns == local_time_ns
            &&& after.rows.last().symbol == symbol
            &&& after.stats.input_rows == before.stats.input_rows + 1
            &&& after.sequences == before.sequences.insert(
                raw.channel->0 as u32,
                raw.biz_index->0,
            )
        }),
{
    reveal(sse_ingested);
}

/// A Shanghai tick whose sequence is not past the last one of its channel is refused.
pub proof fn late_ticks_are_refused(
    before: SseIngest,
    request: MarketDayRequest,
    midnight: int,
    cutoff: Option<i64>,
    raw: RawSseRow,
)
    requires
        before.error is None,
        before.stats.input_rows < u64::MAX,
        raw.source_row is Some,
        raw.channel is Some && 0 < raw.channel->0 <= u32::MAX,
        raw.biz_index is Some,
        before.sequences.contains_key(raw.channel->0 as u32),
        0 < raw.biz_index->0 <= before.sequences[raw.channel->0 as u32],
    ensures
        ({
            let after = sse_ingested(before, request, midnight, cutoff, raw);
            &&& after.rows == before.rows
            &&& after.error == Some(
                ErrorModel::NonIncreasingSequence {
                    market: Market::Sse,
                    channel: raw.channel->0 as u32,
                    sequence_name: "BizIndex"@,
                    previous: before.sequences[raw.channel->0 as u32],
                    current: raw.biz_index->0,
                },
            )
        }),
{
    reveal(sse_ingested);
}

/// An instrument seen on a second channel is refused.
pub proof fn instruments_keep_to_one_channel(stats: StatsModel, symbol: Seq<char>, channel: u32)
    ensures
        stats.symbol_channels.contains_key(symbol) && stats.symbol_channels[symbol] != channel
            <==> stats.conflict(symbol, channel) is Some,
        stats.conflict(symbol, channel) matches Some(error) ==> error == (
        ErrorModel::SymbolChannelConflict {
            symbol,
            first_channel: stats.symbol_channels[symbol],
            second_channel: channel,
        }),
        stats.registered(symbol, channel).symbol_channels == stats.symbol_channels.insert(
            symbol,
            channel,
        ),
{
}

/// A sequence that is lower than the one before on its channel is noted once, with both
/// sequences and both rows; any other one leaves no note. The last row of a channel is kept.
pub proof fn inversions_are_noted(
    audit: AuditModel,
    channel: u32,
    sequence: u64,
    source_row: u64,
)
    ensures
        ({
            let after = audit.observed(channel, sequence, source_row);
            &&& after.last == audit.last.insert(channel, (sequence, source_row))
            &&& after.stream == audit.stream
            &&& audit.last.contains_key(channel) && sequence < audit.last[channel].0
                ==> after.regressions == audit.regressions.push(
                RegressionModel {
                    channel,
                    stream: audit.stream,
                    previous_sequence: audit.last[channel].0,
                    sequence,
                    previous_source_row: audit.last[channel].1,
                    source_row,
                },
            )
            &&& !(audit.last.contains_key(channel) && sequence < audit.last[channel].0)
                ==> after.regressions == audit.regressions
            &&& audit.repeats(channel, sequence) <==> audit.last.contains_key(channel)
                && audit.last[channel].0 == sequence
        }),
{
}

/// A Shenzhen order is noted in the audit of sequences before it is selected or left out.
pub proof fn orders_are_audited_first(
    before: SzOrderIngest,
    request: MarketDayRequest,
    midnight: int,
    cutoff: Option<i64>,
    raw: RawSzOrder,
)
    requires
        before.error is None,
        sz_order_ingested(before, request, midnight, cutoff, raw).error is None,
    ensures
        sz_order_ingested(before, request, midnight, cutoff, raw).audit == before.audit.observed(
            raw.channel->0 as u32,
            raw.sequence->0 as u64,
            raw.source_row->0,
        ),
        !before.audit.last.contains_key(raw.channel->0 as u32) || before.audit.last[raw.channel->0
            as u32].0 != raw.sequence->0,
{
    reveal(sz_order_ingested);
}

/// A Shenzhen execution is noted in the audit of sequences before it is selected or left out.
pub proof fn executions_are_audited_first(
    before: SzExecutionIngest,
    request: MarketDayRequest,
    midnight: int,
    cutoff: Option<i64>,
    raw: RawSzExecution,
)
    requires
        before.error is None,
        sz_execution_ingested(before, request, midnight, cutoff, raw).error is None,
    ensures
        sz_execution_ingested(before, request, midnight, cutoff, raw).audit
            == before.audit.observed(
            raw.channel->0 as u32,
            raw.sequence->0 as u64,
            raw.source_row->0,
        ),
        !before.audit.last.contains_key(raw.channel->0 as u32) || before.audit.last[raw.channel->0
            as u32].0 != raw.sequence->0,
{
    reveal(sz_execution_ingested);
}

/// Whether a row was refused for a field of it.
pub open spec fn blames(error: ErrorModel, source_row: u64, field: Seq<char>) -> bool {
    error matches ErrorModel::InvalidField { source_row: row, field: name, .. } && row == source_row
        && name == field
}

/// Whether a field tells a time of the day.
pub open spec fn tells_time(midnight: int, text: Option<Seq<char>>) -> bool {
    &&& text is Some
    &&& text->0.len() > 0
    &&& clock_result(midnight, trimmed(text->0)) is Ok
}

/// A Shenzhen order with a wrong field is refused for the first field that is wrong, by its name
/// and its row: the side, the type, the local time, the price, the quantity.
pub proof fn wrong_orders_name_their_field(
    raw: RawSzOrder,
    midnight: int,
    source_row: u64,
    channel: u32,
    sequence: u64,
    symbol: Seq<char>,
    quote_time_ns: i64,
)
    ensures
        ({
            let row = sz_order_row(
                raw,
                midnight,
                source_row,
                channel,
                sequence,
                symbol,
                quote_time_ns,
            );
            let side = raw.side == Some(49i32) || raw.side == Some(50i32);
            let kind = raw.kind == Some(49i32) || raw.kind == Some(50i32) || raw.kind == Some(85i32);
            let local = tells_time(midnight, optional_text(raw.local_time));
            let price = raw.price is Some && raw.price_scale == 4 && i64::MIN <= raw.price->0
                <= i64::MAX;
            let quantity = raw.quantity is Some && raw.quantity->0 >= 1;
            &&& row is Ok <==> side && kind && local && price && quantity
            &&& row matches Err(error) ==> {
                &&& !side ==> blames(error, source_row, "Side"@)
                &&& side && !kind ==> blames(error, source_row, "OrdType"@)
                &&& side && kind && !local ==> blames(error, source_row, "LocalTime"@)
                &&& side && kind && local && !price ==> blames(error, source_row, "Price"@)
                &&& side && kind && local && price ==> blames(error, source_row, "OrderQty"@)
            }
        }),
{
}

/// A Shenzhen execution with a wrong field is refused for the first field that is wrong, by its
/// name and its row: the type, the local time, the number of the bid, the number of the ask, the
/// price, the quantity.
pub proof fn wrong_executions_name_their_field(
    raw: RawSzExecution,
    midnight: int,
    source_row: u64,
    channel: u32,
    sequence: u64,
    symbol: Seq<char>,
    quote_time_ns: i64,
)
    ensures
        ({
            let row = sz_execution_row(
                raw,
                midnight,
                source_row,
                channel,
                sequence,
                symbol,
                quote_time_ns,
            );
            let kind = raw.kind == Some(70i32) || raw.kind == Some(52i32);
            let local = tells_time(midnight, optional_text(raw.local_time));
            let bid = raw.bid_order_no is Some && raw.bid_order_no->0 >= 0;
            let ask = raw.ask_order_no is Some && raw.ask_order_no->0 >= 0;
            let price = raw.price is Some && raw.price_scale == 4 && i64::MIN <= raw.price->0
                <= i64::MAX;
            let quantity = raw.quantity is Some && raw.quantity->0 >= 1;
            &&& row is Ok <==> kind && local && bid && ask && price && quantity
            &&& row matches Err(error) ==> {
                &&& !kind ==> blames(error, source_row, "ExecType"@)
                &&& kind && !local ==> blames(error, source_row, "LocalTime"@)
                &&& kind && local && !bid ==> blames(error, source_row, "BidApplSeqNum"@)
                &&& kind && local && bid && !ask ==> blames(
                    error,
                    source_row,
                    "OfferApplSeqNum"@,
                )
                &&& kind && local && bid && ask && !price ==> blames(
                    error,
                    source_row,
                    "LastPx"@,
                )
                &&& kind && local && bid && ask && price ==> blames(error, source_row, "LastQty"@)
            }
        }),
{
}

/// A Shanghai tick with a wrong field is refused for the first field that is wrong, by its name
/// and its row: the type, the flag, the local time, the price, the quantity, the numbers of the
/// two orders. A price of three places that cannot be brought to four is an overflow.
pub proof fn wrong_ticks_name_their_field(
    raw: RawSseRow,
    midnight: int,
    source_row: u64,
    channel: u32,
    sequence: u64,
    symbol: Seq<char>,
    quote_time_ns: i64,
)
    ensures
        ({
            let row = sse_row(
                raw,
                midnight,
                source_row,
                channel,
                sequence,
                symbol,
                quote_time_ns,
            );
            let text = trimmed(optional_text(raw.kind)->0);
            let kind = raw.kind is Some && optional_text(raw.kind)->0.len() > 0 && (text == "A"@
                || text == "D"@ || text == "T"@ || text == "S"@);
            let flag = raw.flag is Some && optional_text(raw.flag)->0.len() > 0;
            let local = tells_time(midnight, optional_text(raw.local_time));
            let price = raw.price is Some && raw.price_scale == 3 && i64::MIN <= raw.price->0 * 10
                <= i64::MAX;
            let fits = i128::MIN <= raw.price->0 * 10 <= i128::MAX;
            let quantity = raw.quantity is Some && raw.quantity->0 >= 0;
            let buy = raw.buy_order_no is Some;
            let sell = raw.sell_order_no is Some;
            &&& row is Ok <==> kind && flag && local && price && quantity && buy && sell
            &&& row matches Err(error) ==> {
                &&& !kind ==> blames(error, source_row, "Type"@)
                &&& kind && !flag ==> blames(error, source_row, "TickBSFlag"@)
                &&& kind && flag && !local ==> blames(error, source_row, "LocalTime"@)
                &&& kind && flag && local && !price && (fits || raw.price is None
                    || raw.price_scale != 3) ==> blames(error, source_row, "Price"@)
                &&& kind && flag && local && !price && raw.price is Some && raw.price_scale == 3
                    && !fits ==> error is Arithmetic
                &&& kind && flag && local && price && !quantity ==> blames(
                    error,
                    source_row,
                    "Qty"@,
                )
                &&& kind && flag && local && price && quantity && !buy ==> blames(
                    error,
                    source_row,
                    "BuyOrderNO"@,
                )
                &&& kind && flag && local && price && quantity && buy ==> blames(
                    error,
                    source_row,
                    "SellOrderNO"@,
                )
            }
        }),
{
    reveal_strlit("A");
    reveal_strlit("D");
    reveal_strlit("T");
    reveal_strlit("S");
}

} // verus!
