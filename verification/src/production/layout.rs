//! The columns that input files must have and that output files get.

use vstd::prelude::*;

use crate::text::nat_text;

use super::rows::{
    Aggressor, SseKind, SseModel, SzExecutionKind, SzExecutionModel, SzOrderKind, SzOrderModel,
    SzSide,
};
use super::schema::{column_place, columns_error, footer_error, footer_value, ColumnType, RawFeed};
use super::snapshot::SnapshotModel;
use super::spool::{
    header_bytes, i64_at, is_spool_symbol, spool_name, sse_bytes, sse_rows_are_read_back,
    sz_execution_bytes, sz_executions_are_read_back, sz_order_bytes, sz_orders_are_read_back,
    u32_at, u64_at, SpoolKind,
};
use super::types::SnapshotKind;
use super::writer::{
    leading_columns, level_columns, snapshot_columns, trailing_columns, ValuesModel,
};

verus! {

/// Whether a list of columns has a column of a name and a type at a place.
pub open spec fn has_at(
    columns: Seq<(Seq<char>, ColumnType)>,
    at: int,
    name: Seq<char>,
    kind: ColumnType,
) -> bool {
    0 <= at < columns.len() && columns[at] == (name, kind)
}

/// What each feed must hold: the file that it comes in, and its columns with their types.
pub proof fn feeds_have_these_columns()
    ensures
        ({
            let ticks = RawFeed::SseTicks.spec_columns();
            let decimal = ColumnType::Decimal { precision: 38, scale: 3 };
            &&& ticks.len() == 12
            &&& has_at(ticks, 0, "BizIndex"@, ColumnType::UInt64)
            &&& has_at(ticks, 1, "Channel"@, ColumnType::UInt64)
            &&& has_at(ticks, 2, "SecurityID"@, ColumnType::LargeUtf8)
            &&& has_at(ticks, 3, "TickTime"@, ColumnType::LargeUtf8)
            &&& has_at(ticks, 4, "Type"@, ColumnType::LargeUtf8)
            &&& has_at(ticks, 5, "BuyOrderNO"@, ColumnType::UInt64)
            &&& has_at(ticks, 6, "SellOrderNO"@, ColumnType::UInt64)
            &&& has_at(ticks, 7, "Price"@, decimal)
            &&& has_at(ticks, 8, "Qty"@, ColumnType::Int64)
            &&& has_at(ticks, 9, "TickBSFlag"@, ColumnType::LargeUtf8)
            &&& has_at(ticks, 10, "LocalTime"@, ColumnType::LargeUtf8)
            &&& has_at(ticks, 11, "source_row_no"@, ColumnType::UInt64)
            &&& RawFeed::SseTicks.spec_name() == "mdl_4_24_0"@
        }),
        ({
            let orders = RawFeed::SzOrders.spec_columns();
            let decimal = ColumnType::Decimal { precision: 38, scale: 4 };
            &&& orders.len() == 10
            &&& has_at(orders, 0, "ChannelNo"@, ColumnType::Int32)
            &&& has_at(orders, 1, "ApplSeqNum"@, ColumnType::Int64)
            &&& has_at(orders, 2, "SecurityID"@, ColumnType::LargeUtf8)
            &&& has_at(orders, 3, "Price"@, decimal)
            &&& has_at(orders, 4, "OrderQty"@, ColumnType::Int64)
            &&& has_at(orders, 5, "Side"@, ColumnType::Int32)
            &&& has_at(orders, 6, "TransactTime"@, ColumnType::LargeUtf8)
            &&& has_at(orders, 7, "OrdType"@, ColumnType::Int32)
            &&& has_at(orders, 8, "LocalTime"@, ColumnType::LargeUtf8)
            &&& has_at(orders, 9, "source_row_no"@, ColumnType::UInt64)
            &&& RawFeed::SzOrders.spec_name() == "mdl_6_33_0"@
        }),
        ({
            let executions = RawFeed::SzExecutions.spec_columns();
            let decimal = ColumnType::Decimal { precision: 38, scale: 4 };
            &&& executions.len() == 11
            &&& has_at(executions, 0, "ChannelNo"@, ColumnType::Int32)
            &&& has_at(executions, 1, "ApplSeqNum"@, ColumnType::Int64)
            &&& has_at(executions, 2, "BidApplSeqNum"@, ColumnType::Int64)
            &&& has_at(executions, 3, "OfferApplSeqNum"@, ColumnType::Int64)
            &&& has_at(executions, 4, "SecurityID"@, ColumnType::LargeUtf8)
            &&& has_at(executions, 5, "LastPx"@, decimal)
            &&& has_at(executions, 6, "LastQty"@, ColumnType::Int64)
            &&& has_at(executions, 7, "ExecType"@, ColumnType::Int32)
            &&& has_at(executions, 8, "TransactTime"@, ColumnType::LargeUtf8)
            &&& has_at(executions, 9, "LocalTime"@, ColumnType::LargeUtf8)
            &&& has_at(executions, 10, "source_row_no"@, ColumnType::UInt64)
            &&& RawFeed::SzExecutions.spec_name() == "mdl_6_36_0"@
        }),
{
}

/// A column is found at the first place where its name stands.
pub proof fn columns_are_found_by_their_name(
    columns: Seq<super::schema::ColumnModel>,
    name: Seq<char>,
)
    ensures
        match column_place(columns, name) {
            Some(place) => {
                &&& 0 <= place < columns.len()
                &&& columns[place].name == name
                &&& forall|i: int| 0 <= i < place ==> (#[trigger] columns[i]).name != name
            },
            None => forall|i: int| 0 <= i < columns.len() ==> (#[trigger] columns[i]).name != name,
        },
    decreases columns.len(),
{
    if columns.len() > 0 {
        let front = columns.drop_last();
        columns_are_found_by_their_name(front, name);
        match column_place(front, name) {
            Some(place) => {
                assert forall|i: int| 0 <= i < place implies (#[trigger] columns[i]).name
                    != name by {
                    assert(front[i] == columns[i]);
                }
                assert(front[place] == columns[place]);
            },
            None => {
                assert forall|i: int| 0 <= i < columns.len() - 1 implies (
                #[trigger] columns[i]).name != name by {
                    assert(front[i] == columns[i]);
                }
            },
        }
    }
}

/// Columns are accepted exactly where each required one is there with its type.
pub proof fn required_columns_are_checked(
    columns: Seq<super::schema::ColumnModel>,
    required: Seq<(Seq<char>, ColumnType)>,
)
    ensures
        columns_error(columns, required) is None <==> forall|i: int|
            0 <= i < required.len() ==> {
                let place = column_place(columns, (#[trigger] required[i]).0);
                place is Some && columns[place->0].kind == required[i].1
            },
    decreases required.len(),
{
    if required.len() > 0 {
        let rest = required.drop_first();
        required_columns_are_checked(columns, rest);
        assert forall|i: int| 0 <= i < rest.len() implies #[trigger] rest[i] == required[i + 1] by {
        }
        assert(forall|i: int| 1 <= i < required.len() ==> #[trigger] required[i] == rest[i - 1]);
    }
}

/// The value of a footer key is that of its last entry.
pub proof fn footers_hold_their_last_entry(entries: Seq<(String, String)>, key: Seq<char>)
    ensures
        match footer_value(entries, key) {
            Some(value) => exists|i: int|
                {
                    &&& 0 <= i < entries.len()
                    &&& (#[trigger] entries[i]).0@ == key
                    &&& entries[i].1@ == value
                    &&& forall|j: int| i < j < entries.len() ==> (#[trigger] entries[j]).0@ != key
                },
            None => forall|i: int| 0 <= i < entries.len() ==> (#[trigger] entries[i]).0@ != key,
        },
    decreases entries.len(),
{
    if entries.len() > 0 {
        let front = entries.drop_last();
        if entries.last().0@ == key {
            assert(entries[entries.len() - 1].0@ == key);
        } else {
            footers_hold_their_last_entry(front, key);
            if footer_value(front, key) is Some {
                let i = choose|i: int|
                    {
                        &&& 0 <= i < front.len()
                        &&& (#[trigger] front[i]).0@ == key
                        &&& front[i].1@ == footer_value(front, key)->0
                        &&& forall|j: int|
                            i < j < front.len() ==> (#[trigger] front[j]).0@ != key
                    };
                assert(entries[i] == front[i]);
                assert forall|j: int| i < j < entries.len() implies (#[trigger] entries[j]).0@
                    != key by {
                    if j < front.len() {
                        assert(front[j] == entries[j]);
                    }
                }
            } else {
                assert forall|i: int| 0 <= i < entries.len() implies (#[trigger] entries[i]).0@
                    != key by {
                    if i < front.len() {
                        assert(front[i] == entries[i]);
                    }
                }
            }
        }
    }
}

/// A footer is accepted exactly where it names the market, the feed and the versions, and
/// holds a hash and an identifier of its schema.
pub proof fn footers_name_their_feed(
    entries: Seq<(String, String)>,
    market: Seq<char>,
    feed: Seq<char>,
)
    ensures
        footer_error(entries, market, feed) is None <==> {
            &&& footer_value(entries, "clara.raw.market"@) == Some(market)
            &&& footer_value(entries, "clara.raw.feed"@) == Some(feed)
            &&& footer_value(entries, "clara.raw.document_version"@) == Some("4.1"@)
            &&& footer_value(entries, "clara.raw.format_version"@) == Some("2"@)
            &&& footer_value(entries, "clara.raw.schema_hash"@) is Some
            &&& footer_value(entries, "clara.raw.schema_hash"@)->0.len() > 0
            &&& footer_value(entries, "clara.raw.schema_id"@) is Some
            &&& footer_value(entries, "clara.raw.schema_id"@)->0.len() > 0
        },
{
}

/// The leading columns of a snapshot file: what each is called and holds of a row.
pub proof fn snapshot_files_begin_with_their_keys(rows: Seq<SnapshotModel>, i: int)
    requires
        0 <= i < rows.len(),
    ensures
        ({
            let columns = leading_columns(rows);
            let row = rows[i];
            &&& columns.len() == 6
            &&& columns[0].name == "symbol"@ && !columns[0].nullable
            &&& columns[0].values is Text && columns[0].values->Text_0.len() == rows.len()
            &&& columns[0].values->Text_0[i] == row.symbol
            &&& columns[1].name == "channel"@ && !columns[1].nullable
            &&& columns[1].values is Narrow && columns[1].values->Narrow_0[i] == row.channel
            &&& columns[2].name == "snapshot_kind"@ && !columns[2].nullable
            &&& columns[2].values is Text
            &&& row.kind == SnapshotKind::Scheduled ==> columns[2].values->Text_0[i]
                == "scheduled"@
            &&& row.kind == SnapshotKind::MarketClose ==> columns[2].values->Text_0[i]
                == "market_close"@
            &&& columns[3].name == "boundary_time"@ && !columns[3].nullable
            &&& columns[3].values is Time && columns[3].values->Time_0[i] == Some(
                row.boundary_time_ns,
            )
            &&& columns[4].name == "last_local_time"@ && columns[4].nullable
            &&& columns[4].values is Time && columns[4].values->Time_0[i] == row.last_local_time_ns
            &&& columns[5].name == "last_quote_time"@ && columns[5].nullable
            &&& columns[5].values is Time && columns[5].values->Time_0[i] == row.last_quote_time_ns
        }),
{
}

/// The trailing columns of a snapshot file: what each is called and holds of a row.
pub proof fn snapshot_files_end_with_their_totals(rows: Seq<SnapshotModel>, i: int)
    requires
        0 <= i < rows.len(),
    ensures
        ({
            let columns = trailing_columns(rows);
            let book = rows[i].book;
            &&& columns.len() == 10
            &&& columns[0].name == "total_bid_quantity"@ && !columns[0].nullable
            &&& columns[0].values is Count && columns[0].values->Count_0[i] == Some(
                book.total_bid_quantity,
            )
            &&& columns[1].name == "weighted_bid_price"@ && shows_price(
                columns[1].values,
                i,
                book.weighted_bid_price_units,
            )
            &&& columns[2].name == "total_ask_quantity"@ && !columns[2].nullable
            &&& columns[2].values is Count && columns[2].values->Count_0[i] == Some(
                book.total_ask_quantity,
            )
            &&& columns[3].name == "weighted_ask_price"@ && shows_price(
                columns[3].values,
                i,
                book.weighted_ask_price_units,
            )
            &&& columns[4].name == "last_price"@ && shows_price(
                columns[4].values,
                i,
                book.last_price_units,
            )
            &&& columns[5].name == "high_price"@ && shows_price(
                columns[5].values,
                i,
                book.high_price_units,
            )
            &&& columns[6].name == "low_price"@ && shows_price(
                columns[6].values,
                i,
                book.low_price_units,
            )
            &&& columns[7].name == "trade_count"@ && !columns[7].nullable
            &&& columns[7].values is Count && columns[7].values->Count_0[i] == Some(
                book.trade_count,
            )
            &&& columns[8].name == "trade_quantity"@ && !columns[8].nullable
            &&& columns[8].values is Count && columns[8].values->Count_0[i] == Some(
                book.trade_quantity,
            )
            &&& columns[9].name == "turnover"@ && !columns[9].nullable
            &&& columns[9].values is Decimal && columns[9].values->Decimal_0 == 38
            &&& book.turnover_units <= i128::MAX ==> columns[9].values->Decimal_1[i] is Some
                && columns[9].values->Decimal_1[i]->0 == book.turnover_units
            &&& columns[1].nullable && columns[3].nullable && columns[4].nullable
                && columns[5].nullable && columns[6].nullable
        }),
{
}

/// Whether a column of prices shows a price, or none, in a row.
pub open spec fn shows_price(values: ValuesModel, i: int, units: Option<i64>) -> bool {
    &&& values is Decimal
    &&& values->Decimal_0 == 18
    &&& match units {
        None => values->Decimal_1[i] is None,
        Some(units) => values->Decimal_1[i] is Some && values->Decimal_1[i]->0 == units,
    }
}

/// Each level of a side has three columns, which show its price, its quantity and the number of
/// its orders, or nothing where a row has no such level.
pub proof fn levels_have_three_columns(
    rows: Seq<SnapshotModel>,
    asks: bool,
    depth: nat,
    level: nat,
    i: int,
)
    requires
        level < depth <= usize::MAX,
        0 <= i < rows.len(),
    ensures
        ({
            let columns = level_columns(rows, asks, depth);
            let levels = if asks {
                rows[i].book.asks
            } else {
                rows[i].book.bids
            };
            let stem = if asks {
                "ask"@
            } else {
                "bid"@
            };
            let number = nat_text(level + 1);
            let at = 3 * level as int;
            &&& columns.len() == 3 * depth
            &&& columns[at].name == stem + "_price_"@ + number
            &&& columns[at + 1].name == stem + "_quantity_"@ + number
            &&& columns[at + 2].name == stem + "_order_count_"@ + number
            &&& columns[at].nullable && columns[at + 1].nullable && columns[at + 2].nullable
            &&& shows_price(
                columns[at].values,
                i,
                if level < levels.len() {
                    Some(levels[level as int].price_units)
                } else {
                    None
                },
            )
            &&& columns[at + 1].values is Count
            &&& columns[at + 2].values is Count
            &&& columns[at + 1].values->Count_0[i] == if level < levels.len() {
                Some(levels[level as int].quantity)
            } else {
                None
            }
            &&& columns[at + 2].values->Count_0[i] == if level < levels.len() {
                Some(levels[level as int].order_count)
            } else {
                None
            }
        }),
    decreases depth,
{
    if level + 1 < depth {
        levels_have_three_columns(rows, asks, (depth - 1) as nat, level, i);
    } else {
        lemma_level_column_count(rows, asks, (depth - 1) as nat);
    }
}

proof fn lemma_level_column_count(rows: Seq<SnapshotModel>, asks: bool, depth: nat)
    ensures
        level_columns(rows, asks, depth).len() == 3 * depth,
    decreases depth,
{
    if depth > 0 {
        lemma_level_column_count(rows, asks, (depth - 1) as nat);
    }
}

/// A snapshot file has its keys first, then the levels of the asks, then those of the bids,
/// then the totals.
pub proof fn snapshot_files_are_laid_out(rows: Seq<SnapshotModel>, depth: nat)
    ensures
        ({
            let columns = snapshot_columns(rows, depth);
            let asks = level_columns(rows, true, depth);
            let bids = level_columns(rows, false, depth);
            &&& columns.len() == 16 + 6 * depth
            &&& columns.take(6) == leading_columns(rows)
            &&& columns.subrange(6, 6int + 3 * depth) == asks
            &&& columns.subrange(6int + 3 * depth, 6int + 6 * depth) == bids
            &&& columns.skip(6int + 6 * depth) == trailing_columns(rows)
        }),
{
    lemma_level_column_count(rows, true, depth);
    lemma_level_column_count(rows, false, depth);
    let columns = snapshot_columns(rows, depth);
    assert(columns.take(6) =~= leading_columns(rows));
    assert(columns.subrange(6, 6int + 3 * depth) =~= level_columns(rows, true, depth));
    assert(columns.subrange(6int + 3 * depth, 6int + 6 * depth) =~= level_columns(rows, false, depth));
    assert(columns.skip(6int + 6 * depth) =~= trailing_columns(rows));
}

/// Where the fields of a Shanghai row stand in its bytes, and the bytes of its kinds and flags.
pub proof fn shanghai_rows_have_this_layout(row: SseModel)
    requires
        is_spool_symbol(row.symbol),
    ensures
        ({
            let bytes = sse_bytes(row);
            &&& bytes.len() == 77
            &&& u64_at(bytes, 0) == row.source_row
            &&& u64_at(bytes, 8) == row.sequence
            &&& u32_at(bytes, 16) == row.channel
            &&& i64_at(bytes, 26) == row.quote_time_ns
            &&& i64_at(bytes, 34) == row.local_time_ns
            &&& row.kind == SseKind::Add <==> bytes[42] == 1
            &&& row.kind == SseKind::Delete <==> bytes[42] == 2
            &&& row.kind == SseKind::Trade <==> bytes[42] == 3
            &&& row.kind == SseKind::Status <==> bytes[42] == 4
            &&& u64_at(bytes, 43) == row.buy_order_no
            &&& u64_at(bytes, 51) == row.sell_order_no
            &&& i64_at(bytes, 59) == row.price_units
            &&& u64_at(bytes, 67) == row.quantity
            &&& row.flag == Aggressor::Buy <==> bytes[75] == 1
            &&& row.flag == Aggressor::Sell <==> bytes[75] == 2
            &&& row.flag == Aggressor::Neutral <==> bytes[75] == 3
            &&& row.flag == Aggressor::Other <==> bytes[75] == 4
            &&& bytes[76] == row.status
        }),
{
    sse_rows_are_read_back(row);
}

/// Where the fields of a Shenzhen order stand in its bytes, and the bytes of its side and kind.
pub proof fn shenzhen_orders_have_this_layout(row: SzOrderModel)
    requires
        is_spool_symbol(row.symbol),
    ensures
        ({
            let bytes = sz_order_bytes(row);
            &&& bytes.len() == 60
            &&& u64_at(bytes, 0) == row.source_row
            &&& u64_at(bytes, 8) == row.sequence
            &&& u32_at(bytes, 16) == row.channel
            &&& i64_at(bytes, 26) == row.quote_time_ns
            &&& i64_at(bytes, 34) == row.local_time_ns
            &&& i64_at(bytes, 42) == row.price_units
            &&& u64_at(bytes, 50) == row.quantity
            &&& row.side == SzSide::Buy <==> bytes[58] == 1
            &&& row.side == SzSide::Sell <==> bytes[58] == 2
            &&& row.kind == SzOrderKind::Market <==> bytes[59] == 1
            &&& row.kind == SzOrderKind::Limit <==> bytes[59] == 2
            &&& row.kind == SzOrderKind::SameSideBest <==> bytes[59] == 3
        }),
{
    sz_orders_are_read_back(row);
}

/// Where the fields of a Shenzhen execution stand in its bytes, and the bytes of its kind.
pub proof fn shenzhen_executions_have_this_layout(row: SzExecutionModel)
    requires
        is_spool_symbol(row.symbol),
    ensures
        ({
            let bytes = sz_execution_bytes(row);
            &&& bytes.len() == 75
            &&& u64_at(bytes, 0) == row.source_row
            &&& u64_at(bytes, 8) == row.sequence
            &&& u32_at(bytes, 16) == row.channel
            &&& i64_at(bytes, 26) == row.quote_time_ns
            &&& i64_at(bytes, 34) == row.local_time_ns
            &&& u64_at(bytes, 42) == row.bid_order_no
            &&& u64_at(bytes, 50) == row.ask_order_no
            &&& i64_at(bytes, 58) == row.price_units
            &&& u64_at(bytes, 66) == row.quantity
            &&& row.kind == SzExecutionKind::Trade <==> bytes[74] == 1
            &&& row.kind == SzExecutionKind::Cancel <==> bytes[74] == 2
        }),
{
    sz_executions_are_read_back(row);
}

/// What a spool file begins with and is called: the letters QTP1, the byte of its kind, the
/// channel and the suffix of its kind.
pub proof fn spool_files_tell_their_kind(kind: SpoolKind, channel: u32)
    ensures
        ({
            let header = header_bytes(kind);
            &&& header.len() == 5
            &&& header[0] == 'Q' as u8 && header[1] == 'T' as u8 && header[2] == 'P' as u8
                && header[3] == '1' as u8
            &&& kind == SpoolKind::Sse <==> header[4] == 1
            &&& kind == SpoolKind::SzOrder <==> header[4] == 2
            &&& kind == SpoolKind::SzExecution <==> header[4] == 3
            &&& kind == SpoolKind::Sse ==> kind.spec_row_bytes() == 77 && spool_name(channel, kind)
                == "channel-"@ + nat_text(channel as nat) + "."@ + "sse"@ + ".bin"@
            &&& kind == SpoolKind::SzOrder ==> kind.spec_row_bytes() == 60 && spool_name(
                channel,
                kind,
            ) == "channel-"@ + nat_text(channel as nat) + "."@ + "orders"@ + ".bin"@
            &&& kind == SpoolKind::SzExecution ==> kind.spec_row_bytes() == 75 && spool_name(
                channel,
                kind,
            ) == "channel-"@ + nat_text(channel as nat) + "."@ + "executions"@ + ".bin"@
        }),
{
}

} // verus!
