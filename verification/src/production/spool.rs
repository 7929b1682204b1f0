//! The byte form of channel rows.

use vstd::bytes::{
    lemma_auto_spec_u32_to_from_le_bytes, lemma_auto_spec_u64_to_from_le_bytes,
    spec_u32_from_le_bytes, spec_u32_to_le_bytes, spec_u64_from_le_bytes, spec_u64_to_le_bytes,
    u32_from_le_bytes, u32_to_le_bytes, u64_from_le_bytes, u64_to_le_bytes,
};
use vstd::prelude::*;
use vstd::slice::slice_subrange;
use vstd::string::{StrSliceExecFns, StringExecFns};
use vstd::utf8::{decode_utf8, encode_utf8, valid_utf8};

use crate::text::{concat, nat_text, u64_text};

use super::rows::{
    Aggressor, SseKind, SseModel, SseRow, SzExecutionKind, SzExecutionModel, SzExecutionRow,
    SzOrderKind, SzOrderModel, SzOrderRow, SzSide,
};
use super::time::{digits_value, is_digit};

verus! {

/// What a stream of rows holds.
#[derive(Clone, Copy, Debug, PartialEq, Eq, Structural)]
pub enum SpoolKind {
    Sse,
    SzOrder,
    SzExecution,
}

pub const HEADER_BYTES: usize = 5;

pub const COMMON_BYTES: usize = 42;

pub const SSE_BYTES: usize = 77;

pub const SZ_ORDER_BYTES: usize = 60;

pub const SZ_EXECUTION_BYTES: usize = 75;

impl SpoolKind {
    pub open spec fn spec_byte(self) -> u8 {
        match self {
            SpoolKind::Sse => 1,
            SpoolKind::SzOrder => 2,
            SpoolKind::SzExecution => 3,
        }
    }

    #[must_use]
    pub fn byte(self) -> (r: u8)
        ensures
            r == self.spec_byte(),
    {
        match self {
            SpoolKind::Sse => 1,
            SpoolKind::SzOrder => 2,
            SpoolKind::SzExecution => 3,
        }
    }

    pub open spec fn spec_suffix(self) -> Seq<char> {
        match self {
            SpoolKind::Sse => "sse"@,
            SpoolKind::SzOrder => "orders"@,
            SpoolKind::SzExecution => "executions"@,
        }
    }

    #[must_use]
    pub fn suffix(self) -> (r: &'static str)
        ensures
            r@ == self.spec_suffix(),
    {
        match self {
            SpoolKind::Sse => "sse",
            SpoolKind::SzOrder => "orders",
            SpoolKind::SzExecution => "executions",
        }
    }

    /// The bytes of one row.
    #[must_use]
    pub fn row_bytes(self) -> (r: usize)
        ensures
            r == self.spec_row_bytes(),
    {
        match self {
            SpoolKind::Sse => SSE_BYTES,
            SpoolKind::SzOrder => SZ_ORDER_BYTES,
            SpoolKind::SzExecution => SZ_EXECUTION_BYTES,
        }
    }

    pub open spec fn spec_row_bytes(self) -> usize {
        match self {
            SpoolKind::Sse => SSE_BYTES,
            SpoolKind::SzOrder => SZ_ORDER_BYTES,
            SpoolKind::SzExecution => SZ_EXECUTION_BYTES,
        }
    }
}

/// The first bytes of a stream: `QTP1` and what it holds.
pub open spec fn header_bytes(kind: SpoolKind) -> Seq<u8> {
    seq![81u8, 84u8, 80u8, 49u8, kind.spec_byte()]
}

#[must_use]
pub fn spool_header(kind: SpoolKind) -> (r: Vec<u8>)
    ensures
        r@ == header_bytes(kind),
{
    let mut r: Vec<u8> = Vec::new();
    r.push(81);
    r.push(84);
    r.push(80);
    r.push(49);
    r.push(kind.byte());
    assert(r@ =~= header_bytes(kind));
    r
}

/// Whether bytes are the header of a stream.
pub fn is_spool_header(bytes: &[u8], kind: SpoolKind) -> (r: bool)
    ensures
        r == (bytes@ == header_bytes(kind)),
{
    let r = bytes.len() == HEADER_BYTES && bytes[0] == 81 && bytes[1] == 84 && bytes[2] == 80
        && bytes[3] == 49 && bytes[4] == kind.byte();
    assert(r ==> bytes@ =~= header_bytes(kind));
    r
}

/// The two's complement of a signed number.
pub open spec fn signed_bits(value: i64) -> u64 {
    value as u64
}

pub open spec fn signed_value(bits: u64) -> i64 {
    bits as i64
}

/// Whether a symbol is spelled with six ASCII bytes.
pub open spec fn is_spool_symbol(symbol: Seq<char>) -> bool {
    &&& encode_utf8(symbol).len() == 6
    &&& forall|i: int| 0 <= i < 6 ==> #[trigger] encode_utf8(symbol)[i] < 128
}

pub open spec fn common_bytes(
    source_row: u64,
    sequence: u64,
    channel: u32,
    symbol: Seq<char>,
    quote_time_ns: i64,
    local_time_ns: i64,
) -> Seq<u8> {
    spec_u64_to_le_bytes(source_row) + spec_u64_to_le_bytes(sequence) + spec_u32_to_le_bytes(
        channel,
    ) + encode_utf8(symbol) + spec_u64_to_le_bytes(signed_bits(quote_time_ns))
        + spec_u64_to_le_bytes(signed_bits(local_time_ns))
}

pub open spec fn sse_kind_byte(kind: SseKind) -> u8 {
    match kind {
        SseKind::Add => 1,
        SseKind::Delete => 2,
        SseKind::Trade => 3,
        SseKind::Status => 4,
    }
}

pub open spec fn aggressor_byte(flag: Aggressor) -> u8 {
    match flag {
        Aggressor::Buy => 1,
        Aggressor::Sell => 2,
        Aggressor::Neutral => 3,
        Aggressor::Other => 4,
    }
}

pub open spec fn side_byte(side: SzSide) -> u8 {
    match side {
        SzSide::Buy => 1,
        SzSide::Sell => 2,
    }
}

pub open spec fn order_kind_byte(kind: SzOrderKind) -> u8 {
    match kind {
        SzOrderKind::Market => 1,
        SzOrderKind::Limit => 2,
        SzOrderKind::SameSideBest => 3,
    }
}

pub open spec fn execution_kind_byte(kind: SzExecutionKind) -> u8 {
    match kind {
        SzExecutionKind::Trade => 1,
        SzExecutionKind::Cancel => 2,
    }
}

/// The bytes of a Shanghai row.
pub open spec fn sse_bytes(row: SseModel) -> Seq<u8> {
    common_bytes(
        row.source_row,
        row.sequence,
        row.channel,
        row.symbol,
        row.quote_time_ns,
        row.local_time_ns,
    ) + seq![sse_kind_byte(row.kind)] + spec_u64_to_le_bytes(row.buy_order_no)
        + spec_u64_to_le_bytes(row.sell_order_no) + spec_u64_to_le_bytes(
        signed_bits(row.price_units),
    ) + spec_u64_to_le_bytes(row.quantity) + seq![aggressor_byte(row.flag)] + seq![row.status]
}

/// The bytes of a Shenzhen order.
pub open spec fn sz_order_bytes(row: SzOrderModel) -> Seq<u8> {
    common_bytes(
        row.source_row,
        row.sequence,
        row.channel,
        row.symbol,
        row.quote_time_ns,
        row.local_time_ns,
    ) + spec_u64_to_le_bytes(signed_bits(row.price_units)) + spec_u64_to_le_bytes(row.quantity)
        + seq![side_byte(row.side)] + seq![order_kind_byte(row.kind)]
}

/// The bytes of a Shenzhen execution.
pub open spec fn sz_execution_bytes(row: SzExecutionModel) -> Seq<u8> {
    common_bytes(
        row.source_row,
        row.sequence,
        row.channel,
        row.symbol,
        row.quote_time_ns,
        row.local_time_ns,
    ) + spec_u64_to_le_bytes(row.bid_order_no) + spec_u64_to_le_bytes(row.ask_order_no)
        + spec_u64_to_le_bytes(signed_bits(row.price_units)) + spec_u64_to_le_bytes(row.quantity)
        + seq![execution_kind_byte(row.kind)]
}

fn put(out: &mut Vec<u8>, bytes: &[u8])
    ensures
        final(out)@ == old(out)@ + bytes@,
{
    let ghost before = out@;
    let mut at: usize = 0;
    assert(bytes@.take(0) =~= Seq::empty());
    assert(before + Seq::<u8>::empty() =~= before);
    while at < bytes.len()
        invariant
            at <= bytes@.len(),
            out@ == before + bytes@.take(at as int),
        decreases bytes@.len() - at,
    {
        out.push(bytes[at]);
        assert(out@ =~= before + bytes@.take(at + 1));
        at = at + 1;
    }
    assert(bytes@.take(at as int) =~= bytes@);
}

fn put_u8(out: &mut Vec<u8>, value: u8)
    ensures
        final(out)@ == old(out)@ + seq![value],
{
    let ghost before = out@;
    out.push(value);
    assert(out@ =~= before + seq![value]);
}

fn put_u64(out: &mut Vec<u8>, value: u64)
    ensures
        final(out)@ == old(out)@ + spec_u64_to_le_bytes(value),
{
    let bytes = u64_to_le_bytes(value);
    put(out, bytes.as_slice());
}

fn put_i64(out: &mut Vec<u8>, value: i64)
    ensures
        final(out)@ == old(out)@ + spec_u64_to_le_bytes(signed_bits(value)),
{
    put_u64(out, value as u64);
}

fn put_common(
    out: &mut Vec<u8>,
    source_row: u64,
    sequence: u64,
    channel: u32,
    symbol: &str,
    quote_time_ns: i64,
    local_time_ns: i64,
) -> (r: Result<(), &'static str>)
    requires
        old(out)@.len() == 0,
    ensures
        r is Ok <==> is_spool_symbol(symbol@),
        r is Ok ==> final(out)@ == common_bytes(
            source_row,
            sequence,
            channel,
            symbol@,
            quote_time_ns,
            local_time_ns,
        ),
        r is Err ==> r->Err_0@ == "spool symbol must contain six ASCII bytes"@,
{
    let bytes = symbol.as_bytes();
    let six = bytes.len() == 6 && bytes[0] < 128 && bytes[1] < 128 && bytes[2] < 128 && bytes[3]
        < 128 && bytes[4] < 128 && bytes[5] < 128;
    if !six {
        return Err("spool symbol must contain six ASCII bytes");
    }
    put_u64(out, source_row);
    put_u64(out, sequence);
    let channel_bytes = u32_to_le_bytes(channel);
    put(out, channel_bytes.as_slice());
    put(out, bytes);
    put_i64(out, quote_time_ns);
    put_i64(out, local_time_ns);
    assert(out@ =~= common_bytes(
        source_row,
        sequence,
        channel,
        symbol@,
        quote_time_ns,
        local_time_ns,
    ));
    Ok(())
}

/// The bytes of a Shanghai row.
pub fn encode_sse(row: &SseRow) -> (r: Result<Vec<u8>, &'static str>)
    ensures
        r is Ok <==> is_spool_symbol(row.symbol@),
        r is Ok ==> r->Ok_0@ == sse_bytes(row@),
        r is Err ==> r->Err_0@ == "spool symbol must contain six ASCII bytes"@,
{
    let mut out: Vec<u8> = Vec::new();
    match put_common(
        &mut out,
        row.source_row,
        row.sequence,
        row.channel,
        row.symbol.as_str(),
        row.quote_time_ns,
        row.local_time_ns,
    ) {
        Ok(()) => {},
        Err(error) => return Err(error),
    }
    put_u8(
        &mut out,
        match row.kind {
            SseKind::Add => 1,
            SseKind::Delete => 2,
            SseKind::Trade => 3,
            SseKind::Status => 4,
        },
    );
    put_u64(&mut out, row.buy_order_no);
    put_u64(&mut out, row.sell_order_no);
    put_i64(&mut out, row.price_units);
    put_u64(&mut out, row.quantity);
    put_u8(
        &mut out,
        match row.flag {
            Aggressor::Buy => 1,
            Aggressor::Sell => 2,
            Aggressor::Neutral => 3,
            Aggressor::Other => 4,
        },
    );
    put_u8(&mut out, row.status);
    Ok(out)
}

/// The bytes of a Shenzhen order.
pub fn encode_sz_order(row: &SzOrderRow) -> (r: Result<Vec<u8>, &'static str>)
    ensures
        r is Ok <==> is_spool_symbol(row.symbol@),
        r is Ok ==> r->Ok_0@ == sz_order_bytes(row@),
        r is Err ==> r->Err_0@ == "spool symbol must contain six ASCII bytes"@,
{
    let mut out: Vec<u8> = Vec::new();
    match put_common(
        &mut out,
        row.source_row,
        row.sequence,
        row.channel,
        row.symbol.as_str(),
        row.quote_time_ns,
        row.local_time_ns,
    ) {
        Ok(()) => {},
        Err(error) => return Err(error),
    }
    put_i64(&mut out, row.price_units);
    put_u64(&mut out, row.quantity);
    put_u8(
        &mut out,
        match row.side {
            SzSide::Buy => 1,
            SzSide::Sell => 2,
        },
    );
    put_u8(
        &mut out,
        match row.kind {
            SzOrderKind::Market => 1,
            SzOrderKind::Limit => 2,
            SzOrderKind::SameSideBest => 3,
        },
    );
    Ok(out)
}

/// The bytes of a Shenzhen execution.
pub fn encode_sz_execution(row: &SzExecutionRow) -> (r: Result<Vec<u8>, &'static str>)
    ensures
        r is Ok <==> is_spool_symbol(row.symbol@),
        r is Ok ==> r->Ok_0@ == sz_execution_bytes(row@),
        r is Err ==> r->Err_0@ == "spool symbol must contain six ASCII bytes"@,
{
    let mut out: Vec<u8> = Vec::new();
    match put_common(
        &mut out,
        row.source_row,
        row.sequence,
        row.channel,
        row.symbol.as_str(),
        row.quote_time_ns,
        row.local_time_ns,
    ) {
        Ok(()) => {},
        Err(error) => return Err(error),
    }
    put_u64(&mut out, row.bid_order_no);
    put_u64(&mut out, row.ask_order_no);
    put_i64(&mut out, row.price_units);
    put_u64(&mut out, row.quantity);
    put_u8(
        &mut out,
        match row.kind {
            SzExecutionKind::Trade => 1,
            SzExecutionKind::Cancel => 2,
        },
    );
    Ok(out)
}

/// The number in eight bytes of a row.
pub open spec fn u64_at(bytes: Seq<u8>, at: int) -> u64 {
    spec_u64_from_le_bytes(bytes.subrange(at, at + 8))
}

pub open spec fn i64_at(bytes: Seq<u8>, at: int) -> i64 {
    signed_value(u64_at(bytes, at))
}

pub open spec fn u32_at(bytes: Seq<u8>, at: int) -> u32 {
    spec_u32_from_le_bytes(bytes.subrange(at, at + 4))
}

pub open spec fn symbol_at(bytes: Seq<u8>) -> Seq<u8> {
    bytes.subrange(20, 26)
}

/// The sequence of a row, of whatever kind.
pub fn row_sequence(bytes: &[u8]) -> (r: u64)
    requires
        bytes@.len() >= 16,
    ensures
        r == u64_at(bytes@, 8),
{
    get_u64(bytes, 8)
}

fn get_u64(bytes: &[u8], at: usize) -> (r: u64)
    requires
        at <= SSE_BYTES,
        at + 8 <= bytes@.len(),
    ensures
        r == u64_at(bytes@, at as int),
{
    u64_from_le_bytes(slice_subrange(bytes, at, at + 8))
}

fn get_i64(bytes: &[u8], at: usize) -> (r: i64)
    requires
        at <= SSE_BYTES,
        at + 8 <= bytes@.len(),
    ensures
        r == i64_at(bytes@, at as int),
{
    get_u64(bytes, at) as i64
}

/// `String::from_utf8`: the text that the bytes spell, where they are valid UTF-8.
#[verifier::external_body]
pub(crate) fn text_of(bytes: &[u8]) -> (r: Option<String>)
    ensures
        r is Some <==> valid_utf8(bytes@),
        r is Some ==> r->0@ == decode_utf8(bytes@),
{
    String::from_utf8(bytes.to_vec()).ok()
}

pub open spec fn sse_kind_of(byte: u8) -> Option<SseKind> {
    if byte == 1 {
        Some(SseKind::Add)
    } else if byte == 2 {
        Some(SseKind::Delete)
    } else if byte == 3 {
        Some(SseKind::Trade)
    } else if byte == 4 {
        Some(SseKind::Status)
    } else {
        None
    }
}

pub open spec fn aggressor_of(byte: u8) -> Option<Aggressor> {
    if byte == 1 {
        Some(Aggressor::Buy)
    } else if byte == 2 {
        Some(Aggressor::Sell)
    } else if byte == 3 {
        Some(Aggressor::Neutral)
    } else if byte == 4 {
        Some(Aggressor::Other)
    } else {
        None
    }
}

/// The Shanghai row that bytes hold, or what is wrong with them.
pub open spec fn sse_read(bytes: Seq<u8>) -> Result<SseModel, Seq<char>> {
    if !valid_utf8(symbol_at(bytes)) {
        Err("invalid symbol"@)
    } else if sse_kind_of(bytes[42]) is None {
        Err("invalid Shanghai event kind"@)
    } else if aggressor_of(bytes[75]) is None {
        Err("invalid Shanghai flag"@)
    } else {
        Ok(
            SseModel {
                source_row: u64_at(bytes, 0),
                sequence: u64_at(bytes, 8),
                channel: u32_at(bytes, 16),
                symbol: decode_utf8(symbol_at(bytes)),
                quote_time_ns: i64_at(bytes, 26),
                local_time_ns: i64_at(bytes, 34),
                kind: sse_kind_of(bytes[42])->0,
                buy_order_no: u64_at(bytes, 43),
                sell_order_no: u64_at(bytes, 51),
                price_units: i64_at(bytes, 59),
                quantity: u64_at(bytes, 67),
                flag: aggressor_of(bytes[75])->0,
                status: bytes[76],
            },
        )
    }
}

/// The Shenzhen order that bytes hold, or what is wrong with them.
pub open spec fn sz_order_read(bytes: Seq<u8>) -> Result<SzOrderModel, Seq<char>> {
    if !valid_utf8(symbol_at(bytes)) {
        Err("invalid symbol"@)
    } else if bytes[58] != 1 && bytes[58] != 2 {
        Err("invalid Shenzhen side"@)
    } else if bytes[59] != 1 && bytes[59] != 2 && bytes[59] != 3 {
        Err("invalid Shenzhen order kind"@)
    } else {
        Ok(
            SzOrderModel {
                source_row: u64_at(bytes, 0),
                sequence: u64_at(bytes, 8),
                channel: u32_at(bytes, 16),
                symbol: decode_utf8(symbol_at(bytes)),
                quote_time_ns: i64_at(bytes, 26),
                local_time_ns: i64_at(bytes, 34),
                price_units: i64_at(bytes, 42),
                quantity: u64_at(bytes, 50),
                side: if bytes[58] == 1 {
                    SzSide::Buy
                } else {
                    SzSide::Sell
                },
                kind: if bytes[59] == 1 {
                    SzOrderKind::Market
                } else if bytes[59] == 2 {
                    SzOrderKind::Limit
                } else {
                    SzOrderKind::SameSideBest
                },
            },
        )
    }
}

/// The Shenzhen execution that bytes hold, or what is wrong with them.
pub open spec fn sz_execution_read(bytes: Seq<u8>) -> Result<SzExecutionModel, Seq<char>> {
    if !valid_utf8(symbol_at(bytes)) {
        Err("invalid symbol"@)
    } else if bytes[74] != 1 && bytes[74] != 2 {
        Err("invalid Shenzhen execution kind"@)
    } else {
        Ok(
            SzExecutionModel {
                source_row: u64_at(bytes, 0),
                sequence: u64_at(bytes, 8),
                channel: u32_at(bytes, 16),
                symbol: decode_utf8(symbol_at(bytes)),
                quote_time_ns: i64_at(bytes, 26),
                local_time_ns: i64_at(bytes, 34),
                bid_order_no: u64_at(bytes, 42),
                ask_order_no: u64_at(bytes, 50),
                price_units: i64_at(bytes, 58),
                quantity: u64_at(bytes, 66),
                kind: if bytes[74] == 1 {
                    SzExecutionKind::Trade
                } else {
                    SzExecutionKind::Cancel
                },
            },
        )
    }
}

/// The Shanghai row that bytes hold.
pub fn decode_sse(bytes: &[u8]) -> (r: Result<SseRow, &'static str>)
    requires
        bytes@.len() == SSE_BYTES,
    ensures
        match sse_read(bytes@) {
            Ok(row) => r is Ok && r->Ok_0@ == row,
            Err(detail) => r is Err && r->Err_0@ == detail,
        },
{
    let symbol = match text_of(slice_subrange(bytes, 20, 26)) {
        Some(symbol) => symbol,
        None => return Err("invalid symbol"),
    };
    let kind_byte: u8 = bytes[42];
    let kind = if kind_byte == 1 {
        SseKind::Add
    } else if kind_byte == 2 {
        SseKind::Delete
    } else if kind_byte == 3 {
        SseKind::Trade
    } else if kind_byte == 4 {
        SseKind::Status
    } else {
        return Err("invalid Shanghai event kind");
    };
    let flag_byte: u8 = bytes[75];
    let flag = if flag_byte == 1 {
        Aggressor::Buy
    } else if flag_byte == 2 {
        Aggressor::Sell
    } else if flag_byte == 3 {
        Aggressor::Neutral
    } else if flag_byte == 4 {
        Aggressor::Other
    } else {
        return Err("invalid Shanghai flag");
    };
    Ok(
        SseRow {
            source_row: get_u64(bytes, 0),
            sequence: get_u64(bytes, 8),
            channel: u32_from_le_bytes(slice_subrange(bytes, 16, 20)),
            symbol,
            quote_time_ns: get_i64(bytes, 26),
            local_time_ns: get_i64(bytes, 34),
            kind,
            buy_order_no: get_u64(bytes, 43),
            sell_order_no: get_u64(bytes, 51),
            price_units: get_i64(bytes, 59),
            quantity: get_u64(bytes, 67),
            flag,
            status: bytes[76],
        },
    )
}

/// The Shenzhen order that bytes hold.
pub fn decode_sz_order(bytes: &[u8]) -> (r: Result<SzOrderRow, &'static str>)
    requires
        bytes@.len() == SZ_ORDER_BYTES,
    ensures
        match sz_order_read(bytes@) {
            Ok(row) => r is Ok && r->Ok_0@ == row,
            Err(detail) => r is Err && r->Err_0@ == detail,
        },
{
    let symbol = match text_of(slice_subrange(bytes, 20, 26)) {
        Some(symbol) => symbol,
        None => return Err("invalid symbol"),
    };
    let side_byte: u8 = bytes[58];
    let side = if side_byte == 1 {
        SzSide::Buy
    } else if side_byte == 2 {
        SzSide::Sell
    } else {
        return Err("invalid Shenzhen side");
    };
    let kind_byte: u8 = bytes[59];
    let kind = if kind_byte == 1 {
        SzOrderKind::Market
    } else if kind_byte == 2 {
        SzOrderKind::Limit
    } else if kind_byte == 3 {
        SzOrderKind::SameSideBest
    } else {
        return Err("invalid Shenzhen order kind");
    };
    Ok(
        SzOrderRow {
            source_row: get_u64(bytes, 0),
            sequence: get_u64(bytes, 8),
            channel: u32_from_le_bytes(slice_subrange(bytes, 16, 20)),
            symbol,
            quote_time_ns: get_i64(bytes, 26),
            local_time_ns: get_i64(bytes, 34),
            price_units: get_i64(bytes, 42),
            quantity: get_u64(bytes, 50),
            side,
            kind,
        },
    )
}

/// The Shenzhen execution that bytes hold.
pub fn decode_sz_execution(bytes: &[u8]) -> (r: Result<SzExecutionRow, &'static str>)
    requires
        bytes@.len() == SZ_EXECUTION_BYTES,
    ensures
        match sz_execution_read(bytes@) {
            Ok(row) => r is Ok && r->Ok_0@ == row,
            Err(detail) => r is Err && r->Err_0@ == detail,
        },
{
    let symbol = match text_of(slice_subrange(bytes, 20, 26)) {
        Some(symbol) => symbol,
        None => return Err("invalid symbol"),
    };
    let kind_byte: u8 = bytes[74];
    let kind = if kind_byte == 1 {
        SzExecutionKind::Trade
    } else if kind_byte == 2 {
        SzExecutionKind::Cancel
    } else {
        return Err("invalid Shenzhen execution kind");
    };
    Ok(
        SzExecutionRow {
            source_row: get_u64(bytes, 0),
            sequence: get_u64(bytes, 8),
            channel: u32_from_le_bytes(slice_subrange(bytes, 16, 20)),
            symbol,
            quote_time_ns: get_i64(bytes, 26),
            local_time_ns: get_i64(bytes, 34),
            bid_order_no: get_u64(bytes, 42),
            ask_order_no: get_u64(bytes, 50),
            price_units: get_i64(bytes, 58),
            quantity: get_u64(bytes, 66),
            kind,
        },
    )
}

proof fn lemma_signed(value: i64)
    ensures
        signed_value(signed_bits(value)) == value,
{
    assert((value as u64) as i64 == value) by (bit_vector);
}

/// What the common fields are read back as, whatever follows them.
proof fn lemma_common_read(
    source_row: u64,
    sequence: u64,
    channel: u32,
    symbol: Seq<char>,
    quote_time_ns: i64,
    local_time_ns: i64,
    rest: Seq<u8>,
)
    requires
        is_spool_symbol(symbol),
    ensures
        ({
            let common = common_bytes(
                source_row,
                sequence,
                channel,
                symbol,
                quote_time_ns,
                local_time_ns,
            );
            let bytes = common + rest;
            &&& common.len() == COMMON_BYTES
            &&& u64_at(bytes, 0) == source_row
            &&& u64_at(bytes, 8) == sequence
            &&& u32_at(bytes, 16) == channel
            &&& valid_utf8(symbol_at(bytes))
            &&& decode_utf8(symbol_at(bytes)) == symbol
            &&& i64_at(bytes, 26) == quote_time_ns
            &&& i64_at(bytes, 34) == local_time_ns
        }),
{
    lemma_auto_spec_u64_to_from_le_bytes();
    lemma_auto_spec_u32_to_from_le_bytes();
    lemma_signed(quote_time_ns);
    lemma_signed(local_time_ns);
    let common = common_bytes(
        source_row,
        sequence,
        channel,
        symbol,
        quote_time_ns,
        local_time_ns,
    );
    let bytes = common + rest;
    assert(spec_u64_to_le_bytes(source_row).len() == 8);
    assert(spec_u64_to_le_bytes(sequence).len() == 8);
    assert(spec_u32_to_le_bytes(channel).len() == 4);
    assert(spec_u64_to_le_bytes(signed_bits(quote_time_ns)).len() == 8);
    assert(spec_u64_to_le_bytes(signed_bits(local_time_ns)).len() == 8);
    assert(bytes.subrange(0, 8) =~= spec_u64_to_le_bytes(source_row));
    assert(bytes.subrange(8, 16) =~= spec_u64_to_le_bytes(sequence));
    assert(bytes.subrange(16, 20) =~= spec_u32_to_le_bytes(channel));
    assert(bytes.subrange(20, 26) =~= encode_utf8(symbol));
    assert(bytes.subrange(26, 34) =~= spec_u64_to_le_bytes(signed_bits(quote_time_ns)));
    assert(bytes.subrange(34, 42) =~= spec_u64_to_le_bytes(signed_bits(local_time_ns)));
    vstd::utf8::encode_utf8_valid_utf8(symbol);
    vstd::utf8::encode_utf8_decode_utf8(symbol);
}

/// A Shanghai row is read back from its bytes as it was.
pub proof fn sse_rows_are_read_back(row: SseModel)
    requires
        is_spool_symbol(row.symbol),
    ensures
        sse_bytes(row).len() == SSE_BYTES,
        sse_read(sse_bytes(row)) == Ok::<SseModel, Seq<char>>(row),
{
    lemma_auto_spec_u64_to_from_le_bytes();
    lemma_signed(row.price_units);
    let common = common_bytes(
        row.source_row,
        row.sequence,
        row.channel,
        row.symbol,
        row.quote_time_ns,
        row.local_time_ns,
    );
    let buy = spec_u64_to_le_bytes(row.buy_order_no);
    let sell = spec_u64_to_le_bytes(row.sell_order_no);
    let price = spec_u64_to_le_bytes(signed_bits(row.price_units));
    let quantity = spec_u64_to_le_bytes(row.quantity);
    let rest = seq![sse_kind_byte(row.kind)] + buy + sell + price + quantity + seq![
        aggressor_byte(row.flag),
    ] + seq![row.status];
    let bytes = sse_bytes(row);
    lemma_common_read(
        row.source_row,
        row.sequence,
        row.channel,
        row.symbol,
        row.quote_time_ns,
        row.local_time_ns,
        rest,
    );
    assert(bytes =~= common + rest);
    assert(buy.len() == 8 && sell.len() == 8 && price.len() == 8 && quantity.len() == 8);
    assert(bytes.subrange(43, 51) =~= buy);
    assert(bytes.subrange(51, 59) =~= sell);
    assert(bytes.subrange(59, 67) =~= price);
    assert(bytes.subrange(67, 75) =~= quantity);
    assert(bytes[42] == sse_kind_byte(row.kind));
    assert(bytes[75] == aggressor_byte(row.flag));
    assert(bytes[76] == row.status);
}

/// A Shenzhen order is read back from its bytes as it was.
pub proof fn sz_orders_are_read_back(row: SzOrderModel)
    requires
        is_spool_symbol(row.symbol),
    ensures
        sz_order_bytes(row).len() == SZ_ORDER_BYTES,
        sz_order_read(sz_order_bytes(row)) == Ok::<SzOrderModel, Seq<char>>(row),
{
    lemma_auto_spec_u64_to_from_le_bytes();
    lemma_signed(row.price_units);
    let common = common_bytes(
        row.source_row,
        row.sequence,
        row.channel,
        row.symbol,
        row.quote_time_ns,
        row.local_time_ns,
    );
    let price = spec_u64_to_le_bytes(signed_bits(row.price_units));
    let quantity = spec_u64_to_le_bytes(row.quantity);
    let rest = price + quantity + seq![side_byte(row.side)] + seq![order_kind_byte(row.kind)];
    let bytes = sz_order_bytes(row);
    lemma_common_read(
        row.source_row,
        row.sequence,
        row.channel,
        row.symbol,
        row.quote_time_ns,
        row.local_time_ns,
        rest,
    );
    assert(bytes =~= common + rest);
    assert(price.len() == 8 && quantity.len() == 8);
    assert(bytes.subrange(42, 50) =~= price);
    assert(bytes.subrange(50, 58) =~= quantity);
    assert(bytes[58] == side_byte(row.side));
    assert(bytes[59] == order_kind_byte(row.kind));
}

/// A Shenzhen execution is read back from its bytes as it was.
pub proof fn sz_executions_are_read_back(row: SzExecutionModel)
    requires
        is_spool_symbol(row.symbol),
    ensures
        sz_execution_bytes(row).len() == SZ_EXECUTION_BYTES,
        sz_execution_read(sz_execution_bytes(row)) == Ok::<SzExecutionModel, Seq<char>>(row),
{
    lemma_auto_spec_u64_to_from_le_bytes();
    lemma_signed(row.price_units);
    let common = common_bytes(
        row.source_row,
        row.sequence,
        row.channel,
        row.symbol,
        row.quote_time_ns,
        row.local_time_ns,
    );
    let bid = spec_u64_to_le_bytes(row.bid_order_no);
    let ask = spec_u64_to_le_bytes(row.ask_order_no);
    let price = spec_u64_to_le_bytes(signed_bits(row.price_units));
    let quantity = spec_u64_to_le_bytes(row.quantity);
    let rest = bid + ask + price + quantity + seq![execution_kind_byte(row.kind)];
    let bytes = sz_execution_bytes(row);
    lemma_common_read(
        row.source_row,
        row.sequence,
        row.channel,
        row.symbol,
        row.quote_time_ns,
        row.local_time_ns,
        rest,
    );
    assert(bytes =~= common + rest);
    assert(bid.len() == 8 && ask.len() == 8 && price.len() == 8 && quantity.len() == 8);
    assert(bytes.subrange(42, 50) =~= bid);
    assert(bytes.subrange(50, 58) =~= ask);
    assert(bytes.subrange(58, 66) =~= price);
    assert(bytes.subrange(66, 74) =~= quantity);
    assert(bytes[74] == execution_kind_byte(row.kind));
}

/// The file name of a channel's stream.
pub open spec fn spool_name(channel: u32, kind: SpoolKind) -> Seq<char> {
    "channel-"@ + nat_text(channel as nat) + "."@ + kind.spec_suffix() + ".bin"@
}

#[must_use]
pub fn spool_file_name(channel: u32, kind: SpoolKind) -> (r: String)
    ensures
        r@ == spool_name(channel, kind),
{
    let mut r = concat("channel-", u64_text(channel as u64).as_str());
    r.append(".");
    r.append(kind.suffix());
    r.append(".bin");
    r
}

/// How many characters of a text come before the first dot.
pub open spec fn before_dot(text: Seq<char>) -> nat
    decreases text.len(),
{
    if text.len() == 0 || text[0] == '.' {
        0
    } else {
        1 + before_dot(text.drop_first())
    }
}

/// Whether a text has nothing but decimal digits.
pub open spec fn all_digits(text: Seq<char>) -> bool {
    forall|i: int| 0 <= i < text.len() ==> is_digit(#[trigger] text[i])
}

/// The number that a text of digits stands for; a plus sign may come first.
pub open spec fn channel_number(text: Seq<char>) -> Option<u32> {
    let digits = if text.len() > 0 && text[0] == '+' {
        text.skip(1)
    } else {
        text
    };
    if digits.len() > 0 && all_digits(digits) && digits_value(digits) <= u32::MAX {
        Some(digits_value(digits) as u32)
    } else {
        None
    }
}

/// The channel that a file name tells.
pub open spec fn channel_in_name(name: Seq<char>) -> Option<u32> {
    if name.len() < 8 || name.take(8) != "channel-"@ {
        None
    } else {
        let rest = name.skip(8);
        channel_number(rest.take(before_dot(rest) as int))
    }
}

proof fn lemma_before_dot(text: Seq<char>, n: int)
    requires
        0 <= n <= text.len(),
        forall|i: int| 0 <= i < n ==> #[trigger] text[i] != '.',
        n < text.len() ==> text[n] == '.',
    ensures
        before_dot(text) == n,
    decreases n,
{
    if n > 0 {
        let rest = text.drop_first();
        assert forall|i: int| 0 <= i < n - 1 implies #[trigger] rest[i] != '.' by {
            assert(rest[i] == text[i + 1]);
        }
        assert(text[0] != '.');
        if n < text.len() {
            assert(rest[n - 1] == text[n]);
        }
        lemma_before_dot(rest, n - 1);
    }
}

fn parse_channel(text: &str) -> (r: Option<u32>)
    ensures
        r == channel_number(text@),
{
    let length: usize = text.unicode_len();
    let start: usize = if length > 0 && text.get_char(0) == '+' {
        1
    } else {
        0
    };
    let ghost digits = if text@.len() > 0 && text@[0] == '+' {
        text@.skip(1)
    } else {
        text@
    };
    assert(digits =~= text@.skip(start as int));
    if start == length {
        return None;
    }
    let mut value: u64 = 0;
    let mut at: usize = start;
    let mut fits = true;
    while at < length
        invariant
            length == text@.len(),
            start <= at <= length,
            digits == text@.skip(start as int),
            forall|i: int| 0 <= i < at - start ==> is_digit(#[trigger] digits[i]),
            fits ==> value == digits_value(digits.take(at - start)) && value <= u32::MAX,
            !fits ==> digits_value(digits.take(at - start)) > u32::MAX,
            digits.len() > 0,
            channel_number(text@) == (if all_digits(digits) && digits_value(digits) <= u32::MAX {
                Some(digits_value(digits) as u32)
            } else {
                None
            }),
        decreases length - at,
    {
        let c = text.get_char(at);
        assert(digits[at - start] == c);
        if c < '0' || c > '9' {
            return None;
        }
        proof {
            let next = digits.take(at - start + 1);
            assert(next.drop_last() =~= digits.take(at - start));
            assert(next.last() == c);
        }
        if fits {
            value = value * 10 + (c as u32 - 48) as u64;
            fits = value <= 0xffff_ffff;
        }
        at = at + 1;
    }
    assert(digits.take(at - start) =~= digits);
    if fits {
        Some(value as u32)
    } else {
        None
    }
}

/// The channel that a file name tells.
pub fn channel_of_file(name: &str) -> (r: Option<u32>)
    ensures
        r == channel_in_name(name@),
{
    let length: usize = name.unicode_len();
    if length < 8 || !crate::text::same_text(name.substring_char(0, 8), "channel-") {
        assert(name@.len() >= 8 ==> name@.subrange(0, 8) =~= name@.take(8));
        return None;
    }
    assert(name@.subrange(0, 8) =~= name@.take(8));
    let ghost rest = name@.skip(8);
    let mut end: usize = 8;
    while end < length && name.get_char(end) != '.'
        invariant
            length == name@.len(),
            8 <= end <= length,
            rest == name@.skip(8),
            forall|i: int| 0 <= i < end - 8 ==> #[trigger] rest[i] != '.',
        decreases length - end,
    {
        assert(rest[end - 8] == name@[end as int]);
        end = end + 1;
    }
    proof {
        if end < length {
            assert(rest[end - 8] == name@[end as int]);
        }
        lemma_before_dot(rest, end - 8);
        assert(name@.subrange(8, end as int) =~= rest.take(end - 8));
    }
    parse_channel(name.substring_char(8, end))
}

/// A number is read back from its decimal text.
proof fn lemma_number_read_back(n: nat)
    ensures
        nat_text(n).len() > 0,
        forall|i: int| 0 <= i < nat_text(n).len() ==> is_digit(#[trigger] nat_text(n)[i]),
        digits_value(nat_text(n)) == n,
    decreases n,
{
    let text = nat_text(n);
    if n >= 10 {
        lemma_number_read_back(n / 10);
        assert(text.drop_last() =~= nat_text(n / 10));
        assert forall|i: int| 0 <= i < text.len() implies is_digit(#[trigger] text[i]) by {
            if i < text.len() - 1 {
                assert(text[i] == nat_text(n / 10)[i]);
            }
        }
    } else {
        assert(text.drop_last() =~= Seq::<char>::empty());
        assert(digits_value(text.drop_last()) == 0);
    }
}

/// The name of a stream's file tells its channel.
pub proof fn file_names_tell_their_channel(channel: u32, kind: SpoolKind)
    ensures
        channel_in_name(spool_name(channel, kind)) == Some(channel),
{
    reveal_strlit("channel-");
    reveal_strlit(".");
    let digits = nat_text(channel as nat);
    let name = spool_name(channel, kind);
    lemma_number_read_back(channel as nat);
    assert(name.take(8) =~= "channel-"@);
    let rest = name.skip(8);
    assert(rest =~= digits + "."@ + kind.spec_suffix() + ".bin"@);
    assert forall|i: int| 0 <= i < digits.len() implies #[trigger] rest[i] != '.' by {
        assert(rest[i] == digits[i]);
    }
    lemma_before_dot(rest, digits.len() as int);
    assert(rest.take(digits.len() as int) =~= digits);
    assert(is_digit(digits[0]));
}

/// Whether a file name in a list tells a channel.
pub open spec fn is_named(names: Seq<String>, channel: u32) -> bool {
    exists|i: int|
        0 <= i < names.len() && channel_in_name((#[trigger] names[i])@) == Some(channel)
}

/// The channels that file names tell, each once and in ascending order.
pub fn spool_channels(names: &Vec<String>) -> (r: Vec<u32>)
    ensures
        forall|i: int, j: int| 0 <= i < j < r@.len() ==> #[trigger] r@[i] < #[trigger] r@[j],
        forall|channel: u32| #[trigger] r@.contains(channel) <==> is_named(names@, channel),
{
    let mut channels: Vec<u32> = Vec::new();
    let mut at: usize = 0;
    while at < names.len()
        invariant
            at <= names@.len(),
            forall|i: int, j: int|
                0 <= i < j < channels@.len() ==> #[trigger] channels@[i] < #[trigger] channels@[j],
            forall|channel: u32| #[trigger]
                channels@.contains(channel) <==> is_named(names@.take(at as int), channel),
        decreases names@.len() - at,
    {
        let ghost before = channels@;
        let found = channel_of_file(names[at].as_str());
        if let Some(channel) = found {
            add_channel(&mut channels, channel);
        }
        proof {
            let next = names@.take(at + 1);
            assert forall|channel: u32| #[trigger] channels@.contains(channel) <==> is_named(
                next,
                channel,
            ) by {
                assert(before.contains(channel) <==> is_named(names@.take(at as int), channel));
                if is_named(names@.take(at as int), channel) {
                    let i = choose|i: int|
                        0 <= i < at && channel_in_name((#[trigger] names@.take(at as int)[i])@)
                            == Some(channel);
                    assert(next[i] == names@.take(at as int)[i]);
                }
                if found == Some(channel) {
                    assert(next[at as int] == names@[at as int]);
                }
                if is_named(next, channel) && found != Some(channel) {
                    let i = choose|i: int|
                        0 <= i < at + 1 && channel_in_name((#[trigger] next[i])@) == Some(channel);
                    assert(next[i] == names@[i]);
                    assert(names@.take(at as int)[i] == names@[i]);
                }
            }
        }
        at = at + 1;
    }
    assert(names@.take(at as int) =~= names@);
    channels
}

fn add_channel(channels: &mut Vec<u32>, channel: u32)
    requires
        forall|i: int, j: int|
            0 <= i < j < old(channels)@.len() ==> #[trigger] old(channels)@[i]
                < #[trigger] old(channels)@[j],
    ensures
        forall|i: int, j: int|
            0 <= i < j < final(channels)@.len() ==> #[trigger] final(channels)@[i]
                < #[trigger] final(channels)@[j],
        forall|other: u32| #[trigger]
            final(channels)@.contains(other) <==> old(channels)@.contains(other) || other
                == channel,
{
    let ghost before = channels@;
    let mut at: usize = 0;
    while at < channels.len() && channels[at] < channel
        invariant
            at <= channels@.len(),
            forall|i: int| 0 <= i < at ==> #[trigger] channels@[i] < channel,
        decreases channels@.len() - at,
    {
        at = at + 1;
    }
    if at < channels.len() && channels[at] == channel {
        return ;
    }
    channels.insert(at, channel);
    proof {
        let after = channels@;
        assert forall|other: u32| #[trigger] after.contains(other) <==> before.contains(other)
            || other == channel by {
            if before.contains(other) {
                let i = choose|i: int| 0 <= i < before.len() && before[i] == other;
                assert(after[if i < at {
                    i
                } else {
                    i + 1
                }] == other);
            }
            if other == channel {
                assert(after[at as int] == other);
            }
            if after.contains(other) && other != channel {
                let i = choose|i: int| 0 <= i < after.len() && after[i] == other;
                assert(before[if i < at {
                    i
                } else {
                    i - 1
                }] == other);
            }
        }
        assert forall|i: int, j: int| 0 <= i < j < after.len() implies #[trigger] after[i]
            < #[trigger] after[j] by {
            let i1 = if i < at {
                i
            } else {
                i - 1
            };
            let j1 = if j < at {
                j
            } else {
                j - 1
            };
            if i != at {
                assert(after[i] == before[i1]);
            }
            if j != at {
                assert(after[j] == before[j1]);
                if at < before.len() && j1 > at {
                    assert(before[at as int] < before[j1]);
                }
            }
        }
    }
}

} // verus!
