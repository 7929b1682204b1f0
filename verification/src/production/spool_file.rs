//! Channel files: a header, and rows one behind the other.

use vstd::prelude::*;
use vstd::slice::slice_subrange;
use vstd::utf8::valid_utf8;

use super::rows::{
    SseModel, SseRow, SzExecutionModel, SzExecutionRow, SzOrderModel, SzOrderRow,
};
use super::spool::{
    aggressor_of, decode_sse, decode_sz_execution, decode_sz_order, header_bytes,
    is_spool_header, is_spool_symbol, row_sequence, sse_bytes, sse_kind_of, sse_read, sse_rows_are_read_back,
    symbol_at, sz_execution_bytes, sz_execution_read, sz_executions_are_read_back,
    sz_order_bytes, sz_order_read, sz_orders_are_read_back, text_of, u64_at, SpoolKind, HEADER_BYTES,
    SSE_BYTES, SZ_EXECUTION_BYTES, SZ_ORDER_BYTES,
};

verus! {

/// What is wrong with a channel file.
#[derive(Clone, Copy, Debug, PartialEq, Eq)]
pub enum SpoolFault {
    /// The file does not begin with the header of its kind.
    Header,
    /// The file ends inside its header or inside a row.
    Cut,
    /// A row holds what no row has.
    Row(&'static str),
}

pub enum FaultModel {
    Header,
    Cut,
    Row(Seq<char>),
}

impl View for SpoolFault {
    type V = FaultModel;

    open spec fn view(&self) -> FaultModel {
        match *self {
            SpoolFault::Header => FaultModel::Header,
            SpoolFault::Cut => FaultModel::Cut,
            SpoolFault::Row(detail) => FaultModel::Row(detail@),
        }
    }
}

/// How rows of one kind are laid out: how many bytes a row has, what they hold, and what comes
/// of a row that is cut.
pub struct RowForm<M> {
    pub size: nat,
    pub read: spec_fn(Seq<u8>) -> Result<M, Seq<char>>,
    pub cut: spec_fn(Seq<u8>) -> FaultModel,
}

/// The rows of a stream up to its end or to what is wrong with it.
#[verifier::ext_equal]
pub struct StreamModel<M> {
    pub rows: Seq<M>,
    pub fault: Option<FaultModel>,
}

impl<M> RowForm<M> {
    /// The row that comes next, none at the end. A row that is cut is never the end.
    pub open spec fn next(self, bytes: Seq<u8>) -> Result<Option<M>, FaultModel> {
        if bytes.len() == 0 {
            Ok(None)
        } else if bytes.len() < self.size {
            Err((self.cut)(bytes))
        } else {
            match (self.read)(bytes.take(self.size as int)) {
                Ok(row) => Ok(Some(row)),
                Err(detail) => Err(FaultModel::Row(detail)),
            }
        }
    }

    /// The rows of a stream, one after the other.
    pub open spec fn rows(self, bytes: Seq<u8>) -> StreamModel<M>
        decreases bytes.len(),
    {
        if self.size == 0 {
            StreamModel { rows: Seq::empty(), fault: None }
        } else {
            match self.next(bytes) {
                Ok(None) => StreamModel { rows: Seq::empty(), fault: None },
                Err(fault) => StreamModel { rows: Seq::empty(), fault: Some(fault) },
                Ok(Some(row)) => {
                    let rest = self.rows(bytes.skip(self.size as int));
                    StreamModel { rows: seq![row] + rest.rows, fault: rest.fault }
                },
            }
        }
    }

    /// The rows of a whole file.
    pub open spec fn file(self, kind: SpoolKind, bytes: Seq<u8>) -> StreamModel<M> {
        if bytes.len() < HEADER_BYTES {
            StreamModel { rows: Seq::empty(), fault: Some(FaultModel::Cut) }
        } else if bytes.take(HEADER_BYTES as int) != header_bytes(kind) {
            StreamModel { rows: Seq::empty(), fault: Some(FaultModel::Header) }
        } else {
            self.rows(bytes.skip(HEADER_BYTES as int))
        }
    }
}

/// The bytes of rows, one behind the other.
pub open spec fn joined<M>(rows: Seq<M>, bytes_of: spec_fn(M) -> Seq<u8>) -> Seq<u8>
    decreases rows.len(),
{
    if rows.len() == 0 {
        Seq::empty()
    } else {
        bytes_of(rows[0]) + joined(rows.drop_first(), bytes_of)
    }
}

/// What comes of a Shanghai row that is cut: the first of its fields that are there and hold
/// what no row has, and otherwise the end of the bytes.
pub open spec fn sse_cut(bytes: Seq<u8>) -> FaultModel {
    if bytes.len() >= 26 && !valid_utf8(symbol_at(bytes)) {
        FaultModel::Row("invalid symbol"@)
    } else if bytes.len() >= 43 && sse_kind_of(bytes[42]) is None {
        FaultModel::Row("invalid Shanghai event kind"@)
    } else if bytes.len() >= 76 && aggressor_of(bytes[75]) is None {
        FaultModel::Row("invalid Shanghai flag"@)
    } else {
        FaultModel::Cut
    }
}

/// What comes of a Shenzhen order that is cut.
pub open spec fn sz_order_cut(bytes: Seq<u8>) -> FaultModel {
    if bytes.len() >= 26 && !valid_utf8(symbol_at(bytes)) {
        FaultModel::Row("invalid symbol"@)
    } else if bytes.len() >= 59 && bytes[58] != 1 && bytes[58] != 2 {
        FaultModel::Row("invalid Shenzhen side"@)
    } else {
        FaultModel::Cut
    }
}

/// What comes of a Shenzhen execution that is cut.
pub open spec fn sz_execution_cut(bytes: Seq<u8>) -> FaultModel {
    if bytes.len() >= 26 && !valid_utf8(symbol_at(bytes)) {
        FaultModel::Row("invalid symbol"@)
    } else {
        FaultModel::Cut
    }
}

fn symbol_is_invalid(bytes: &[u8]) -> (r: bool)
    ensures
        r == (bytes@.len() >= 26 && !valid_utf8(symbol_at(bytes@))),
{
    bytes.len() >= 26 && text_of(slice_subrange(bytes, 20, 26)).is_none()
}

fn sse_cut_fault(bytes: &[u8]) -> (r: SpoolFault)
    ensures
        r@ == sse_cut(bytes@),
{
    if symbol_is_invalid(bytes) {
        SpoolFault::Row("invalid symbol")
    } else if bytes.len() >= 43 && !(1 <= bytes[42] && bytes[42] <= 4) {
        SpoolFault::Row("invalid Shanghai event kind")
    } else if bytes.len() >= 76 && !(1 <= bytes[75] && bytes[75] <= 4) {
        SpoolFault::Row("invalid Shanghai flag")
    } else {
        SpoolFault::Cut
    }
}

fn sz_order_cut_fault(bytes: &[u8]) -> (r: SpoolFault)
    ensures
        r@ == sz_order_cut(bytes@),
{
    if symbol_is_invalid(bytes) {
        SpoolFault::Row("invalid symbol")
    } else if bytes.len() >= 59 && bytes[58] != 1 && bytes[58] != 2 {
        SpoolFault::Row("invalid Shenzhen side")
    } else {
        SpoolFault::Cut
    }
}

fn sz_execution_cut_fault(bytes: &[u8]) -> (r: SpoolFault)
    ensures
        r@ == sz_execution_cut(bytes@),
{
    if symbol_is_invalid(bytes) {
        SpoolFault::Row("invalid symbol")
    } else {
        SpoolFault::Cut
    }
}

/// Why bytes are not a file of whole rows, whatever the rows hold.
pub open spec fn frame_fault(bytes: Seq<u8>, kind: SpoolKind) -> Option<FaultModel> {
    if bytes.len() < HEADER_BYTES {
        Some(FaultModel::Cut)
    } else if bytes.take(HEADER_BYTES as int) != header_bytes(kind) {
        Some(FaultModel::Header)
    } else if (bytes.len() - HEADER_BYTES) % (kind.spec_row_bytes() as int) != 0 {
        Some(FaultModel::Cut)
    } else {
        None
    }
}

/// The sequences of the rows of a file, of whatever kind.
pub open spec fn frame_sequences(bytes: Seq<u8>, kind: SpoolKind) -> Seq<u64> {
    let size = kind.spec_row_bytes() as int;
    Seq::new(
        ((bytes.len() - HEADER_BYTES) / size) as nat,
        |i: int| u64_at(bytes, HEADER_BYTES + i * size + 8),
    )
}

/// The sequences of the rows of a channel file, in the order of the file.
pub fn row_sequences(bytes: &Vec<u8>, kind: SpoolKind) -> (r: Result<Vec<u64>, SpoolFault>)
    ensures
        match frame_fault(bytes@, kind) {
            Some(fault) => r is Err && r->Err_0@ == fault,
            None => r is Ok && r->Ok_0@ == frame_sequences(bytes@, kind),
        },
{
    if bytes.len() < HEADER_BYTES {
        return Err(SpoolFault::Cut);
    }
    let header = slice_subrange(bytes.as_slice(), 0, HEADER_BYTES);
    assert(header@ =~= bytes@.take(HEADER_BYTES as int));
    if !is_spool_header(header, kind) {
        return Err(SpoolFault::Header);
    }
    let size: usize = kind.row_bytes();
    if (bytes.len() - HEADER_BYTES) % size != 0 {
        return Err(SpoolFault::Cut);
    }
    let mut sequences: Vec<u64> = Vec::new();
    let mut at: usize = HEADER_BYTES;
    let ghost all = frame_sequences(bytes@, kind);
    proof {
        vstd::arithmetic::div_mod::lemma_fundamental_div_mod(
            bytes@.len() - HEADER_BYTES,
            size as int,
        );
    }
    while at < bytes.len()
        invariant
            size == kind.spec_row_bytes(),
            60 <= size <= 77,
            all == frame_sequences(bytes@, kind),
            bytes@.len() == HEADER_BYTES + size * all.len(),
            at == HEADER_BYTES + size * sequences@.len(),
            at <= bytes@.len(),
            sequences@.len() <= all.len(),
            sequences@ == all.take(sequences@.len() as int),
        decreases bytes@.len() - at,
    {
        let ghost count = sequences@.len() as int;
        assert(count < all.len() && at + size <= bytes@.len()) by (nonlinear_arith)
            requires
                at == HEADER_BYTES + size * count,
                bytes@.len() == HEADER_BYTES + size * all.len(),
                at < bytes@.len(),
                size > 0,
        ;
        let row = slice_subrange(bytes.as_slice(), at, at + size);
        assert(row@.subrange(8, 16) =~= bytes@.subrange(at + 8, at + 16));
        sequences.push(row_sequence(row));
        proof {
            assert(size * (count + 1) == size * count + size) by (nonlinear_arith);
            assert(size * count == count * size) by (nonlinear_arith);
            assert(all.take(count + 1) =~= all.take(count).push(all[count]));
        }
        at = at + size;
    }
    proof {
        assert(sequences@.len() == all.len()) by (nonlinear_arith)
            requires
                at == HEADER_BYTES + size * sequences@.len(),
                bytes@.len() == HEADER_BYTES + size * all.len(),
                at == bytes@.len(),
                size > 0,
        ;
        assert(all.take(all.len() as int) =~= all);
    }
    Ok(sequences)
}

impl<M> RowForm<M> {
    /// Bytes have the size of a row, hold the row, and are told from it where they are cut.
    spec fn keeps(self, row: M, bytes: Seq<u8>) -> bool {
        &&& bytes.len() == self.size
        &&& (self.read)(bytes) == Ok::<M, Seq<char>>(row)
        &&& forall|n: int|
            0 < n < bytes.len() ==> (self.cut)(#[trigger] bytes.take(n)) == FaultModel::Cut
    }
}

proof fn lemma_header(kind: SpoolKind, rest: Seq<u8>)
    ensures
        (header_bytes(kind) + rest).take(HEADER_BYTES as int) == header_bytes(kind),
        (header_bytes(kind) + rest).skip(HEADER_BYTES as int) == rest,
{
    assert((header_bytes(kind) + rest).take(HEADER_BYTES as int) =~= header_bytes(kind));
    assert((header_bytes(kind) + rest).skip(HEADER_BYTES as int) =~= rest);
}

proof fn lemma_rows_read_back<M>(
    form: RowForm<M>,
    rows: Seq<M>,
    bytes_of: spec_fn(M) -> Seq<u8>,
)
    requires
        form.size > 0,
        forall|i: int|
            0 <= i < rows.len() ==> form.keeps(#[trigger] rows[i], bytes_of(rows[i])),
    ensures
        form.rows(joined(rows, bytes_of)) == (StreamModel { rows, fault: None }),
        joined(rows, bytes_of).len() == rows.len() * form.size,
    decreases rows.len(),
{
    let bytes = joined(rows, bytes_of);
    if rows.len() == 0 {
        assert(rows =~= Seq::empty());
    } else {
        let rest = rows.drop_first();
        assert forall|i: int| 0 <= i < rest.len() implies form.keeps(
            #[trigger] rest[i],
            bytes_of(rest[i]),
        ) by {
            assert(rest[i] == rows[i + 1]);
        }
        lemma_rows_read_back(form, rest, bytes_of);
        assert(form.keeps(rows[0], bytes_of(rows[0])));
        assert(bytes.take(form.size as int) =~= bytes_of(rows[0]));
        assert(bytes.skip(form.size as int) =~= joined(rest, bytes_of));
        assert(rows =~= seq![rows[0]] + rest);
        assert(rows.len() * form.size == rest.len() * form.size + form.size) by (nonlinear_arith)
            requires
                rows.len() == rest.len() + 1,
        ;
    }
}

proof fn lemma_cut_rows<M>(
    form: RowForm<M>,
    rows: Seq<M>,
    bytes_of: spec_fn(M) -> Seq<u8>,
    end: int,
)
    requires
        form.size > 0,
        forall|i: int|
            0 <= i < rows.len() ==> form.keeps(#[trigger] rows[i], bytes_of(rows[i])),
        0 < end < rows.len() * form.size,
        end % (form.size as int) != 0,
    ensures
        form.rows(joined(rows, bytes_of).take(end)) == (StreamModel {
            rows: rows.take(end / (form.size as int)),
            fault: Some(FaultModel::Cut),
        }),
    decreases rows.len(),
{
    let size = form.size as int;
    let whole = joined(rows, bytes_of);
    lemma_rows_read_back(form, rows, bytes_of);
    assert(rows.len() > 0) by {
        if rows.len() == 0 {
            assert(rows.len() * form.size == 0) by (nonlinear_arith)
                requires
                    rows.len() == 0,
            ;
        }
    }
    let bytes = whole.take(end);
    let first = bytes_of(rows[0]);
    assert(form.keeps(rows[0], first));
    if end < size {
        assert(bytes =~= first.take(end));
        assert(end / size == 0) by (nonlinear_arith)
            requires
                0 < end < size,
        ;
        assert(rows.take(0) =~= Seq::empty());
    } else {
        assert(end != size) by {
            assert(size % size == 0) by (nonlinear_arith)
                requires
                    size > 0,
            ;
        }
        let rest = rows.drop_first();
        assert forall|i: int| 0 <= i < rest.len() implies form.keeps(
            #[trigger] rest[i],
            bytes_of(rest[i]),
        ) by {
            assert(rest[i] == rows[i + 1]);
        }
        assert(rows.len() * form.size == rest.len() * form.size + form.size) by (nonlinear_arith)
            requires
                rows.len() == rest.len() + 1,
        ;
        assert((end - size) % size == end % size && (end - size) / size == end / size - 1) by {
            vstd::arithmetic::div_mod::lemma_mod_sub_multiples_vanish(end, size);
            vstd::arithmetic::div_mod::lemma_div_minus_one(end, size);
        }
        lemma_cut_rows(form, rest, bytes_of, end - size);
        assert(bytes.take(size) =~= first);
        assert(bytes.skip(size) =~= joined(rest, bytes_of).take(end - size));
        assert(end / size >= 1) by (nonlinear_arith)
            requires
                end >= size,
                size > 0,
        ;
        assert(end / size <= rows.len()) by (nonlinear_arith)
            requires
                0 < end < rows.len() * size,
                size > 0,
        ;
        assert(rows.take(end / size) =~= seq![rows[0]] + rest.take(end / size - 1));
    }
}

/// How Shanghai rows are laid out.
pub open spec fn sse_form() -> RowForm<SseModel> {
    RowForm {
        size: SSE_BYTES as nat,
        read: |bytes: Seq<u8>| sse_read(bytes),
        cut: |bytes: Seq<u8>| sse_cut(bytes),
    }
}

/// Reads the Shanghai row at a place, none at the end of the bytes, and moves behind it.
pub fn read_sse(bytes: &[u8], at: &mut usize) -> (r: Result<Option<SseRow>, SpoolFault>)
    requires
        *old(at) <= bytes@.len(),
    ensures
        match sse_form().next(bytes@.skip(*old(at) as int)) {
            Ok(None) => r is Ok && r->Ok_0 is None && *final(at) == *old(at),
            Ok(Some(row)) => {
                &&& r is Ok
                &&& r->Ok_0 is Some
                &&& (r->Ok_0->0)@ == row
                &&& *final(at) == *old(at) + SSE_BYTES
            },
            Err(fault) => r is Err && r->Err_0@ == fault && *final(at) == *old(at),
        },
{
    let ghost rest = bytes@.skip(*at as int);
    let left: usize = bytes.len() - *at;
    if left == 0 {
        return Ok(None);
    }
    if left < SSE_BYTES {
        let cut = slice_subrange(bytes, *at, bytes.len());
        assert(cut@ =~= rest);
        return Err(sse_cut_fault(cut));
    }
    let row = slice_subrange(bytes, *at, *at + SSE_BYTES);
    assert(row@ =~= rest.take(SSE_BYTES as int));
    match decode_sse(row) {
        Ok(row) => {
            *at = *at + SSE_BYTES;
            Ok(Some(row))
        },
        Err(detail) => Err(SpoolFault::Row(detail)),
    }
}

pub open spec fn sse_views(rows: Seq<SseRow>) -> Seq<SseModel> {
    rows.map_values(|row: SseRow| row@)
}

/// The Shanghai rows of a channel file.
pub fn read_sse_file(bytes: &Vec<u8>) -> (r: Result<Vec<SseRow>, SpoolFault>)
    ensures
        ({
            let file = sse_form().file(SpoolKind::Sse, bytes@);
            match file.fault {
                None => r is Ok && sse_views(r->Ok_0@) == file.rows,
                Some(fault) => r is Err && r->Err_0@ == fault,
            }
        }),
{
    if bytes.len() < HEADER_BYTES {
        return Err(SpoolFault::Cut);
    }
    let header = slice_subrange(bytes.as_slice(), 0, HEADER_BYTES);
    assert(header@ =~= bytes@.take(HEADER_BYTES as int));
    if !is_spool_header(header, SpoolKind::Sse) {
        return Err(SpoolFault::Header);
    }
    let mut rows: Vec<SseRow> = Vec::new();
    let mut at: usize = HEADER_BYTES;
    assert(sse_views(rows@) =~= Seq::empty());
    assert(Seq::<SseModel>::empty() + sse_form().rows(bytes@.skip(at as int)).rows
        =~= sse_form().rows(bytes@.skip(at as int)).rows);
    loop
        invariant
            at <= bytes@.len(),
            ({
                let file = sse_form().file(SpoolKind::Sse, bytes@);
                let rest = sse_form().rows(bytes@.skip(at as int));
                &&& file.rows == sse_views(rows@) + rest.rows
                &&& file.fault == rest.fault
            }),
        decreases bytes@.len() - at,
    {
        let ghost rest = bytes@.skip(at as int);
        let ghost before = sse_views(rows@);
        match read_sse(bytes.as_slice(), &mut at) {
            Ok(None) => {
                assert(before + Seq::<SseModel>::empty() =~= before);
                return Ok(rows);
            },
            Ok(Some(row)) => {
                rows.push(row);
                proof {
                    let later = bytes@.skip(at as int);
                    assert(rest.skip(SSE_BYTES as int) =~= later);
                    let more = sse_form().rows(later);
                    assert(sse_views(rows@) =~= before.push(row@));
                    assert(before + (seq![row@] + more.rows) =~= sse_views(rows@) + more.rows);
                }
            },
            Err(fault) => return Err(fault),
        }
    }
}

proof fn lemma_sse_form(row: SseModel)
    requires
        is_spool_symbol(row.symbol),
    ensures
        sse_form().keeps(row, sse_bytes(row)),
{
    sse_rows_are_read_back(row);
    let bytes = sse_bytes(row);
    assert(valid_utf8(symbol_at(bytes)));
    assert forall|n: int| 0 < n < bytes.len() implies sse_cut(#[trigger] bytes.take(n))
        == FaultModel::Cut by {
        let cut = bytes.take(n);
        if n >= 26 {
            assert(symbol_at(cut) =~= symbol_at(bytes));
        }
    }
}

/// The Shanghai rows that were written to a file are read back, all of them and in their order.
pub proof fn sse_files_are_read_back(rows: Seq<SseModel>)
    requires
        forall|i: int| 0 <= i < rows.len() ==> is_spool_symbol((#[trigger] rows[i]).symbol),
    ensures
        sse_form().file(
            SpoolKind::Sse,
            header_bytes(SpoolKind::Sse) + joined(rows, |row: SseModel| sse_bytes(row)),
        ) == (StreamModel { rows, fault: None }),
{
    let bytes_of = |row: SseModel| sse_bytes(row);
    assert forall|i: int| 0 <= i < rows.len() implies sse_form().keeps(
        #[trigger] rows[i],
        bytes_of(rows[i]),
    ) by {
        lemma_sse_form(rows[i]);
    }
    lemma_rows_read_back(sse_form(), rows, bytes_of);
    lemma_header(SpoolKind::Sse, joined(rows, bytes_of));
}

/// A file that was cut inside a row gives the rows before it and ends in an error.
pub proof fn cut_sse_files_are_refused(rows: Seq<SseModel>, end: int)
    requires
        forall|i: int| 0 <= i < rows.len() ==> is_spool_symbol((#[trigger] rows[i]).symbol),
        0 < end < rows.len() * SSE_BYTES,
        end % (SSE_BYTES as int) != 0,
    ensures
        sse_form().file(
            SpoolKind::Sse,
            header_bytes(SpoolKind::Sse) + joined(
                rows,
                |row: SseModel| sse_bytes(row),
            ).take(end),
        ) == (StreamModel {
            rows: rows.take(end / (SSE_BYTES as int)),
            fault: Some(FaultModel::Cut),
        }),
{
    let bytes_of = |row: SseModel| sse_bytes(row);
    assert forall|i: int| 0 <= i < rows.len() implies sse_form().keeps(
        #[trigger] rows[i],
        bytes_of(rows[i]),
    ) by {
        lemma_sse_form(rows[i]);
    }
    lemma_cut_rows(sse_form(), rows, bytes_of, end);
    lemma_header(SpoolKind::Sse, joined(rows, bytes_of).take(end));
}

/// How Shenzhen orders are laid out.
pub open spec fn sz_order_form() -> RowForm<SzOrderModel> {
    RowForm {
        size: SZ_ORDER_BYTES as nat,
        read: |bytes: Seq<u8>| sz_order_read(bytes),
        cut: |bytes: Seq<u8>| sz_order_cut(bytes),
    }
}

/// Reads the Shenzhen order at a place, none at the end of the bytes, and moves behind it.
pub fn read_sz_order(bytes: &[u8], at: &mut usize) -> (r: Result<Option<SzOrderRow>, SpoolFault>)
    requires
        *old(at) <= bytes@.len(),
    ensures
        match sz_order_form().next(bytes@.skip(*old(at) as int)) {
            Ok(None) => r is Ok && r->Ok_0 is None && *final(at) == *old(at),
            Ok(Some(row)) => {
                &&& r is Ok
                &&& r->Ok_0 is Some
                &&& (r->Ok_0->0)@ == row
                &&& *final(at) == *old(at) + SZ_ORDER_BYTES
            },
            Err(fault) => r is Err && r->Err_0@ == fault && *final(at) == *old(at),
        },
{
    let ghost rest = bytes@.skip(*at as int);
    let left: usize = bytes.len() - *at;
    if left == 0 {
        return Ok(None);
    }
    if left < SZ_ORDER_BYTES {
        let cut = slice_subrange(bytes, *at, bytes.len());
        assert(cut@ =~= rest);
        return Err(sz_order_cut_fault(cut));
    }
    let row = slice_subrange(bytes, *at, *at + SZ_ORDER_BYTES);
    assert(row@ =~= rest.take(SZ_ORDER_BYTES as int));
    match decode_sz_order(row) {
        Ok(row) => {
            *at = *at + SZ_ORDER_BYTES;
            Ok(Some(row))
        },
        Err(detail) => Err(SpoolFault::Row(detail)),
    }
}

pub open spec fn sz_order_views(rows: Seq<SzOrderRow>) -> Seq<SzOrderModel> {
    rows.map_values(|row: SzOrderRow| row@)
}

/// The Shenzhen orders of a channel file.
pub fn read_sz_order_file(bytes: &Vec<u8>) -> (r: Result<Vec<SzOrderRow>, SpoolFault>)
    ensures
        ({
            let file = sz_order_form().file(SpoolKind::SzOrder, bytes@);
            match file.fault {
                None => r is Ok && sz_order_views(r->Ok_0@) == file.rows,
                Some(fault) => r is Err && r->Err_0@ == fault,
            }
        }),
{
    if bytes.len() < HEADER_BYTES {
        return Err(SpoolFault::Cut);
    }
    let header = slice_subrange(bytes.as_slice(), 0, HEADER_BYTES);
    assert(header@ =~= bytes@.take(HEADER_BYTES as int));
    if !is_spool_header(header, SpoolKind::SzOrder) {
        return Err(SpoolFault::Header);
    }
    let mut rows: Vec<SzOrderRow> = Vec::new();
    let mut at: usize = HEADER_BYTES;
    assert(sz_order_views(rows@) =~= Seq::empty());
    assert(Seq::<SzOrderModel>::empty() + sz_order_form().rows(bytes@.skip(at as int)).rows
        =~= sz_order_form().rows(bytes@.skip(at as int)).rows);
    loop
        invariant
            at <= bytes@.len(),
            ({
                let file = sz_order_form().file(SpoolKind::SzOrder, bytes@);
                let rest = sz_order_form().rows(bytes@.skip(at as int));
                &&& file.rows == sz_order_views(rows@) + rest.rows
                &&& file.fault == rest.fault
            }),
        decreases bytes@.len() - at,
    {
        let ghost rest = bytes@.skip(at as int);
        let ghost before = sz_order_views(rows@);
        match read_sz_order(bytes.as_slice(), &mut at) {
            Ok(None) => {
                assert(before + Seq::<SzOrderModel>::empty() =~= before);
                return Ok(rows);
            },
            Ok(Some(row)) => {
                rows.push(row);
                proof {
                    let later = bytes@.skip(at as int);
                    assert(rest.skip(SZ_ORDER_BYTES as int) =~= later);
                    let more = sz_order_form().rows(later);
                    assert(sz_order_views(rows@) =~= before.push(row@));
                    assert(before + (seq![row@] + more.rows) =~= sz_order_views(rows@) + more.rows);
                }
            },
            Err(fault) => return Err(fault),
        }
    }
}

proof fn lemma_sz_order_form(row: SzOrderModel)
    requires
        is_spool_symbol(row.symbol),
    ensures
        sz_order_form().keeps(row, sz_order_bytes(row)),
{
    sz_orders_are_read_back(row);
    let bytes = sz_order_bytes(row);
    assert(valid_utf8(symbol_at(bytes)));
    assert forall|n: int| 0 < n < bytes.len() implies sz_order_cut(#[trigger] bytes.take(n))
        == FaultModel::Cut by {
        let cut = bytes.take(n);
        if n >= 26 {
            assert(symbol_at(cut) =~= symbol_at(bytes));
        }
    }
}

/// The Shenzhen orders that were written to a file are read back, all of them and in their order.
pub proof fn sz_order_files_are_read_back(rows: Seq<SzOrderModel>)
    requires
        forall|i: int| 0 <= i < rows.len() ==> is_spool_symbol((#[trigger] rows[i]).symbol),
    ensures
        sz_order_form().file(
            SpoolKind::SzOrder,
            header_bytes(SpoolKind::SzOrder) + joined(rows, |row: SzOrderModel| sz_order_bytes(row)),
        ) == (StreamModel { rows, fault: None }),
{
    let bytes_of = |row: SzOrderModel| sz_order_bytes(row);
    assert forall|i: int| 0 <= i < rows.len() implies sz_order_form().keeps(
        #[trigger] rows[i],
        bytes_of(rows[i]),
    ) by {
        lemma_sz_order_form(rows[i]);
    }
    lemma_rows_read_back(sz_order_form(), rows, bytes_of);
    lemma_header(SpoolKind::SzOrder, joined(rows, bytes_of));
}

/// A file that was cut inside a row gives the rows before it and ends in an error.
pub proof fn cut_sz_order_files_are_refused(rows: Seq<SzOrderModel>, end: int)
    requires
        forall|i: int| 0 <= i < rows.len() ==> is_spool_symbol((#[trigger] rows[i]).symbol),
        0 < end < rows.len() * SZ_ORDER_BYTES,
        end % (SZ_ORDER_BYTES as int) != 0,
    ensures
        sz_order_form().file(
            SpoolKind::SzOrder,
            header_bytes(SpoolKind::SzOrder) + joined(
                rows,
                |row: SzOrderModel| sz_order_bytes(row),
            ).take(end),
        ) == (StreamModel {
            rows: rows.take(end / (SZ_ORDER_BYTES as int)),
            fault: Some(FaultModel::Cut),
        }),
{
    let bytes_of = |row: SzOrderModel| sz_order_bytes(row);
    assert forall|i: int| 0 <= i < rows.len() implies sz_order_form().keeps(
        #[trigger] rows[i],
        bytes_of(rows[i]),
    ) by {
        lemma_sz_order_form(rows[i]);
    }
    lemma_cut_rows(sz_order_form(), rows, bytes_of, end);
    lemma_header(SpoolKind::SzOrder, joined(rows, bytes_of).take(end));
}

/// How Shenzhen executions are laid out.
pub open spec fn sz_execution_form() -> RowForm<SzExecutionModel> {
    RowForm {
        size: SZ_EXECUTION_BYTES as nat,
        read: |bytes: Seq<u8>| sz_execution_read(bytes),
        cut: |bytes: Seq<u8>| sz_execution_cut(bytes),
    }
}

/// Reads the Shenzhen execution at a place, none at the end of the bytes, and moves behind it.
pub fn read_sz_execution(bytes: &[u8], at: &mut usize) -> (r: Result<Option<SzExecutionRow>, SpoolFault>)
    requires
        *old(at) <= bytes@.len(),
    ensures
        match sz_execution_form().next(bytes@.skip(*old(at) as int)) {
            Ok(None) => r is Ok && r->Ok_0 is None && *final(at) == *old(at),
            Ok(Some(row)) => {
                &&& r is Ok
                &&& r->Ok_0 is Some
                &&& (r->Ok_0->0)@ == row
                &&& *final(at) == *old(at) + SZ_EXECUTION_BYTES
            },
            Err(fault) => r is Err && r->Err_0@ == fault && *final(at) == *old(at),
        },
{
    let ghost rest = bytes@.skip(*at as int);
    let left: usize = bytes.len() - *at;
    if left == 0 {
        return Ok(None);
    }
    if left < SZ_EXECUTION_BYTES {
        let cut = slice_subrange(bytes, *at, bytes.len());
        assert(cut@ =~= rest);
        return Err(sz_execution_cut_fault(cut));
    }
    let row = slice_subrange(bytes, *at, *at + SZ_EXECUTION_BYTES);
    assert(row@ =~= rest.take(SZ_EXECUTION_BYTES as int));
    match decode_sz_execution(row) {
        Ok(row) => {
            *at = *at + SZ_EXECUTION_BYTES;
            Ok(Some(row))
        },
        Err(detail) => Err(SpoolFault::Row(detail)),
    }
}

pub open spec fn sz_execution_views(rows: Seq<SzExecutionRow>) -> Seq<SzExecutionModel> {
    rows.map_values(|row: SzExecutionRow| row@)
}

/// The Shenzhen executions of a channel file.
pub fn read_sz_execution_file(bytes: &Vec<u8>) -> (r: Result<Vec<SzExecutionRow>, SpoolFault>)
    ensures
        ({
            let file = sz_execution_form().file(SpoolKind::SzExecution, bytes@);
            match file.fault {
                None => r is Ok && sz_execution_views(r->Ok_0@) == file.rows,
                Some(fault) => r is Err && r->Err_0@ == fault,
            }
        }),
{
    if bytes.len() < HEADER_BYTES {
        return Err(SpoolFault::Cut);
    }
    let header = slice_subrange(bytes.as_slice(), 0, HEADER_BYTES);
    assert(header@ =~= bytes@.take(HEADER_BYTES as int));
    if !is_spool_header(header, SpoolKind::SzExecution) {
        return Err(SpoolFault::Header);
    }
    let mut rows: Vec<SzExecutionRow> = Vec::new();
    let mut at: usize = HEADER_BYTES;
    assert(sz_execution_views(rows@) =~= Seq::empty());
    assert(Seq::<SzExecutionModel>::empty() + sz_execution_form().rows(bytes@.skip(at as int)).rows
        =~= sz_execution_form().rows(bytes@.skip(at as int)).rows);
    loop
        invariant
            at <= bytes@.len(),
            ({
                let file = sz_execution_form().file(SpoolKind::SzExecution, bytes@);
                let rest = sz_execution_form().rows(bytes@.skip(at as int));
                &&& file.rows == sz_execution_views(rows@) + rest.rows
                &&& file.fault == rest.fault
            }),
        decreases bytes@.len() - at,
    {
        let ghost rest = bytes@.skip(at as int);
        let ghost before = sz_execution_views(rows@);
        match read_sz_execution(bytes.as_slice(), &mut at) {
            Ok(None) => {
                assert(before + Seq::<SzExecutionModel>::empty() =~= before);
                return Ok(rows);
            },
            Ok(Some(row)) => {
                rows.push(row);
                proof {
                    let later = bytes@.skip(at as int);
                    assert(rest.skip(SZ_EXECUTION_BYTES as int) =~= later);
                    let more = sz_execution_form().rows(later);
                    assert(sz_execution_views(rows@) =~= before.push(row@));
                    assert(before + (seq![row@] + more.rows) =~= sz_execution_views(rows@) + more.rows);
                }
            },
            Err(fault) => return Err(fault),
        }
    }
}

proof fn lemma_sz_execution_form(row: SzExecutionModel)
    requires
        is_spool_symbol(row.symbol),
    ensures
        sz_execution_form().keeps(row, sz_execution_bytes(row)),
{
    sz_executions_are_read_back(row);
    let bytes = sz_execution_bytes(row);
    assert(valid_utf8(symbol_at(bytes)));
    assert forall|n: int| 0 < n < bytes.len() implies sz_execution_cut(#[trigger] bytes.take(n))
        == FaultModel::Cut by {
        let cut = bytes.take(n);
        if n >= 26 {
            assert(symbol_at(cut) =~= symbol_at(bytes));
        }
    }
}

/// The Shenzhen executions that were written to a file are read back, all of them and in their order.
pub proof fn sz_execution_files_are_read_back(rows: Seq<SzExecutionModel>)
    requires
        forall|i: int| 0 <= i < rows.len() ==> is_spool_symbol((#[trigger] rows[i]).symbol),
    ensures
        sz_execution_form().file(
            SpoolKind::SzExecution,
            header_bytes(SpoolKind::SzExecution) + joined(rows, |row: SzExecutionModel| sz_execution_bytes(row)),
        ) == (StreamModel { rows, fault: None }),
{
    let bytes_of = |row: SzExecutionModel| sz_execution_bytes(row);
    assert forall|i: int| 0 <= i < rows.len() implies sz_execution_form().keeps(
        #[trigger] rows[i],
        bytes_of(rows[i]),
    ) by {
        lemma_sz_execution_form(rows[i]);
    }
    lemma_rows_read_back(sz_execution_form(), rows, bytes_of);
    lemma_header(SpoolKind::SzExecution, joined(rows, bytes_of));
}

/// A file that was cut inside a row gives the rows before it and ends in an error.
pub proof fn cut_sz_execution_files_are_refused(rows: Seq<SzExecutionModel>, end: int)
    requires
        forall|i: int| 0 <= i < rows.len() ==> is_spool_symbol((#[trigger] rows[i]).symbol),
        0 < end < rows.len() * SZ_EXECUTION_BYTES,
        end % (SZ_EXECUTION_BYTES as int) != 0,
    ensures
        sz_execution_form().file(
            SpoolKind::SzExecution,
            header_bytes(SpoolKind::SzExecution) + joined(
                rows,
                |row: SzExecutionModel| sz_execution_bytes(row),
            ).take(end),
        ) == (StreamModel {
            rows: rows.take(end / (SZ_EXECUTION_BYTES as int)),
            fault: Some(FaultModel::Cut),
        }),
{
    let bytes_of = |row: SzExecutionModel| sz_execution_bytes(row);
    assert forall|i: int| 0 <= i < rows.len() implies sz_execution_form().keeps(
        #[trigger] rows[i],
        bytes_of(rows[i]),
    ) by {
        lemma_sz_execution_form(rows[i]);
    }
    lemma_cut_rows(sz_execution_form(), rows, bytes_of, end);
    lemma_header(SpoolKind::SzExecution, joined(rows, bytes_of).take(end));
}

} // verus!
