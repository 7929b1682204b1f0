//! Shenzhen orders and executions.

use std::collections::HashMap;

use vstd::prelude::*;
use vstd::string::StringExecFns;

use crate::market_data::Market;
use crate::text::{concat, i64_text, int_text};

use super::super::error::{ErrorModel, ProductionError};
use super::super::replay::{bump_error, SequenceRegression};
use super::super::rows::{
    SzExecutionKind, SzExecutionModel, SzExecutionRow, SzOrderKind, SzOrderModel, SzOrderRow, SzSide,
};
use super::super::time::MarketTimestampParser;
use super::super::types::MarketDayRequest;
use super::fields::{
    decimal_result, decimal_units, invalid, invalid_field, nonnegative_i64, nonnegative_result,
    optional_text, parse_timestamp_field, positive_i32_u32, positive_i64_u64,
    positive_narrow_result, positive_result, required, timestamp_field_result, value_result,
};
use super::stats::{IngestStats, StatsModel};

verus! {

/// A Shenzhen order as the feed has it; a field without a value is `None`.
#[derive(Debug)]
pub struct RawSzOrder {
    pub source_row: Option<u64>,
    pub channel: Option<i32>,
    pub sequence: Option<i64>,
    pub security_id: Option<String>,
    pub transact_time: Option<String>,
    pub local_time: Option<String>,
    pub price: Option<i128>,
    pub price_scale: i8,
    pub quantity: Option<i64>,
    pub side: Option<i32>,
    pub kind: Option<i32>,
}

/// A Shenzhen execution as the feed has it; a field without a value is `None`.
#[derive(Debug)]
pub struct RawSzExecution {
    pub source_row: Option<u64>,
    pub channel: Option<i32>,
    pub sequence: Option<i64>,
    pub security_id: Option<String>,
    pub transact_time: Option<String>,
    pub local_time: Option<String>,
    pub bid_order_no: Option<i64>,
    pub ask_order_no: Option<i64>,
    pub price: Option<i128>,
    pub price_scale: i8,
    pub quantity: Option<i64>,
    pub kind: Option<i32>,
}

/// An inversion, with the name of its stream as a sequence of characters.
pub struct RegressionModel {
    pub channel: u32,
    pub stream: Seq<char>,
    pub previous_sequence: u64,
    pub sequence: u64,
    pub previous_source_row: u64,
    pub source_row: u64,
}

impl View for SequenceRegression {
    type V = RegressionModel;

    open spec fn view(&self) -> RegressionModel {
        RegressionModel {
            channel: self.channel,
            stream: self.stream@,
            previous_sequence: self.previous_sequence,
            sequence: self.sequence,
            previous_source_row: self.previous_source_row,
            source_row: self.source_row,
        }
    }
}

/// Scan-wide audit of the sequences of one stream, before selection. Not an ordering key.
pub struct SequenceAudit {
    pub stream: &'static str,
    pub last: HashMap<u32, (u64, u64)>,
    pub regressions: Vec<SequenceRegression>,
}

/// The last sequence and source row of each channel, and the inversions found.
#[verifier::ext_equal]
pub struct AuditModel {
    pub stream: Seq<char>,
    pub last: Map<u32, (u64, u64)>,
    pub regressions: Seq<RegressionModel>,
}

pub open spec fn regression_views(regressions: Seq<SequenceRegression>) -> Seq<RegressionModel> {
    regressions.map_values(|regression: SequenceRegression| regression@)
}

impl View for SequenceAudit {
    type V = AuditModel;

    open spec fn view(&self) -> AuditModel {
        AuditModel {
            stream: self.stream@,
            last: self.last@,
            regressions: regression_views(self.regressions@),
        }
    }
}

impl AuditModel {
    /// Whether a sequence repeats the one before it.
    pub open spec fn repeats(self, channel: u32, sequence: u64) -> bool {
        self.last.contains_key(channel) && self.last[channel].0 == sequence
    }

    /// The audit after one more row: a sequence below the one before it is an inversion.
    pub open spec fn observed(self, channel: u32, sequence: u64, source_row: u64) -> Self {
        AuditModel {
            last: self.last.insert(channel, (sequence, source_row)),
            regressions: if self.last.contains_key(channel) && sequence < self.last[channel].0 {
                self.regressions.push(
                    RegressionModel {
                        channel,
                        stream: self.stream,
                        previous_sequence: self.last[channel].0,
                        sequence,
                        previous_source_row: self.last[channel].1,
                        source_row,
                    },
                )
            } else {
                self.regressions
            },
            ..self
        }
    }
}

impl SequenceAudit {
    #[must_use]
    pub fn new(stream: &'static str) -> (r: Self)
        ensures
            r@ == (AuditModel { stream: stream@, last: Map::empty(), regressions: Seq::empty() }),
    {
        broadcast use vstd::std_specs::hash::group_hash_axioms;

        let r = SequenceAudit { stream, last: HashMap::new(), regressions: Vec::new() };
        assert(r@ =~= (AuditModel {
            stream: stream@,
            last: Map::empty(),
            regressions: Seq::empty(),
        }));
        r
    }

    /// Notes the sequence of a row; repeating the one before it is ambiguous.
    pub fn observe_sz_sequence(&mut self, channel: u32, sequence: u64, source_row: u64) -> (r:
        Result<(), ProductionError>)
        ensures
            final(self)@ == old(self)@.observed(channel, sequence, source_row),
            if old(self)@.repeats(channel, sequence) {
                r is Err && r->Err_0@ == (ErrorModel::AmbiguousSequence { channel, sequence })
            } else {
                r is Ok
            },
    {
        broadcast use vstd::std_specs::hash::group_hash_axioms;

        let ghost before = self@;
        if let Some((previous, previous_row)) = self.last.insert(channel, (sequence, source_row)) {
            if sequence == previous {
                return Err(ProductionError::AmbiguousSequence { channel, sequence });
            }
            if sequence < previous {
                let regression = SequenceRegression {
                    channel,
                    stream: String::from_str(self.stream),
                    previous_sequence: previous,
                    sequence,
                    previous_source_row: previous_row,
                    source_row,
                };
                self.regressions.push(regression);
                assert(regression_views(self.regressions@) =~= before.regressions.push(
                    regression@,
                ));
            }
        }
        Ok(())
    }
}

/// What Shenzhen orders came to: the counts and the audit that they leave, the selected rows,
/// and why they went no further.
#[verifier::ext_equal]
pub struct SzOrderIngest {
    pub stats: StatsModel,
    pub audit: AuditModel,
    pub rows: Seq<SzOrderModel>,
    pub error: Option<ErrorModel>,
}

/// What Shenzhen executions came to.
#[verifier::ext_equal]
pub struct SzExecutionIngest {
    pub stats: StatsModel,
    pub audit: AuditModel,
    pub rows: Seq<SzExecutionModel>,
    pub error: Option<ErrorModel>,
}

pub open spec fn sz_side(code: i32) -> Option<SzSide> {
    if code == 49 {
        Some(SzSide::Buy)
    } else if code == 50 {
        Some(SzSide::Sell)
    } else {
        None
    }
}

pub open spec fn sz_order_kind(code: i32) -> Option<SzOrderKind> {
    if code == 49 {
        Some(SzOrderKind::Market)
    } else if code == 50 {
        Some(SzOrderKind::Limit)
    } else if code == 85 {
        Some(SzOrderKind::SameSideBest)
    } else {
        None
    }
}

pub open spec fn sz_execution_kind(code: i32) -> Option<SzExecutionKind> {
    if code == 70 {
        Some(SzExecutionKind::Trade)
    } else if code == 52 {
        Some(SzExecutionKind::Cancel)
    } else {
        None
    }
}

/// The row of a selected order, or which of its other fields is wrong.
pub open spec fn sz_order_row(
    raw: RawSzOrder,
    midnight: int,
    source_row: u64,
    channel: u32,
    sequence: u64,
    symbol: Seq<char>,
    quote_time_ns: i64,
) -> Result<SzOrderModel, ErrorModel> {
    let side = value_result(raw.side, source_row, "Side"@);
    let kind = value_result(raw.kind, source_row, "OrdType"@);
    let local = timestamp_field_result(
        midnight,
        optional_text(raw.local_time),
        source_row,
        "LocalTime"@,
    );
    let price = decimal_result(raw.price, raw.price_scale, source_row, "Price"@, 4);
    let quantity = positive_result(raw.quantity, source_row, "OrderQty"@);
    if side is Err {
        Err(side->Err_0)
    } else if sz_side(side->Ok_0) is None {
        Err(
            invalid_field(
                source_row,
                "Side"@,
                "unsupported stock side: "@ + int_text(side->Ok_0 as int),
            ),
        )
    } else if kind is Err {
        Err(kind->Err_0)
    } else if sz_order_kind(kind->Ok_0) is None {
        Err(
            invalid_field(
                source_row,
                "OrdType"@,
                "unsupported value: "@ + int_text(kind->Ok_0 as int),
            ),
        )
    } else if local is Err {
        Err(local->Err_0)
    } else if price is Err {
        Err(price->Err_0)
    } else if quantity is Err {
        Err(quantity->Err_0)
    } else {
        Ok(
            SzOrderModel {
                source_row,
                sequence,
                channel,
                symbol,
                quote_time_ns,
                local_time_ns: local->Ok_0,
                price_units: price->Ok_0,
                quantity: quantity->Ok_0,
                side: sz_side(side->Ok_0)->0,
                kind: sz_order_kind(kind->Ok_0)->0,
            },
        )
    }
}

/// The row of a selected execution, or which of its other fields is wrong.
pub open spec fn sz_execution_row(
    raw: RawSzExecution,
    midnight: int,
    source_row: u64,
    channel: u32,
    sequence: u64,
    symbol: Seq<char>,
    quote_time_ns: i64,
) -> Result<SzExecutionModel, ErrorModel> {
    let kind = value_result(raw.kind, source_row, "ExecType"@);
    let local = timestamp_field_result(
        midnight,
        optional_text(raw.local_time),
        source_row,
        "LocalTime"@,
    );
    let bid = nonnegative_result(raw.bid_order_no, source_row, "BidApplSeqNum"@);
    let ask = nonnegative_result(raw.ask_order_no, source_row, "OfferApplSeqNum"@);
    let price = decimal_result(raw.price, raw.price_scale, source_row, "LastPx"@, 4);
    let quantity = positive_result(raw.quantity, source_row, "LastQty"@);
    if kind is Err {
        Err(kind->Err_0)
    } else if sz_execution_kind(kind->Ok_0) is None {
        Err(
            invalid_field(
                source_row,
                "ExecType"@,
                "unsupported value: "@ + int_text(kind->Ok_0 as int),
            ),
        )
    } else if local is Err {
        Err(local->Err_0)
    } else if bid is Err {
        Err(bid->Err_0)
    } else if ask is Err {
        Err(ask->Err_0)
    } else if price is Err {
        Err(price->Err_0)
    } else if quantity is Err {
        Err(quantity->Err_0)
    } else {
        Ok(
            SzExecutionModel {
                source_row,
                sequence,
                channel,
                symbol,
                quote_time_ns,
                local_time_ns: local->Ok_0,
                bid_order_no: bid->Ok_0,
                ask_order_no: ask->Ok_0,
                price_units: price->Ok_0,
                quantity: quantity->Ok_0,
                kind: sz_execution_kind(kind->Ok_0)->0,
            },
        )
    }
}

/// What one Shenzhen order does.
#[verifier::opaque]
pub open spec fn sz_order_ingested(
    before: SzOrderIngest,
    request: MarketDayRequest,
    midnight: int,
    cutoff: Option<i64>,
    raw: RawSzOrder,
) -> SzOrderIngest {
    let read = SzOrderIngest { stats: before.stats.read(), ..before };
    let source = value_result(raw.source_row, 0, "source_row_no"@);
    let channel = positive_narrow_result(raw.channel, source->Ok_0, "ChannelNo"@);
    let sequence = positive_result(raw.sequence, source->Ok_0, "ApplSeqNum"@);
    if bump_error(before.stats.input_rows, "input row count"@) is Some {
        SzOrderIngest { error: bump_error(before.stats.input_rows, "input row count"@), ..before }
    } else if source is Err {
        SzOrderIngest { error: Some(source->Err_0), ..read }
    } else if channel is Err {
        SzOrderIngest { error: Some(channel->Err_0), ..read }
    } else if sequence is Err {
        SzOrderIngest { error: Some(sequence->Err_0), ..read }
    } else {
        let noted = SzOrderIngest {
            audit: before.audit.observed(channel->Ok_0, sequence->Ok_0, source->Ok_0),
            ..read
        };
        if before.audit.repeats(channel->Ok_0, sequence->Ok_0) {
            SzOrderIngest {
                error: Some(
                    ErrorModel::AmbiguousSequence {
                        channel: channel->Ok_0,
                        sequence: sequence->Ok_0,
                    },
                ),
                ..noted
            }
        } else {
            let selection = read.stats.selection(
                request,
                Market::Szse,
                midnight,
                cutoff,
                source->Ok_0,
                channel->Ok_0,
                optional_text(raw.security_id),
                optional_text(raw.transact_time),
                "TransactTime"@,
            );
            let decided = SzOrderIngest { stats: selection.stats, ..noted };
            match selection.outcome {
                Err(error) => SzOrderIngest { error: Some(error), ..decided },
                Ok(None) => decided,
                Ok(Some((symbol, quote_time_ns))) => match sz_order_row(
                    raw,
                    midnight,
                    source->Ok_0,
                    channel->Ok_0,
                    sequence->Ok_0,
                    symbol,
                    quote_time_ns,
                ) {
                    Err(error) => SzOrderIngest { error: Some(error), ..decided },
                    Ok(row) => SzOrderIngest {
                        stats: decided.stats.select(),
                        rows: decided.rows.push(row),
                        ..decided
                    },
                },
            }
        }
    }
}

/// What Shenzhen orders do, up to the first that is wrong.
pub open spec fn sz_order_ingested_all(
    before: SzOrderIngest,
    request: MarketDayRequest,
    midnight: int,
    cutoff: Option<i64>,
    raws: Seq<RawSzOrder>,
) -> SzOrderIngest
    decreases raws.len(),
{
    if raws.len() == 0 || before.error is Some {
        before
    } else {
        sz_order_ingested_all(
            sz_order_ingested(before, request, midnight, cutoff, raws[0]),
            request,
            midnight,
            cutoff,
            raws.drop_first(),
        )
    }
}

/// What one Shenzhen execution does.
#[verifier::opaque]
pub open spec fn sz_execution_ingested(
    before: SzExecutionIngest,
    request: MarketDayRequest,
    midnight: int,
    cutoff: Option<i64>,
    raw: RawSzExecution,
) -> SzExecutionIngest {
    let read = SzExecutionIngest { stats: before.stats.read(), ..before };
    let source = value_result(raw.source_row, 0, "source_row_no"@);
    let channel = positive_narrow_result(raw.channel, source->Ok_0, "ChannelNo"@);
    let sequence = positive_result(raw.sequence, source->Ok_0, "ApplSeqNum"@);
    if bump_error(before.stats.input_rows, "input row count"@) is Some {
        SzExecutionIngest {
            error: bump_error(before.stats.input_rows, "input row count"@),
            ..before
        }
    } else if source is Err {
        SzExecutionIngest { error: Some(source->Err_0), ..read }
    } else if channel is Err {
        SzExecutionIngest { error: Some(channel->Err_0), ..read }
    } else if sequence is Err {
        SzExecutionIngest { error: Some(sequence->Err_0), ..read }
    } else {
        let noted = SzExecutionIngest {
            audit: before.audit.observed(channel->Ok_0, sequence->Ok_0, source->Ok_0),
            ..read
        };
        if before.audit.repeats(channel->Ok_0, sequence->Ok_0) {
            SzExecutionIngest {
                error: Some(
                    ErrorModel::AmbiguousSequence {
                        channel: channel->Ok_0,
                        sequence: sequence->Ok_0,
                    },
                ),
                ..noted
            }
        } else {
            let selection = read.stats.selection(
                request,
                Market::Szse,
                midnight,
                cutoff,
                source->Ok_0,
                channel->Ok_0,
                optional_text(raw.security_id),
                optional_text(raw.transact_time),
                "TransactTime"@,
            );
            let decided = SzExecutionIngest { stats: selection.stats, ..noted };
            match selection.outcome {
                Err(error) => SzExecutionIngest { error: Some(error), ..decided },
                Ok(None) => decided,
                Ok(Some((symbol, quote_time_ns))) => match sz_execution_row(
                    raw,
                    midnight,
                    source->Ok_0,
                    channel->Ok_0,
                    sequence->Ok_0,
                    symbol,
                    quote_time_ns,
                ) {
                    Err(error) => SzExecutionIngest { error: Some(error), ..decided },
                    Ok(row) => SzExecutionIngest {
                        stats: decided.stats.select(),
                        rows: decided.rows.push(row),
                        ..decided
                    },
                },
            }
        }
    }
}

/// What Shenzhen executions do, up to the first that is wrong.
pub open spec fn sz_execution_ingested_all(
    before: SzExecutionIngest,
    request: MarketDayRequest,
    midnight: int,
    cutoff: Option<i64>,
    raws: Seq<RawSzExecution>,
) -> SzExecutionIngest
    decreases raws.len(),
{
    if raws.len() == 0 || before.error is Some {
        before
    } else {
        sz_execution_ingested_all(
            sz_execution_ingested(before, request, midnight, cutoff, raws[0]),
            request,
            midnight,
            cutoff,
            raws.drop_first(),
        )
    }
}

pub open spec fn sz_order_views(rows: Seq<SzOrderRow>) -> Seq<SzOrderModel> {
    rows.map_values(|row: SzOrderRow| row@)
}

pub open spec fn sz_execution_views(rows: Seq<SzExecutionRow>) -> Seq<SzExecutionModel> {
    rows.map_values(|row: SzExecutionRow| row@)
}

fn side_of(code: i32) -> (r: Option<SzSide>)
    ensures
        r == sz_side(code),
{
    if code == 49 {
        Some(SzSide::Buy)
    } else if code == 50 {
        Some(SzSide::Sell)
    } else {
        None
    }
}

fn order_kind_of(code: i32) -> (r: Option<SzOrderKind>)
    ensures
        r == sz_order_kind(code),
{
    if code == 49 {
        Some(SzOrderKind::Market)
    } else if code == 50 {
        Some(SzOrderKind::Limit)
    } else if code == 85 {
        Some(SzOrderKind::SameSideBest)
    } else {
        None
    }
}

fn execution_kind_of(code: i32) -> (r: Option<SzExecutionKind>)
    ensures
        r == sz_execution_kind(code),
{
    if code == 70 {
        Some(SzExecutionKind::Trade)
    } else if code == 52 {
        Some(SzExecutionKind::Cancel)
    } else {
        None
    }
}

fn unsupported(source_row: u64, field: &'static str, what: &str, code: i32) -> (r: ProductionError)
    ensures
        r@ == invalid_field(source_row, field@, what@ + int_text(code as int)),
{
    let detail = concat(what, i64_text(code as i64).as_str());
    invalid(source_row, field, detail.as_str())
}

fn order_row_of(
    raw: &RawSzOrder,
    parser: &MarketTimestampParser,
    source_row: u64,
    channel: u32,
    sequence: u64,
    symbol: String,
    quote_time_ns: i64,
) -> (r: Result<SzOrderRow, ProductionError>)
    ensures
        match sz_order_row(
            *raw,
            parser.spec_midnight() as int,
            source_row,
            channel,
            sequence,
            symbol@,
            quote_time_ns,
        ) {
            Ok(row) => r is Ok && r->Ok_0@ == row,
            Err(error) => r is Err && r->Err_0@ == error,
        },
{
    let side_code: i32 = match required(raw.side, source_row, "Side") {
        Ok(code) => code,
        Err(error) => return Err(error),
    };
    let side = match side_of(side_code) {
        Some(side) => side,
        None => return Err(
            unsupported(source_row, "Side", "unsupported stock side: ", side_code),
        ),
    };
    let kind_code: i32 = match required(raw.kind, source_row, "OrdType") {
        Ok(code) => code,
        Err(error) => return Err(error),
    };
    let kind = match order_kind_of(kind_code) {
        Some(kind) => kind,
        None => return Err(unsupported(source_row, "OrdType", "unsupported value: ", kind_code)),
    };
    let local_time_ns = match parse_timestamp_field(
        parser,
        &raw.local_time,
        source_row,
        "LocalTime",
    ) {
        Ok(nanos) => nanos,
        Err(error) => return Err(error),
    };
    let price_units = match decimal_units(raw.price, raw.price_scale, source_row, "Price", 4) {
        Ok(units) => units,
        Err(error) => return Err(error),
    };
    let quantity = match positive_i64_u64(raw.quantity, source_row, "OrderQty") {
        Ok(quantity) => quantity,
        Err(error) => return Err(error),
    };
    Ok(
        SzOrderRow {
            source_row,
            sequence,
            channel,
            symbol,
            quote_time_ns,
            local_time_ns,
            price_units,
            quantity,
            side,
            kind,
        },
    )
}

fn execution_row_of(
    raw: &RawSzExecution,
    parser: &MarketTimestampParser,
    source_row: u64,
    channel: u32,
    sequence: u64,
    symbol: String,
    quote_time_ns: i64,
) -> (r: Result<SzExecutionRow, ProductionError>)
    ensures
        match sz_execution_row(
            *raw,
            parser.spec_midnight() as int,
            source_row,
            channel,
            sequence,
            symbol@,
            quote_time_ns,
        ) {
            Ok(row) => r is Ok && r->Ok_0@ == row,
            Err(error) => r is Err && r->Err_0@ == error,
        },
{
    let kind_code: i32 = match required(raw.kind, source_row, "ExecType") {
        Ok(code) => code,
        Err(error) => return Err(error),
    };
    let kind = match execution_kind_of(kind_code) {
        Some(kind) => kind,
        None => return Err(unsupported(source_row, "ExecType", "unsupported value: ", kind_code)),
    };
    let local_time_ns = match parse_timestamp_field(
        parser,
        &raw.local_time,
        source_row,
        "LocalTime",
    ) {
        Ok(nanos) => nanos,
        Err(error) => return Err(error),
    };
    let bid_order_no = match nonnegative_i64(raw.bid_order_no, source_row, "BidApplSeqNum") {
        Ok(order_no) => order_no,
        Err(error) => return Err(error),
    };
    let ask_order_no = match nonnegative_i64(raw.ask_order_no, source_row, "OfferApplSeqNum") {
        Ok(order_no) => order_no,
        Err(error) => return Err(error),
    };
    let price_units = match decimal_units(raw.price, raw.price_scale, source_row, "LastPx", 4) {
        Ok(units) => units,
        Err(error) => return Err(error),
    };
    let quantity = match positive_i64_u64(raw.quantity, source_row, "LastQty") {
        Ok(quantity) => quantity,
        Err(error) => return Err(error),
    };
    Ok(
        SzExecutionRow {
            source_row,
            sequence,
            channel,
            symbol,
            quote_time_ns,
            local_time_ns,
            bid_order_no,
            ask_order_no,
            price_units,
            quantity,
            kind,
        },
    )
}

fn ingest_order(
    request: &MarketDayRequest,
    parser: &MarketTimestampParser,
    cutoff: Option<i64>,
    raw: &RawSzOrder,
    audit: &mut SequenceAudit,
    stats: &mut IngestStats,
    rows: &mut Vec<SzOrderRow>,
) -> (r: Result<(), ProductionError>)
    requires
        old(stats).wf(),
    ensures
        final(stats).wf(),
        r is Ok ==> final(stats)@.settled() - old(stats)@.settled() == 1,
        r is Ok ==> final(stats).input_rows == old(stats).input_rows + 1,
        sz_order_ingested(
            SzOrderIngest {
                stats: old(stats)@,
                audit: old(audit)@,
                rows: sz_order_views(old(rows)@),
                error: None,
            },
            *request,
            parser.spec_midnight() as int,
            cutoff,
            *raw,
        ) == (SzOrderIngest {
            stats: final(stats)@,
            audit: final(audit)@,
            rows: sz_order_views(final(rows)@),
            error: match r {
                Ok(_) => None,
                Err(error) => Some(error@),
            },
        }),
{
    proof {
        reveal(sz_order_ingested);
    }
    match stats.count_input() {
        Ok(()) => {},
        Err(error) => return Err(error),
    }
    let source_row: u64 = match required(raw.source_row, 0, "source_row_no") {
        Ok(value) => value,
        Err(error) => return Err(error),
    };
    let channel: u32 = match positive_i32_u32(raw.channel, source_row, "ChannelNo") {
        Ok(channel) => channel,
        Err(error) => return Err(error),
    };
    let sequence: u64 = match positive_i64_u64(raw.sequence, source_row, "ApplSeqNum") {
        Ok(sequence) => sequence,
        Err(error) => return Err(error),
    };
    match audit.observe_sz_sequence(channel, sequence, source_row) {
        Ok(()) => {},
        Err(error) => return Err(error),
    }
    let (symbol, quote_time_ns) = match stats.select(
        request,
        Market::Szse,
        parser,
        cutoff,
        source_row,
        channel,
        &raw.security_id,
        &raw.transact_time,
        "TransactTime",
    ) {
        Ok(Some(selected)) => selected,
        Ok(None) => return Ok(()),
        Err(error) => return Err(error),
    };
    let row = match order_row_of(
        raw,
        parser,
        source_row,
        channel,
        sequence,
        symbol,
        quote_time_ns,
    ) {
        Ok(row) => row,
        Err(error) => return Err(error),
    };
    let ghost before = sz_order_views(rows@);
    rows.push(row);
    assert(sz_order_views(rows@) =~= before.push(row@));
    stats.selected_rows = stats.selected_rows + 1;
    Ok(())
}

/// Selects rows from Shenzhen orders, in their order, up to the first that is wrong.
pub fn ingest_sz_orders(
    request: &MarketDayRequest,
    parser: &MarketTimestampParser,
    quote_time_exclusive: Option<i64>,
    raws: &Vec<RawSzOrder>,
    audit: &mut SequenceAudit,
    stats: &mut IngestStats,
    rows: &mut Vec<SzOrderRow>,
) -> (r: Result<(), ProductionError>)
    requires
        old(stats).wf(),
    ensures
        final(stats).wf(),
        r is Ok ==> final(stats).input_rows - old(stats).input_rows == raws@.len(),
        r is Ok ==> final(stats)@.settled() - old(stats)@.settled() == raws@.len(),
        sz_order_ingested_all(
            SzOrderIngest {
                stats: old(stats)@,
                audit: old(audit)@,
                rows: sz_order_views(old(rows)@),
                error: None,
            },
            *request,
            parser.spec_midnight() as int,
            quote_time_exclusive,
            raws@,
        ) == (SzOrderIngest {
            stats: final(stats)@,
            audit: final(audit)@,
            rows: sz_order_views(final(rows)@),
            error: match r {
                Ok(_) => None,
                Err(error) => Some(error@),
            },
        }),
{
    let ghost midnight = parser.spec_midnight() as int;
    let ghost start = SzOrderIngest {
        stats: stats@,
        audit: audit@,
        rows: sz_order_views(rows@),
        error: None,
    };
    let mut at: usize = 0;
    assert(raws@.skip(0) =~= raws@);
    while at < raws.len()
        invariant
            stats.wf(),
            at <= raws@.len(),
            midnight == parser.spec_midnight(),
            stats.input_rows - old(stats).input_rows == at,
            stats@.settled() - old(stats)@.settled() == at,
            start == (SzOrderIngest {
                stats: old(stats)@,
                audit: old(audit)@,
                rows: sz_order_views(old(rows)@),
                error: None,
            }),
            sz_order_ingested_all(start, *request, midnight, quote_time_exclusive, raws@)
                == sz_order_ingested_all(
                SzOrderIngest {
                    stats: stats@,
                    audit: audit@,
                    rows: sz_order_views(rows@),
                    error: None,
                },
                *request,
                midnight,
                quote_time_exclusive,
                raws@.skip(at as int),
            ),
        decreases raws@.len() - at,
    {
        proof {
            reveal_with_fuel(sz_order_ingested_all, 2);
            assert(raws@.skip(at as int)[0] == raws@[at as int]);
            assert(raws@.skip(at as int).drop_first() =~= raws@.skip(at + 1));
        }
        match ingest_order(
            request,
            parser,
            quote_time_exclusive,
            &raws[at],
            audit,
            stats,
            rows,
        ) {
            Ok(()) => {},
            Err(error) => return Err(error),
        }
        at = at + 1;
    }
    Ok(())
}

fn ingest_execution(
    request: &MarketDayRequest,
    parser: &MarketTimestampParser,
    cutoff: Option<i64>,
    raw: &RawSzExecution,
    audit: &mut SequenceAudit,
    stats: &mut IngestStats,
    rows: &mut Vec<SzExecutionRow>,
) -> (r: Result<(), ProductionError>)
    requires
        old(stats).wf(),
    ensures
        final(stats).wf(),
        r is Ok ==> final(stats)@.settled() - old(stats)@.settled() == 1,
        r is Ok ==> final(stats).input_rows == old(stats).input_rows + 1,
        sz_execution_ingested(
            SzExecutionIngest {
                stats: old(stats)@,
                audit: old(audit)@,
                rows: sz_execution_views(old(rows)@),
                error: None,
            },
            *request,
            parser.spec_midnight() as int,
            cutoff,
            *raw,
        ) == (SzExecutionIngest {
            stats: final(stats)@,
            audit: final(audit)@,
            rows: sz_execution_views(final(rows)@),
            error: match r {
                Ok(_) => None,
                Err(error) => Some(error@),
            },
        }),
{
    proof {
        reveal(sz_execution_ingested);
    }
    match stats.count_input() {
        Ok(()) => {},
        Err(error) => return Err(error),
    }
    let source_row: u64 = match required(raw.source_row, 0, "source_row_no") {
        Ok(value) => value,
        Err(error) => return Err(error),
    };
    let channel: u32 = match positive_i32_u32(raw.channel, source_row, "ChannelNo") {
        Ok(channel) => channel,
        Err(error) => return Err(error),
    };
    let sequence: u64 = match positive_i64_u64(raw.sequence, source_row, "ApplSeqNum") {
        Ok(sequence) => sequence,
        Err(error) => return Err(error),
    };
    match audit.observe_sz_sequence(channel, sequence, source_row) {
        Ok(()) => {},
        Err(error) => return Err(error),
    }
    let (symbol, quote_time_ns) = match stats.select(
        request,
        Market::Szse,
        parser,
        cutoff,
        source_row,
        channel,
        &raw.security_id,
        &raw.transact_time,
        "TransactTime",
    ) {
        Ok(Some(selected)) => selected,
        Ok(None) => return Ok(()),
        Err(error) => return Err(error),
    };
    let row = match execution_row_of(
        raw,
        parser,
        source_row,
        channel,
        sequence,
        symbol,
        quote_time_ns,
    ) {
        Ok(row) => row,
        Err(error) => return Err(error),
    };
    let ghost before = sz_execution_views(rows@);
    rows.push(row);
    assert(sz_execution_views(rows@) =~= before.push(row@));
    stats.selected_rows = stats.selected_rows + 1;
    Ok(())
}

/// Selects rows from Shenzhen executions, in their order, up to the first that is wrong.
pub fn ingest_sz_executions(
    request: &MarketDayRequest,
    parser: &MarketTimestampParser,
    quote_time_exclusive: Option<i64>,
    raws: &Vec<RawSzExecution>,
    audit: &mut SequenceAudit,
    stats: &mut IngestStats,
    rows: &mut Vec<SzExecutionRow>,
) -> (r: Result<(), ProductionError>)
    requires
        old(stats).wf(),
    ensures
        final(stats).wf(),
        r is Ok ==> final(stats).input_rows - old(stats).input_rows == raws@.len(),
        r is Ok ==> final(stats)@.settled() - old(stats)@.settled() == raws@.len(),
        sz_execution_ingested_all(
            SzExecutionIngest {
                stats: old(stats)@,
                audit: old(audit)@,
                rows: sz_execution_views(old(rows)@),
                error: None,
            },
            *request,
            parser.spec_midnight() as int,
            quote_time_exclusive,
            raws@,
        ) == (SzExecutionIngest {
            stats: final(stats)@,
            audit: final(audit)@,
            rows: sz_execution_views(final(rows)@),
            error: match r {
                Ok(_) => None,
                Err(error) => Some(error@),
            },
        }),
{
    let ghost midnight = parser.spec_midnight() as int;
    let ghost start = SzExecutionIngest {
        stats: stats@,
        audit: audit@,
        rows: sz_execution_views(rows@),
        error: None,
    };
    let mut at: usize = 0;
    assert(raws@.skip(0) =~= raws@);
    while at < raws.len()
        invariant
            stats.wf(),
            at <= raws@.len(),
            midnight == parser.spec_midnight(),
            stats.input_rows - old(stats).input_rows == at,
            stats@.settled() - old(stats)@.settled() == at,
            start == (SzExecutionIngest {
                stats: old(stats)@,
                audit: old(audit)@,
                rows: sz_execution_views(old(rows)@),
                error: None,
            }),
            sz_execution_ingested_all(start, *request, midnight, quote_time_exclusive, raws@)
                == sz_execution_ingested_all(
                SzExecutionIngest {
                    stats: stats@,
                    audit: audit@,
                    rows: sz_execution_views(rows@),
                    error: None,
                },
                *request,
                midnight,
                quote_time_exclusive,
                raws@.skip(at as int),
            ),
        decreases raws@.len() - at,
    {
        proof {
            reveal_with_fuel(sz_execution_ingested_all, 2);
            assert(raws@.skip(at as int)[0] == raws@[at as int]);
            assert(raws@.skip(at as int).drop_first() =~= raws@.skip(at + 1));
        }
        match ingest_execution(
            request,
            parser,
            quote_time_exclusive,
            &raws[at],
            audit,
            stats,
            rows,
        ) {
            Ok(()) => {},
            Err(error) => return Err(error),
        }
        at = at + 1;
    }
    Ok(())
}

} // verus!
