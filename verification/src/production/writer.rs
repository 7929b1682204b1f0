//! Snapshots as columns of a table.

use vstd::prelude::*;
use vstd::string::StringExecFns;

use crate::text::{concat, nat_text};

use super::error::{ErrorModel, ProductionError};
use super::snapshot::{BookSnapshot, SnapshotLevel, SnapshotModel};
use super::types::SnapshotKind;

verus! {

/// The values of a column, one for each row.
#[derive(Debug, PartialEq, Eq)]
pub enum ColumnValues {
    Text(Vec<String>),
    Narrow(Vec<u32>),
    /// Nanoseconds since the epoch, shown as Shanghai time.
    Time(Vec<Option<i64>>),
    Count(Vec<Option<u64>>),
    /// Decimals of four places.
    Decimal(u8, Vec<Option<i128>>),
}

/// A column of a table.
#[derive(Debug, PartialEq, Eq)]
pub struct SnapshotColumn {
    pub name: String,
    pub nullable: bool,
    pub values: ColumnValues,
}

/// The values of a column, with its collections as sequences.
#[verifier::ext_equal]
pub enum ValuesModel {
    Text(Seq<Seq<char>>),
    Narrow(Seq<u32>),
    Time(Seq<Option<i64>>),
    Count(Seq<Option<u64>>),
    Decimal(u8, Seq<Option<i128>>),
}

#[verifier::ext_equal]
pub struct ColumnModel {
    pub name: Seq<char>,
    pub nullable: bool,
    pub values: ValuesModel,
}

impl View for ColumnValues {
    type V = ValuesModel;

    open spec fn view(&self) -> ValuesModel {
        match *self {
            ColumnValues::Text(values) => ValuesModel::Text(
                values@.map_values(|text: String| text@),
            ),
            ColumnValues::Narrow(values) => ValuesModel::Narrow(values@),
            ColumnValues::Time(values) => ValuesModel::Time(values@),
            ColumnValues::Count(values) => ValuesModel::Count(values@),
            ColumnValues::Decimal(precision, values) => ValuesModel::Decimal(precision, values@),
        }
    }
}

impl View for SnapshotColumn {
    type V = ColumnModel;

    open spec fn view(&self) -> ColumnModel {
        ColumnModel { name: self.name@, nullable: self.nullable, values: self.values@ }
    }
}

/// A time of a snapshot.
#[derive(Clone, Copy, Debug, PartialEq, Eq, Structural)]
pub enum TimeField {
    Boundary,
    LastLocal,
    LastQuote,
}

impl TimeField {
    pub open spec fn of(self, row: SnapshotModel) -> Option<i64> {
        match self {
            TimeField::Boundary => Some(row.boundary_time_ns),
            TimeField::LastLocal => row.last_local_time_ns,
            TimeField::LastQuote => row.last_quote_time_ns,
        }
    }
}

/// A count of a snapshot.
#[derive(Clone, Copy, Debug, PartialEq, Eq, Structural)]
pub enum CountField {
    LevelQuantity(bool, usize),
    LevelOrders(bool, usize),
    TotalBid,
    TotalAsk,
    TradeCount,
    TradeQuantity,
}

/// A price or an amount of a snapshot.
#[derive(Clone, Copy, Debug, PartialEq, Eq, Structural)]
pub enum DecimalField {
    LevelPrice(bool, usize),
    WeightedBid,
    WeightedAsk,
    Last,
    High,
    Low,
}

/// A level of a snapshot, if it shows so many.
pub open spec fn level_at(row: SnapshotModel, asks: bool, level: usize) -> Option<SnapshotLevel> {
    let levels = if asks {
        row.book.asks
    } else {
        row.book.bids
    };
    if level < levels.len() {
        Some(levels[level as int])
    } else {
        None
    }
}

impl CountField {
    pub open spec fn of(self, row: SnapshotModel) -> Option<u64> {
        match self {
            CountField::LevelQuantity(asks, level) => match level_at(row, asks, level) {
                Some(level) => Some(level.quantity),
                None => None,
            },
            CountField::LevelOrders(asks, level) => match level_at(row, asks, level) {
                Some(level) => Some(level.order_count),
                None => None,
            },
            CountField::TotalBid => Some(row.book.total_bid_quantity),
            CountField::TotalAsk => Some(row.book.total_ask_quantity),
            CountField::TradeCount => Some(row.book.trade_count),
            CountField::TradeQuantity => Some(row.book.trade_quantity),
        }
    }
}

impl DecimalField {
    pub open spec fn of(self, row: SnapshotModel) -> Option<i64> {
        match self {
            DecimalField::LevelPrice(asks, level) => match level_at(row, asks, level) {
                Some(level) => Some(level.price_units),
                None => None,
            },
            DecimalField::WeightedBid => row.book.weighted_bid_price_units,
            DecimalField::WeightedAsk => row.book.weighted_ask_price_units,
            DecimalField::Last => row.book.last_price_units,
            DecimalField::High => row.book.high_price_units,
            DecimalField::Low => row.book.low_price_units,
        }
    }
}

pub open spec fn widened(value: Option<i64>) -> Option<i128> {
    match value {
        Some(value) => Some(value as i128),
        None => None,
    }
}

pub open spec fn time_column(
    name: Seq<char>,
    nullable: bool,
    field: TimeField,
    rows: Seq<SnapshotModel>,
) -> ColumnModel {
    ColumnModel {
        name,
        nullable,
        values: ValuesModel::Time(rows.map_values(|row: SnapshotModel| field.of(row))),
    }
}

pub open spec fn count_column(
    name: Seq<char>,
    nullable: bool,
    field: CountField,
    rows: Seq<SnapshotModel>,
) -> ColumnModel {
    ColumnModel {
        name,
        nullable,
        values: ValuesModel::Count(rows.map_values(|row: SnapshotModel| field.of(row))),
    }
}

pub open spec fn price_column(
    name: Seq<char>,
    field: DecimalField,
    rows: Seq<SnapshotModel>,
) -> ColumnModel {
    ColumnModel {
        name,
        nullable: true,
        values: ValuesModel::Decimal(
            18,
            rows.map_values(|row: SnapshotModel| widened(field.of(row))),
        ),
    }
}

pub open spec fn kind_text(kind: SnapshotKind) -> Seq<char> {
    match kind {
        SnapshotKind::Scheduled => "scheduled"@,
        SnapshotKind::MarketClose => "market_close"@,
    }
}

/// The columns that tell a snapshot and its times.
pub open spec fn leading_columns(rows: Seq<SnapshotModel>) -> Seq<ColumnModel> {
    seq![
        ColumnModel {
            name: "symbol"@,
            nullable: false,
            values: ValuesModel::Text(rows.map_values(|row: SnapshotModel| row.symbol)),
        },
        ColumnModel {
            name: "channel"@,
            nullable: false,
            values: ValuesModel::Narrow(rows.map_values(|row: SnapshotModel| row.channel)),
        },
        ColumnModel {
            name: "snapshot_kind"@,
            nullable: false,
            values: ValuesModel::Text(rows.map_values(|row: SnapshotModel| kind_text(row.kind))),
        },
        time_column("boundary_time"@, false, TimeField::Boundary, rows),
        time_column("last_local_time"@, true, TimeField::LastLocal, rows),
        time_column("last_quote_time"@, true, TimeField::LastQuote, rows),
    ]
}

/// The name of a level's column.
pub open spec fn level_name(asks: bool, what: Seq<char>, level: nat) -> Seq<char> {
    (if asks {
        "ask"@
    } else {
        "bid"@
    }) + what + nat_text(level + 1)
}

/// The columns of the first levels of a side, three for each.
pub open spec fn level_columns(rows: Seq<SnapshotModel>, asks: bool, depth: nat) -> Seq<ColumnModel>
    decreases depth,
{
    if depth == 0 {
        Seq::empty()
    } else {
        let level = (depth - 1) as nat;
        level_columns(rows, asks, level).push(
            price_column(
                level_name(asks, "_price_"@, level),
                DecimalField::LevelPrice(asks, level as usize),
                rows,
            ),
        ).push(
            count_column(
                level_name(asks, "_quantity_"@, level),
                true,
                CountField::LevelQuantity(asks, level as usize),
                rows,
            ),
        ).push(
            count_column(
                level_name(asks, "_order_count_"@, level),
                true,
                CountField::LevelOrders(asks, level as usize),
                rows,
            ),
        )
    }
}

/// The columns of totals and trades.
pub open spec fn trailing_columns(rows: Seq<SnapshotModel>) -> Seq<ColumnModel> {
    seq![
        count_column("total_bid_quantity"@, false, CountField::TotalBid, rows),
        price_column("weighted_bid_price"@, DecimalField::WeightedBid, rows),
        count_column("total_ask_quantity"@, false, CountField::TotalAsk, rows),
        price_column("weighted_ask_price"@, DecimalField::WeightedAsk, rows),
        price_column("last_price"@, DecimalField::Last, rows),
        price_column("high_price"@, DecimalField::High, rows),
        price_column("low_price"@, DecimalField::Low, rows),
        count_column("trade_count"@, false, CountField::TradeCount, rows),
        count_column("trade_quantity"@, false, CountField::TradeQuantity, rows),
        ColumnModel {
            name: "turnover"@,
            nullable: false,
            values: ValuesModel::Decimal(
                38,
                rows.map_values(
                    |row: SnapshotModel| Some(row.book.turnover_units as i128),
                ),
            ),
        },
    ]
}

/// All columns of a table of snapshots.
pub open spec fn snapshot_columns(rows: Seq<SnapshotModel>, depth: nat) -> Seq<ColumnModel> {
    leading_columns(rows) + level_columns(rows, true, depth) + level_columns(rows, false, depth)
        + trailing_columns(rows)
}

/// Whether every turnover fits a column.
pub open spec fn turnovers_fit(rows: Seq<SnapshotModel>) -> bool {
    forall|i: int| 0 <= i < rows.len() ==> (#[trigger] rows[i]).book.turnover_units <= i128::MAX
}

pub open spec fn row_models(rows: Seq<BookSnapshot>) -> Seq<SnapshotModel> {
    rows.map_values(|row: BookSnapshot| row@)
}

pub open spec fn column_models(columns: Seq<SnapshotColumn>) -> Seq<ColumnModel> {
    columns.map_values(|column: SnapshotColumn| column@)
}

fn time_of(row: &BookSnapshot, field: TimeField) -> (r: Option<i64>)
    ensures
        r == field.of(row@),
{
    match field {
        TimeField::Boundary => Some(row.boundary_time_ns),
        TimeField::LastLocal => row.last_local_time_ns,
        TimeField::LastQuote => row.last_quote_time_ns,
    }
}

fn level_of(row: &BookSnapshot, asks: bool, level: usize) -> (r: Option<SnapshotLevel>)
    ensures
        r == level_at(row@, asks, level),
{
    let levels = if asks {
        row.book.asks.as_slice()
    } else {
        row.book.bids.as_slice()
    };
    if level < levels.len() {
        Some(levels[level])
    } else {
        None
    }
}

fn count_of(row: &BookSnapshot, field: CountField) -> (r: Option<u64>)
    ensures
        r == field.of(row@),
{
    match field {
        CountField::LevelQuantity(asks, level) => match level_of(row, asks, level) {
            Some(level) => Some(level.quantity),
            None => None,
        },
        CountField::LevelOrders(asks, level) => match level_of(row, asks, level) {
            Some(level) => Some(level.order_count),
            None => None,
        },
        CountField::TotalBid => Some(row.book.total_bid_quantity),
        CountField::TotalAsk => Some(row.book.total_ask_quantity),
        CountField::TradeCount => Some(row.book.trade_count),
        CountField::TradeQuantity => Some(row.book.trade_quantity),
    }
}

fn price_of(row: &BookSnapshot, field: DecimalField) -> (r: Option<i128>)
    ensures
        r == widened(field.of(row@)),
{
    let value: Option<i64> = match field {
        DecimalField::LevelPrice(asks, level) => match level_of(row, asks, level) {
            Some(level) => Some(level.price_units),
            None => None,
        },
        DecimalField::WeightedBid => row.book.weighted_bid_price_units,
        DecimalField::WeightedAsk => row.book.weighted_ask_price_units,
        DecimalField::Last => row.book.last_price_units,
        DecimalField::High => row.book.high_price_units,
        DecimalField::Low => row.book.low_price_units,
    };
    match value {
        Some(value) => Some(value as i128),
        None => None,
    }
}

fn times(name: &str, nullable: bool, field: TimeField, rows: &Vec<BookSnapshot>) -> (r: SnapshotColumn)
    ensures
        r@ == time_column(name@, nullable, field, row_models(rows@)),
{
    let mut values: Vec<Option<i64>> = Vec::new();
    let mut at: usize = 0;
    while at < rows.len()
        invariant
            at <= rows@.len(),
            values@.len() == at,
            forall|i: int| 0 <= i < at ==> #[trigger] values@[i] == field.of(rows@[i]@),
        decreases rows@.len() - at,
    {
        values.push(time_of(&rows[at], field));
        at = at + 1;
    }
    assert(values@ =~= row_models(rows@).map_values(|row: SnapshotModel| field.of(row)));
    SnapshotColumn { name: String::from_str(name), nullable, values: ColumnValues::Time(values) }
}

fn counts(name: &str, nullable: bool, field: CountField, rows: &Vec<BookSnapshot>) -> (r: SnapshotColumn)
    ensures
        r@ == count_column(name@, nullable, field, row_models(rows@)),
{
    let mut values: Vec<Option<u64>> = Vec::new();
    let mut at: usize = 0;
    while at < rows.len()
        invariant
            at <= rows@.len(),
            values@.len() == at,
            forall|i: int| 0 <= i < at ==> #[trigger] values@[i] == field.of(rows@[i]@),
        decreases rows@.len() - at,
    {
        values.push(count_of(&rows[at], field));
        at = at + 1;
    }
    assert(values@ =~= row_models(rows@).map_values(|row: SnapshotModel| field.of(row)));
    SnapshotColumn { name: String::from_str(name), nullable, values: ColumnValues::Count(values) }
}

fn prices(name: &str, field: DecimalField, rows: &Vec<BookSnapshot>) -> (r: SnapshotColumn)
    ensures
        r@ == price_column(name@, field, row_models(rows@)),
{
    let mut values: Vec<Option<i128>> = Vec::new();
    let mut at: usize = 0;
    while at < rows.len()
        invariant
            at <= rows@.len(),
            values@.len() == at,
            forall|i: int| 0 <= i < at ==> #[trigger] values@[i] == widened(field.of(rows@[i]@)),
        decreases rows@.len() - at,
    {
        values.push(price_of(&rows[at], field));
        at = at + 1;
    }
    assert(values@ =~= row_models(rows@).map_values(
        |row: SnapshotModel| widened(field.of(row)),
    ));
    SnapshotColumn {
        name: String::from_str(name),
        nullable: true,
        values: ColumnValues::Decimal(18, values),
    }
}

fn push_column(columns: &mut Vec<SnapshotColumn>, column: SnapshotColumn)
    ensures
        column_models(final(columns)@) == column_models(old(columns)@).push(column@),
{
    let ghost before = column_models(columns@);
    columns.push(column);
    assert(column_models(columns@) =~= before.push(column@));
}

fn push_leading(columns: &mut Vec<SnapshotColumn>, rows: &Vec<BookSnapshot>)
    ensures
        column_models(final(columns)@) == column_models(old(columns)@) + leading_columns(
            row_models(rows@),
        ),
{
    let ghost before = column_models(columns@);
    let ghost models = row_models(rows@);
    let mut symbols: Vec<String> = Vec::new();
    let mut channels: Vec<u32> = Vec::new();
    let mut kinds: Vec<String> = Vec::new();
    let mut at: usize = 0;
    while at < rows.len()
        invariant
            at <= rows@.len(),
            symbols@.len() == at,
            channels@.len() == at,
            kinds@.len() == at,
            forall|i: int| 0 <= i < at ==> (#[trigger] symbols@[i])@ == rows@[i].symbol@,
            forall|i: int| 0 <= i < at ==> #[trigger] channels@[i] == rows@[i].channel,
            forall|i: int| 0 <= i < at ==> (#[trigger] kinds@[i])@ == kind_text(rows@[i].kind),
        decreases rows@.len() - at,
    {
        let row = &rows[at];
        symbols.push(row.symbol.clone());
        channels.push(row.channel);
        kinds.push(
            String::from_str(
                match row.kind {
                    SnapshotKind::Scheduled => "scheduled",
                    SnapshotKind::MarketClose => "market_close",
                },
            ),
        );
        at = at + 1;
    }
    proof {
        assert(symbols@.map_values(|text: String| text@) =~= models.map_values(
            |row: SnapshotModel| row.symbol,
        ));
        assert(channels@ =~= models.map_values(|row: SnapshotModel| row.channel));
        assert(kinds@.map_values(|text: String| text@) =~= models.map_values(
            |row: SnapshotModel| kind_text(row.kind),
        ));
    }
    push_column(
        columns,
        SnapshotColumn {
            name: String::from_str("symbol"),
            nullable: false,
            values: ColumnValues::Text(symbols),
        },
    );
    push_column(
        columns,
        SnapshotColumn {
            name: String::from_str("channel"),
            nullable: false,
            values: ColumnValues::Narrow(channels),
        },
    );
    push_column(
        columns,
        SnapshotColumn {
            name: String::from_str("snapshot_kind"),
            nullable: false,
            values: ColumnValues::Text(kinds),
        },
    );
    push_column(columns, times("boundary_time", false, TimeField::Boundary, rows));
    push_column(columns, times("last_local_time", true, TimeField::LastLocal, rows));
    push_column(columns, times("last_quote_time", true, TimeField::LastQuote, rows));
    assert(column_models(columns@) =~= before + leading_columns(models));
}

fn named_level(asks: bool, what: &str, level: usize) -> (r: String)
    ensures
        r@ == level_name(asks, what@, level as nat),
{
    let side = if asks {
        "ask"
    } else {
        "bid"
    };
    let number = crate::text::u128_text(level as u128 + 1);
    concat(concat(side, what).as_str(), number.as_str())
}

fn push_levels(columns: &mut Vec<SnapshotColumn>, rows: &Vec<BookSnapshot>, asks: bool, depth: usize)
    ensures
        column_models(final(columns)@) == column_models(old(columns)@) + level_columns(
            row_models(rows@),
            asks,
            depth as nat,
        ),
{
    let ghost before = column_models(columns@);
    let ghost models = row_models(rows@);
    let mut level: usize = 0;
    assert(before + level_columns(models, asks, 0) =~= before);
    while level < depth
        invariant
            level <= depth,
            models == row_models(rows@),
            column_models(columns@) == before + level_columns(models, asks, level as nat),
        decreases depth - level,
    {
        let price = prices(
            named_level(asks, "_price_", level).as_str(),
            DecimalField::LevelPrice(asks, level),
            rows,
        );
        push_column(columns, price);
        let quantity = counts(
            named_level(asks, "_quantity_", level).as_str(),
            true,
            CountField::LevelQuantity(asks, level),
            rows,
        );
        push_column(columns, quantity);
        let orders = counts(
            named_level(asks, "_order_count_", level).as_str(),
            true,
            CountField::LevelOrders(asks, level),
            rows,
        );
        push_column(columns, orders);
        assert(column_models(columns@) =~= before + level_columns(
            models,
            asks,
            (level + 1) as nat,
        ));
        level = level + 1;
    }
}

fn turnovers(rows: &Vec<BookSnapshot>) -> (r: Result<Vec<Option<i128>>, ProductionError>)
    ensures
        r is Ok <==> turnovers_fit(row_models(rows@)),
        r is Ok ==> r->Ok_0@ == row_models(rows@).map_values(
            |row: SnapshotModel| Some(row.book.turnover_units as i128),
        ),
        r is Err ==> r->Err_0@ == ErrorModel::Arithmetic("turnover Decimal128 conversion"@),
{
    let mut values: Vec<Option<i128>> = Vec::new();
    let mut at: usize = 0;
    let ghost models = row_models(rows@);
    while at < rows.len()
        invariant
            at <= rows@.len(),
            models == row_models(rows@),
            values@.len() == at,
            forall|i: int|
                0 <= i < at ==> #[trigger] values@[i] == Some(
                    rows@[i].book.turnover_units as i128,
                ),
            forall|i: int|
                0 <= i < at ==> (#[trigger] models[i]).book.turnover_units <= i128::MAX,
        decreases rows@.len() - at,
    {
        let units: u128 = rows[at].book.turnover_units;
        assert(models[at as int].book.turnover_units == units);
        if units > 170_141_183_460_469_231_731_687_303_715_884_105_727 {
            return Err(ProductionError::Arithmetic("turnover Decimal128 conversion"));
        }
        values.push(Some(units as i128));
        at = at + 1;
    }
    assert(values@ =~= models.map_values(
        |row: SnapshotModel| Some(row.book.turnover_units as i128),
    ));
    Ok(values)
}

/// Snapshots as columns: what tells a snapshot, the levels of the asks and of the bids, then
/// totals and trades.
pub fn snapshots_to_columns(rows: &Vec<BookSnapshot>, depth: usize) -> (r: Result<
    Vec<SnapshotColumn>,
    ProductionError,
>)
    ensures
        r is Ok <==> turnovers_fit(row_models(rows@)),
        r is Ok ==> column_models(r->Ok_0@) == snapshot_columns(row_models(rows@), depth as nat),
        r is Err ==> r->Err_0@ == ErrorModel::Arithmetic("turnover Decimal128 conversion"@),
{
    let ghost models = row_models(rows@);
    let mut columns: Vec<SnapshotColumn> = Vec::new();
    assert(column_models(columns@) =~= Seq::<ColumnModel>::empty());
    push_leading(&mut columns, rows);
    push_levels(&mut columns, rows, true, depth);
    push_levels(&mut columns, rows, false, depth);
    let ghost before = column_models(columns@);
    push_column(&mut columns, counts("total_bid_quantity", false, CountField::TotalBid, rows));
    push_column(&mut columns, prices("weighted_bid_price", DecimalField::WeightedBid, rows));
    push_column(&mut columns, counts("total_ask_quantity", false, CountField::TotalAsk, rows));
    push_column(&mut columns, prices("weighted_ask_price", DecimalField::WeightedAsk, rows));
    push_column(&mut columns, prices("last_price", DecimalField::Last, rows));
    push_column(&mut columns, prices("high_price", DecimalField::High, rows));
    push_column(&mut columns, prices("low_price", DecimalField::Low, rows));
    push_column(&mut columns, counts("trade_count", false, CountField::TradeCount, rows));
    push_column(&mut columns, counts("trade_quantity", false, CountField::TradeQuantity, rows));
    let turnover = match turnovers(rows) {
        Ok(values) => values,
        Err(error) => return Err(error),
    };
    push_column(
        &mut columns,
        SnapshotColumn {
            name: String::from_str("turnover"),
            nullable: false,
            values: ColumnValues::Decimal(38, turnover),
        },
    );
    proof {
        assert(column_models(columns@) =~= before + trailing_columns(models));
        assert(column_models(columns@) =~= snapshot_columns(models, depth as nat));
    }
    Ok(columns)
}

} // verus!
