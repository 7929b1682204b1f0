//! The columns that raw files must have.

use vstd::prelude::*;
use vstd::string::StringExecFns;

use crate::text::{int_text, nat_text, i64_text, quoted, quoted_text, same_text, u64_text};

verus! {

/// The type of a column.
#[derive(Clone, Copy, Debug, PartialEq, Eq, Structural)]
pub enum ColumnType {
    UInt32,
    UInt64,
    Int32,
    Int64,
    LargeUtf8,
    Decimal { precision: u8, scale: i8 },
    Other,
}

impl ColumnType {
    /// How the type is called.
    pub open spec fn name(self) -> Seq<char> {
        match self {
            ColumnType::UInt32 => "UInt32"@,
            ColumnType::UInt64 => "UInt64"@,
            ColumnType::Int32 => "Int32"@,
            ColumnType::Int64 => "Int64"@,
            ColumnType::LargeUtf8 => "LargeUtf8"@,
            ColumnType::Decimal { precision, scale } => "Decimal128("@ + nat_text(
                precision as nat,
            ) + ", "@ + int_text(scale as int) + ")"@,
            ColumnType::Other => "another type"@,
        }
    }

    pub fn text(self) -> (r: String)
        ensures
            r@ == self.name(),
    {
        match self {
            ColumnType::UInt32 => String::from_str("UInt32"),
            ColumnType::UInt64 => String::from_str("UInt64"),
            ColumnType::Int32 => String::from_str("Int32"),
            ColumnType::Int64 => String::from_str("Int64"),
            ColumnType::LargeUtf8 => String::from_str("LargeUtf8"),
            ColumnType::Decimal { precision, scale } => {
                let mut r = String::from_str("Decimal128(");
                r.append(u64_text(precision as u64).as_str());
                r.append(", ");
                r.append(i64_text(scale as i64).as_str());
                r.append(")");
                r
            },
            ColumnType::Other => String::from_str("another type"),
        }
    }
}

/// A column of a file. Its type has a name of its own where it is none of the known ones.
#[derive(Debug, PartialEq, Eq)]
pub struct Column {
    pub name: String,
    pub kind: ColumnType,
    pub kind_name: String,
}

/// A column of a file, with texts as sequences of characters.
pub struct ColumnModel {
    pub name: Seq<char>,
    pub kind: ColumnType,
    pub kind_name: Seq<char>,
}

impl View for Column {
    type V = ColumnModel;

    open spec fn view(&self) -> ColumnModel {
        ColumnModel { name: self.name@, kind: self.kind, kind_name: self.kind_name@ }
    }
}

pub open spec fn column_views(columns: Seq<Column>) -> Seq<ColumnModel> {
    columns.map_values(|column: Column| column@)
}

/// A column that a file must have.
#[derive(Clone, Copy, Debug, PartialEq, Eq)]
pub struct RequiredColumn {
    pub name: &'static str,
    pub kind: ColumnType,
}

impl View for RequiredColumn {
    type V = (Seq<char>, ColumnType);

    open spec fn view(&self) -> (Seq<char>, ColumnType) {
        (self.name@, self.kind)
    }
}

pub open spec fn required_views(columns: Seq<RequiredColumn>) -> Seq<(Seq<char>, ColumnType)> {
    columns.map_values(|column: RequiredColumn| column@)
}

/// A raw feed of orders and trades.
#[derive(Clone, Copy, Debug, PartialEq, Eq, Structural)]
pub enum RawFeed {
    SseTicks,
    SzOrders,
    SzExecutions,
}

pub open spec fn decimal_type(scale: i8) -> ColumnType {
    ColumnType::Decimal { precision: 38, scale }
}

impl RawFeed {
    /// The columns of a feed and their types.
    pub open spec fn spec_columns(self) -> Seq<(Seq<char>, ColumnType)> {
        match self {
            RawFeed::SseTicks => seq![
                ("BizIndex"@, ColumnType::UInt64),
                ("Channel"@, ColumnType::UInt64),
                ("SecurityID"@, ColumnType::LargeUtf8),
                ("TickTime"@, ColumnType::LargeUtf8),
                ("Type"@, ColumnType::LargeUtf8),
                ("BuyOrderNO"@, ColumnType::UInt64),
                ("SellOrderNO"@, ColumnType::UInt64),
                ("Price"@, decimal_type(3)),
                ("Qty"@, ColumnType::Int64),
                ("TickBSFlag"@, ColumnType::LargeUtf8),
                ("LocalTime"@, ColumnType::LargeUtf8),
                ("source_row_no"@, ColumnType::UInt64),
            ],
            RawFeed::SzOrders => seq![
                ("ChannelNo"@, ColumnType::Int32),
                ("ApplSeqNum"@, ColumnType::Int64),
                ("SecurityID"@, ColumnType::LargeUtf8),
                ("Price"@, decimal_type(4)),
                ("OrderQty"@, ColumnType::Int64),
                ("Side"@, ColumnType::Int32),
                ("TransactTime"@, ColumnType::LargeUtf8),
                ("OrdType"@, ColumnType::Int32),
                ("LocalTime"@, ColumnType::LargeUtf8),
                ("source_row_no"@, ColumnType::UInt64),
            ],
            RawFeed::SzExecutions => seq![
                ("ChannelNo"@, ColumnType::Int32),
                ("ApplSeqNum"@, ColumnType::Int64),
                ("BidApplSeqNum"@, ColumnType::Int64),
                ("OfferApplSeqNum"@, ColumnType::Int64),
                ("SecurityID"@, ColumnType::LargeUtf8),
                ("LastPx"@, decimal_type(4)),
                ("LastQty"@, ColumnType::Int64),
                ("ExecType"@, ColumnType::Int32),
                ("TransactTime"@, ColumnType::LargeUtf8),
                ("LocalTime"@, ColumnType::LargeUtf8),
                ("source_row_no"@, ColumnType::UInt64),
            ],
        }
    }

    /// What a feed is called.
    pub open spec fn spec_name(self) -> Seq<char> {
        match self {
            RawFeed::SseTicks => "mdl_4_24_0"@,
            RawFeed::SzOrders => "mdl_6_33_0"@,
            RawFeed::SzExecutions => "mdl_6_36_0"@,
        }
    }

    #[must_use]
    pub fn name(self) -> (r: &'static str)
        ensures
            r@ == self.spec_name(),
    {
        match self {
            RawFeed::SseTicks => "mdl_4_24_0",
            RawFeed::SzOrders => "mdl_6_33_0",
            RawFeed::SzExecutions => "mdl_6_36_0",
        }
    }

    /// The columns of a feed and their types, in the order in which they are read.
    #[must_use]
    pub fn columns(self) -> (r: Vec<RequiredColumn>)
        ensures
            required_views(r@) == self.spec_columns(),
    {
        let text = ColumnType::LargeUtf8;
        let three = ColumnType::Decimal { precision: 38, scale: 3 };
        let four = ColumnType::Decimal { precision: 38, scale: 4 };
        let r: Vec<RequiredColumn> = match self {
            RawFeed::SseTicks => vec![
                RequiredColumn { name: "BizIndex", kind: ColumnType::UInt64 },
                RequiredColumn { name: "Channel", kind: ColumnType::UInt64 },
                RequiredColumn { name: "SecurityID", kind: text },
                RequiredColumn { name: "TickTime", kind: text },
                RequiredColumn { name: "Type", kind: text },
                RequiredColumn { name: "BuyOrderNO", kind: ColumnType::UInt64 },
                RequiredColumn { name: "SellOrderNO", kind: ColumnType::UInt64 },
                RequiredColumn { name: "Price", kind: three },
                RequiredColumn { name: "Qty", kind: ColumnType::Int64 },
                RequiredColumn { name: "TickBSFlag", kind: text },
                RequiredColumn { name: "LocalTime", kind: text },
                RequiredColumn { name: "source_row_no", kind: ColumnType::UInt64 },
            ],
            RawFeed::SzOrders => vec![
                RequiredColumn { name: "ChannelNo", kind: ColumnType::Int32 },
                RequiredColumn { name: "ApplSeqNum", kind: ColumnType::Int64 },
                RequiredColumn { name: "SecurityID", kind: text },
                RequiredColumn { name: "Price", kind: four },
                RequiredColumn { name: "OrderQty", kind: ColumnType::Int64 },
                RequiredColumn { name: "Side", kind: ColumnType::Int32 },
                RequiredColumn { name: "TransactTime", kind: text },
                RequiredColumn { name: "OrdType", kind: ColumnType::Int32 },
                RequiredColumn { name: "LocalTime", kind: text },
                RequiredColumn { name: "source_row_no", kind: ColumnType::UInt64 },
            ],
            RawFeed::SzExecutions => vec![
                RequiredColumn { name: "ChannelNo", kind: ColumnType::Int32 },
                RequiredColumn { name: "ApplSeqNum", kind: ColumnType::Int64 },
                RequiredColumn { name: "BidApplSeqNum", kind: ColumnType::Int64 },
                RequiredColumn { name: "OfferApplSeqNum", kind: ColumnType::Int64 },
                RequiredColumn { name: "SecurityID", kind: text },
                RequiredColumn { name: "LastPx", kind: four },
                RequiredColumn { name: "LastQty", kind: ColumnType::Int64 },
                RequiredColumn { name: "ExecType", kind: ColumnType::Int32 },
                RequiredColumn { name: "TransactTime", kind: text },
                RequiredColumn { name: "LocalTime", kind: text },
                RequiredColumn { name: "source_row_no", kind: ColumnType::UInt64 },
            ],
        };
        assert(required_views(r@) =~= self.spec_columns());
        r
    }
}

/// The place of the first column of a name.
pub open spec fn column_place(columns: Seq<ColumnModel>, name: Seq<char>) -> Option<int>
    decreases columns.len(),
{
    if columns.len() == 0 {
        None
    } else {
        match column_place(columns.drop_last(), name) {
            Some(place) => Some(place),
            None => if columns.last().name == name {
                Some(columns.len() - 1)
            } else {
                None
            },
        }
    }
}

/// A place is within the columns, and holds the name.
pub(crate) proof fn lemma_column_place(columns: Seq<ColumnModel>, name: Seq<char>)
    ensures
        column_place(columns, name) matches Some(place) ==> 0 <= place < columns.len()
            && columns[place].name == name,
    decreases columns.len(),
{
    if columns.len() > 0 {
        lemma_column_place(columns.drop_last(), name);
    }
}

/// The place of the first column of a name.
pub fn find_column(columns: &Vec<Column>, name: &str) -> (r: Option<usize>)
    ensures
        match column_place(column_views(columns@), name@) {
            Some(place) => r is Some && r->0 == place && place < columns@.len()
                && columns@[place].name@ == name@,
            None => r is None,
        },
{
    let ghost all = column_views(columns@);
    let mut at: usize = 0;
    proof {
        assert(all.take(0) =~= Seq::<ColumnModel>::empty());
        lemma_column_place(all, name@);
    }
    while at < columns.len()
        invariant
            all == column_views(columns@),
            at <= columns@.len(),
            column_place(all.take(at as int), name@) is None,
            column_place(all, name@) matches Some(place) ==> 0 <= place < all.len()
                && all[place].name == name@,
        decreases columns@.len() - at,
    {
        proof {
            assert(all.take(at + 1).drop_last() =~= all.take(at as int));
            assert(all.take(at + 1).last() == columns@[at as int]@);
        }
        if same_text(columns[at].name.as_str(), name) {
            proof {
                lemma_place_stays(all, name@, at + 1);
            }
            return Some(at);
        }
        at = at + 1;
    }
    assert(all.take(at as int) =~= all);
    None
}

/// A place that was found stays, whatever columns follow.
proof fn lemma_place_stays(columns: Seq<ColumnModel>, name: Seq<char>, count: int)
    requires
        0 <= count <= columns.len(),
        column_place(columns.take(count), name) is Some,
    ensures
        column_place(columns, name) == column_place(columns.take(count), name),
    decreases columns.len(),
{
    if count == columns.len() {
        assert(columns.take(count) =~= columns);
    } else {
        let shorter = columns.drop_last();
        assert(shorter.take(count) =~= columns.take(count));
        lemma_place_stays(shorter, name, count);
    }
}

/// What is wrong with the columns of a file, if anything: the first required column that is
/// missing or has another type.
pub open spec fn columns_error(
    columns: Seq<ColumnModel>,
    required: Seq<(Seq<char>, ColumnType)>,
) -> Option<Seq<char>>
    decreases required.len(),
{
    if required.len() == 0 {
        None
    } else {
        let (name, kind) = required[0];
        match column_place(columns, name) {
            None => Some("missing field "@ + name),
            Some(place) => if columns[place].kind != kind {
                Some(
                    "field "@ + name + " has type "@ + columns[place].kind_name + ", expected "@
                        + kind.name(),
                )
            } else {
                columns_error(columns, required.drop_first())
            },
        }
    }
}

/// The places of required columns, or that the first of them that is missing is missing. Types
/// do not matter yet: a file without rows may have any.
pub open spec fn places_result(
    columns: Seq<ColumnModel>,
    required: Seq<(Seq<char>, ColumnType)>,
) -> Result<Seq<int>, Seq<char>>
    decreases required.len(),
{
    if required.len() == 0 {
        Ok(Seq::empty())
    } else {
        match places_result(columns, required.drop_last()) {
            Err(detail) => Err(detail),
            Ok(places) => match column_place(columns, required.last().0) {
                None => Err("missing field "@ + required.last().0),
                Some(place) => Ok(places.push(place)),
            },
        }
    }
}

/// Where one column is missing, no later one changes what is said.
proof fn lemma_missing_stays(
    columns: Seq<ColumnModel>,
    required: Seq<(Seq<char>, ColumnType)>,
    count: int,
)
    requires
        0 <= count <= required.len(),
        places_result(columns, required.take(count)) is Err,
    ensures
        places_result(columns, required) == places_result(columns, required.take(count)),
    decreases required.len(),
{
    if count < required.len() {
        let shorter = required.drop_last();
        assert(shorter.take(count) =~= required.take(count));
        lemma_missing_stays(columns, shorter, count);
    } else {
        assert(required.take(count) =~= required);
    }
}

/// Finds the required columns of a file.
pub fn column_places(columns: &Vec<Column>, required: &Vec<RequiredColumn>) -> (r: Result<
    Vec<usize>,
    String,
>)
    ensures
        match places_result(column_views(columns@), required_views(required@)) {
            Ok(places) => r is Ok && r->Ok_0@.map_values(|place: usize| place as int) == places,
            Err(detail) => r is Err && r->Err_0@ == detail,
        },
{
    let ghost all = column_views(columns@);
    let ghost wanted = required_views(required@);
    let mut places: Vec<usize> = Vec::new();
    let mut at: usize = 0;
    proof {
        assert(wanted.take(0) =~= Seq::empty());
        assert(places@.map_values(|place: usize| place as int) =~= Seq::empty());
    }
    while at < required.len()
        invariant
            all == column_views(columns@),
            wanted == required_views(required@),
            at <= required@.len(),
            places_result(all, wanted.take(at as int)) == Ok::<Seq<int>, Seq<char>>(
                places@.map_values(|place: usize| place as int),
            ),
        decreases required@.len() - at,
    {
        let column = required[at];
        let ghost before = places@;
        proof {
            assert(wanted.take(at + 1).drop_last() =~= wanted.take(at as int));
            assert(wanted.take(at + 1).last() == column@);
        }
        match find_column(columns, column.name) {
            None => {
                let mut detail = String::from_str("missing field ");
                detail.append(column.name);
                proof {
                    lemma_missing_stays(all, wanted, at + 1);
                }
                return Err(detail);
            },
            Some(place) => {
                places.push(place);
                assert(places@.map_values(|place: usize| place as int) =~= before.map_values(
                    |place: usize| place as int,
                ).push(place as int));
            },
        }
        at = at + 1;
    }
    assert(wanted.take(at as int) =~= wanted);
    Ok(places)
}

/// What is wrong with the columns of a file, if anything.
pub fn check_columns(columns: &Vec<Column>, required: &Vec<RequiredColumn>) -> (r: Option<String>)
    ensures
        match columns_error(column_views(columns@), required_views(required@)) {
            Some(detail) => r is Some && r->0@ == detail,
            None => r is None,
        },
{
    let ghost all = column_views(columns@);
    let ghost wanted = required_views(required@);
    let mut at: usize = 0;
    assert(wanted.skip(0) =~= wanted);
    while at < required.len()
        invariant
            all == column_views(columns@),
            wanted == required_views(required@),
            at <= required@.len(),
            columns_error(all, wanted) == columns_error(all, wanted.skip(at as int)),
        decreases required@.len() - at,
    {
        let column = required[at];
        proof {
            assert(wanted.skip(at as int)[0] == column@);
            assert(wanted.skip(at as int).drop_first() =~= wanted.skip(at + 1));
        }
        match find_column(columns, column.name) {
            None => {
                let mut detail = String::from_str("missing field ");
                detail.append(column.name);
                return Some(detail);
            },
            Some(place) => {
                assert(all[place as int] == columns@[place as int]@);
                if columns[place].kind != column.kind {
                    let mut detail = String::from_str("field ");
                    detail.append(column.name);
                    detail.append(" has type ");
                    detail.append(columns[place].kind_name.as_str());
                    detail.append(", expected ");
                    detail.append(column.kind.text().as_str());
                    return Some(detail);
                }
            },
        }
        at = at + 1;
    }
    None
}

/// The value of a key of a file's footer: the last one that was written.
pub open spec fn footer_value(entries: Seq<(String, String)>, key: Seq<char>) -> Option<Seq<char>>
    decreases entries.len(),
{
    if entries.len() == 0 {
        None
    } else if entries.last().0@ == key {
        Some(entries.last().1@)
    } else {
        footer_value(entries.drop_last(), key)
    }
}

fn find_footer<'a>(entries: &'a Vec<(String, String)>, key: &str) -> (r: Option<&'a String>)
    ensures
        match footer_value(entries@, key@) {
            Some(value) => r is Some && r->0@ == value,
            None => r is None,
        },
{
    let mut at: usize = entries.len();
    assert(entries@.take(at as int) =~= entries@);
    while at > 0
        invariant
            at <= entries@.len(),
            footer_value(entries@, key@) == footer_value(entries@.take(at as int), key@),
        decreases at,
    {
        proof {
            let front = entries@.take(at as int);
            assert(front.drop_last() =~= entries@.take(at - 1));
            assert(front.last() == entries@[at - 1]);
        }
        at = at - 1;
        if same_text(entries[at].0.as_str(), key) {
            return Some(&entries[at].1);
        }
    }
    None
}

/// What is wrong with one entry of a footer.
pub open spec fn entry_error(
    entries: Seq<(String, String)>,
    key: Seq<char>,
    expected: Seq<char>,
) -> Option<Seq<char>> {
    if footer_value(entries, key) == Some(expected) {
        None
    } else {
        Some("footer "@ + key + " must equal "@ + quoted_text(expected))
    }
}

pub open spec fn presence_error(entries: Seq<(String, String)>, key: Seq<char>) -> Option<
    Seq<char>,
> {
    if footer_value(entries, key) is Some && footer_value(entries, key)->0.len() > 0 {
        None
    } else {
        Some("footer "@ + key + " is missing"@)
    }
}

pub open spec fn first_error(first: Option<Seq<char>>, second: Option<Seq<char>>) -> Option<
    Seq<char>,
> {
    if first is Some {
        first
    } else {
        second
    }
}

/// What is wrong with the footer of a file, if anything.
pub open spec fn footer_error(
    entries: Seq<(String, String)>,
    market: Seq<char>,
    feed: Seq<char>,
) -> Option<Seq<char>> {
    first_error(
        entry_error(entries, "clara.raw.market"@, market),
        first_error(
            entry_error(entries, "clara.raw.feed"@, feed),
            first_error(
                entry_error(entries, "clara.raw.document_version"@, "4.1"@),
                first_error(
                    entry_error(entries, "clara.raw.format_version"@, "2"@),
                    first_error(
                        presence_error(entries, "clara.raw.schema_hash"@),
                        presence_error(entries, "clara.raw.schema_id"@),
                    ),
                ),
            ),
        ),
    )
}

fn check_entry(entries: &Vec<(String, String)>, key: &str, expected: &str) -> (r: Option<String>)
    ensures
        match entry_error(entries@, key@, expected@) {
            Some(detail) => r is Some && r->0@ == detail,
            None => r is None,
        },
{
    if let Some(value) = find_footer(entries, key) {
        if same_text(value.as_str(), expected) {
            return None;
        }
    }
    let mut detail = String::from_str("footer ");
    detail.append(key);
    detail.append(" must equal ");
    detail.append(quoted(expected).as_str());
    Some(detail)
}

fn check_presence(entries: &Vec<(String, String)>, key: &str) -> (r: Option<String>)
    ensures
        match presence_error(entries@, key@) {
            Some(detail) => r is Some && r->0@ == detail,
            None => r is None,
        },
{
    if let Some(value) = find_footer(entries, key) {
        if value.as_str().unicode_len() > 0 {
            return None;
        }
    }
    let mut detail = String::from_str("footer ");
    detail.append(key);
    detail.append(" is missing");
    Some(detail)
}

/// What is wrong with the footer of a file, if anything.
pub fn check_footer(entries: &Vec<(String, String)>, market: &str, feed: &str) -> (r: Option<String>)
    ensures
        match footer_error(entries@, market@, feed@) {
            Some(detail) => r is Some && r->0@ == detail,
            None => r is None,
        },
{
    if let Some(detail) = check_entry(entries, "clara.raw.market", market) {
        return Some(detail);
    }
    if let Some(detail) = check_entry(entries, "clara.raw.feed", feed) {
        return Some(detail);
    }
    if let Some(detail) = check_entry(entries, "clara.raw.document_version", "4.1") {
        return Some(detail);
    }
    if let Some(detail) = check_entry(entries, "clara.raw.format_version", "2") {
        return Some(detail);
    }
    if let Some(detail) = check_presence(entries, "clara.raw.schema_hash") {
        return Some(detail);
    }
    check_presence(entries, "clara.raw.schema_id")
}

} // verus!
