//! Where a reconstructed book differs from a reference, field by field.

use vstd::prelude::*;
use vstd::string::StringExecFns;

use crate::market_data::Market;
use crate::text::{i64_text, int_text, nat_text, u128_text, u64_text};

use super::super::snapshot::{SnapshotBookModel, SnapshotBookView, SnapshotLevel, SnapshotLevels};
use super::reference::ReferenceBookView;
use super::rules::{
    price_quantum, quantizable, quantize_validation_price, quantized_price,
    validation_price_quantum,
};

verus! {

/// A field that differs, as texts.
#[derive(Debug, PartialEq, Eq)]
pub struct FieldDifference {
    pub field: String,
    pub expected: String,
    pub actual: String,
}

/// A field that differs, as sequences of characters.
pub struct DifferenceModel {
    pub field: Seq<char>,
    pub expected: Seq<char>,
    pub actual: Seq<char>,
}

impl View for FieldDifference {
    type V = DifferenceModel;

    open spec fn view(&self) -> DifferenceModel {
        DifferenceModel { field: self.field@, expected: self.expected@, actual: self.actual@ }
    }
}

impl Clone for FieldDifference {
    fn clone(&self) -> (r: Self)
        ensures
            r@ == self@,
    {
        FieldDifference {
            field: self.field.clone(),
            expected: self.expected.clone(),
            actual: self.actual.clone(),
        }
    }
}

/// Differences as sequences of characters.
pub open spec fn difference_views(differences: Seq<FieldDifference>) -> Seq<DifferenceModel> {
    differences.map_values(|difference: FieldDifference| difference@)
}

/// A price that may be missing, as a text.
pub open spec fn optional_text(value: Option<i64>) -> Seq<char> {
    match value {
        Some(value) => "Some("@ + int_text(value as int) + ")"@,
        None => "None"@,
    }
}

pub(crate) fn optional_string(value: Option<i64>) -> (r: String)
    ensures
        r@ == optional_text(value),
{
    match value {
        Some(value) => {
            let mut r = String::from_str("Some(");
            r.append(i64_text(value).as_str());
            r.append(")");
            r
        },
        None => String::from_str("None"),
    }
}

/// A level as a text.
pub open spec fn level_text(level: SnapshotLevel) -> Seq<char> {
    "SnapshotLevel { price_units: "@ + int_text(level.price_units as int) + ", quantity: "@
        + nat_text(level.quantity as nat) + ", order_count: "@ + nat_text(level.order_count as nat)
        + " }"@
}

/// Levels as a text, without the brackets around them.
pub open spec fn level_list_text(levels: Seq<SnapshotLevel>) -> Seq<char>
    decreases levels.len(),
{
    if levels.len() == 0 {
        Seq::empty()
    } else if levels.len() == 1 {
        level_text(levels[0])
    } else {
        level_list_text(levels.drop_last()) + ", "@ + level_text(levels.last())
    }
}

pub open spec fn levels_text(levels: Seq<SnapshotLevel>) -> Seq<char> {
    "["@ + level_list_text(levels) + "]"@
}

fn levels_string(levels: &SnapshotLevels) -> (r: String)
    ensures
        r@ == levels_text(levels@),
{
    let items = levels.as_slice();
    let mut r = String::from_str("[");
    let mut at: usize = 0;
    assert(r@ =~= "["@ + level_list_text(items@.take(0)));
    while at < items.len()
        invariant
            at <= items@.len(),
            r@ == "["@ + level_list_text(items@.take(at as int)),
        decreases items@.len() - at,
    {
        let level = items[at];
        let ghost before = level_list_text(items@.take(at as int));
        if at > 0 {
            r.append(", ");
        }
        r.append("SnapshotLevel { price_units: ");
        r.append(i64_text(level.price_units).as_str());
        r.append(", quantity: ");
        r.append(u64_text(level.quantity).as_str());
        r.append(", order_count: ");
        r.append(u64_text(level.order_count).as_str());
        r.append(" }");
        proof {
            let list = items@.take(at + 1);
            assert(list.drop_last() =~= items@.take(at as int));
            assert(list.last() == level);
            if at == 0 {
                assert(r@ =~= "["@ + level_text(level));
            } else {
                assert(r@ =~= "["@ + (before + ", "@ + level_text(level)));
            }
        }
        at = at + 1;
    }
    assert(items@.take(at as int) =~= items@);
    r.append("]");
    r
}

/// One internal price unit is CNY 0.0001, so ten units are CNY 0.001.
pub const WEIGHTED_PRICE_TOLERANCE_UNITS: u64 = 10;

/// Whether average prices agree: both are missing, or both are there and close.
pub open spec fn weighted_match(expected: Option<i64>, actual: Option<i64>) -> bool {
    match (expected, actual) {
        (None, None) => true,
        (Some(expected), Some(actual)) => -WEIGHTED_PRICE_TOLERANCE_UNITS <= expected - actual
            <= WEIGHTED_PRICE_TOLERANCE_UNITS,
        _ => false,
    }
}

pub fn weighted_prices_match(expected: Option<i64>, actual: Option<i64>) -> (r: bool)
    ensures
        r == weighted_match(expected, actual),
{
    match (expected, actual) {
        (None, None) => true,
        (Some(expected), Some(actual)) => {
            let distance: i128 = expected as i128 - actual as i128;
            -10 <= distance && distance <= 10
        },
        _ => false,
    }
}

pub open spec fn tolerance_text(expected: Option<i64>) -> Seq<char> {
    optional_text(expected) + " (absolute tolerance: "@ + nat_text(
        WEIGHTED_PRICE_TOLERANCE_UNITS as nat,
    ) + " units / CNY 0.001)"@
}

/// Which fields differ.
#[derive(Clone, Copy, Debug, PartialEq, Eq, Structural)]
pub struct DifferenceMask {
    pub bids: bool,
    pub asks: bool,
    pub total_bid_quantity: bool,
    pub weighted_bid_price: bool,
    pub total_ask_quantity: bool,
    pub weighted_ask_price: bool,
    pub last_price: bool,
    pub high_price: bool,
    pub low_price: bool,
    pub trade_count: bool,
    pub trade_quantity: bool,
    pub turnover: bool,
}

/// A count with one field more, where it differs.
#[verifier::opaque]
pub open spec fn counted_flag(count: int, set: bool) -> int {
    if set {
        count + 1
    } else {
        count
    }
}

fn count_flag(count: u8, set: bool) -> (r: u8)
    requires
        count < 255,
    ensures
        r == counted_flag(count as int, set),
        r <= count + 1,
{
    reveal(counted_flag);
    if set {
        count + 1
    } else {
        count
    }
}

impl DifferenceMask {
    pub open spec fn none() -> Self {
        DifferenceMask {
            bids: false,
            asks: false,
            total_bid_quantity: false,
            weighted_bid_price: false,
            total_ask_quantity: false,
            weighted_ask_price: false,
            last_price: false,
            high_price: false,
            low_price: false,
            trade_count: false,
            trade_quantity: false,
            turnover: false,
        }
    }

    /// The fields besides the levels in which a book differs from a reference.
    pub open spec fn of_scalars(
        quantum: i64,
        expected: SnapshotBookModel,
        actual: SnapshotBookModel,
    ) -> Self {
        DifferenceMask {
            bids: false,
            asks: false,
            total_bid_quantity: expected.total_bid_quantity != actual.total_bid_quantity,
            weighted_bid_price: !weighted_match(
                expected.weighted_bid_price_units,
                quantized_price(quantum, actual.weighted_bid_price_units),
            ),
            total_ask_quantity: expected.total_ask_quantity != actual.total_ask_quantity,
            weighted_ask_price: !weighted_match(
                expected.weighted_ask_price_units,
                quantized_price(quantum, actual.weighted_ask_price_units),
            ),
            last_price: expected.last_price_units != actual.last_price_units,
            high_price: expected.high_price_units != actual.high_price_units,
            low_price: expected.low_price_units != actual.low_price_units,
            trade_count: expected.trade_count != actual.trade_count,
            trade_quantity: expected.trade_quantity != actual.trade_quantity,
            turnover: expected.turnover_units != actual.turnover_units,
        }
    }

    /// The sides whose levels differ from those of a reference.
    pub open spec fn of_depth(expected: SnapshotBookModel, actual: SnapshotBookModel) -> Self {
        DifferenceMask {
            bids: expected.bids != actual.bids,
            asks: expected.asks != actual.asks,
            ..Self::none()
        }
    }

    /// The fields in which a book differs from a reference.
    pub open spec fn of(
        quantum: i64,
        expected: SnapshotBookModel,
        actual: SnapshotBookModel,
    ) -> Self {
        DifferenceMask {
            bids: expected.bids != actual.bids,
            asks: expected.asks != actual.asks,
            ..Self::of_scalars(quantum, expected, actual)
        }
    }

    // Fields are counted in their order, three at a time.
    #[verifier::opaque]
    pub open spec fn first_count(self, n: int) -> int {
        counted_flag(counted_flag(counted_flag(n, self.bids), self.asks), self.total_bid_quantity)
    }

    #[verifier::opaque]
    pub open spec fn second_count(self, n: int) -> int {
        counted_flag(
            counted_flag(counted_flag(n, self.weighted_bid_price), self.total_ask_quantity),
            self.weighted_ask_price,
        )
    }

    #[verifier::opaque]
    pub open spec fn third_count(self, n: int) -> int {
        counted_flag(
            counted_flag(counted_flag(n, self.last_price), self.high_price),
            self.low_price,
        )
    }

    #[verifier::opaque]
    pub open spec fn fourth_count(self, n: int) -> int {
        counted_flag(
            counted_flag(counted_flag(n, self.trade_count), self.trade_quantity),
            self.turnover,
        )
    }

    /// How many fields differ.
    pub open spec fn spec_count(self) -> int {
        self.fourth_count(self.third_count(self.second_count(self.first_count(0))))
    }

    /// The mask where a turnover that agrees to twelve digits does not count.
    pub open spec fn tolerating_turnover(self, tolerate: bool) -> Self {
        DifferenceMask { turnover: self.turnover && !tolerate, ..self }
    }

    #[must_use]
    pub fn empty() -> (r: Self)
        ensures
            r == Self::none(),
    {
        DifferenceMask {
            bids: false,
            asks: false,
            total_bid_quantity: false,
            weighted_bid_price: false,
            total_ask_quantity: false,
            weighted_ask_price: false,
            last_price: false,
            high_price: false,
            low_price: false,
            trade_count: false,
            trade_quantity: false,
            turnover: false,
        }
    }

    fn count_first(self, n: u8) -> (r: u8)
        requires
            n <= 9,
        ensures
            r == self.first_count(n as int),
            r <= n + 3,
    {
        reveal(DifferenceMask::first_count);
        let n: u8 = count_flag(n, self.bids);
        let n: u8 = count_flag(n, self.asks);
        count_flag(n, self.total_bid_quantity)
    }

    fn count_second(self, n: u8) -> (r: u8)
        requires
            n <= 9,
        ensures
            r == self.second_count(n as int),
            r <= n + 3,
    {
        reveal(DifferenceMask::second_count);
        let n: u8 = count_flag(n, self.weighted_bid_price);
        let n: u8 = count_flag(n, self.total_ask_quantity);
        count_flag(n, self.weighted_ask_price)
    }

    fn count_third(self, n: u8) -> (r: u8)
        requires
            n <= 9,
        ensures
            r == self.third_count(n as int),
            r <= n + 3,
    {
        reveal(DifferenceMask::third_count);
        let n: u8 = count_flag(n, self.last_price);
        let n: u8 = count_flag(n, self.high_price);
        count_flag(n, self.low_price)
    }

    fn count_fourth(self, n: u8) -> (r: u8)
        requires
            n <= 9,
        ensures
            r == self.fourth_count(n as int),
            r <= n + 3,
    {
        reveal(DifferenceMask::fourth_count);
        let n: u8 = count_flag(n, self.trade_count);
        let n: u8 = count_flag(n, self.trade_quantity);
        count_flag(n, self.turnover)
    }

    /// How many fields differ.
    #[must_use]
    pub fn count(self) -> (r: usize)
        ensures
            r == self.spec_count(),
            r <= 12,
    {
        let n: u8 = self.count_first(0);
        let n: u8 = self.count_second(n);
        let n: u8 = self.count_third(n);
        self.count_fourth(n) as usize
    }

    /// What is named by a mask of scalars or by one of levels.
    #[must_use]
    pub fn with_depth(self, depth: DifferenceMask) -> (r: Self)
        ensures
            r == (DifferenceMask { bids: depth.bids, asks: depth.asks, ..self }),
    {
        let mut mask = self;
        mask.bids = depth.bids;
        mask.asks = depth.asks;
        mask
    }

    /// The mask without the turnover, where that is tolerated.
    #[must_use]
    pub fn tolerating(self, tolerate: bool) -> (r: Self)
        ensures
            r == self.tolerating_turnover(tolerate),
    {
        let mut mask = self;
        if tolerate {
            mask.turnover = false;
        }
        mask
    }

    #[must_use]
    pub fn is_empty(self) -> (r: bool)
        ensures
            r == (self == Self::none()),
    {
        !self.bids && !self.asks && !self.total_bid_quantity && !self.weighted_bid_price
            && !self.total_ask_quantity && !self.weighted_ask_price && !self.last_price
            && !self.high_price && !self.low_price && !self.trade_count && !self.trade_quantity
            && !self.turnover
    }

    /// Whether nothing but the last price differs.
    #[must_use]
    pub fn is_only_last_price(self) -> (r: bool)
        ensures
            r == (self == (DifferenceMask { last_price: true, ..Self::none() })),
    {
        let others = DifferenceMask {
            bids: self.bids,
            asks: self.asks,
            total_bid_quantity: self.total_bid_quantity,
            weighted_bid_price: self.weighted_bid_price,
            total_ask_quantity: self.total_ask_quantity,
            weighted_ask_price: self.weighted_ask_price,
            last_price: false,
            high_price: self.high_price,
            low_price: self.low_price,
            trade_count: self.trade_count,
            trade_quantity: self.trade_quantity,
            turnover: self.turnover,
        };
        self.last_price && others.is_empty()
    }
}

/// The fields besides the levels in which a book differs from a compact reference.
pub fn compare_reference_scalars(
    quantum: i64,
    expected: &ReferenceBookView,
    actual: &SnapshotBookView,
) -> (r: DifferenceMask)
    requires
        0 < quantum,
        quantizable(quantum, actual.weighted_bid_price_units),
        quantizable(quantum, actual.weighted_ask_price_units),
    ensures
        r == DifferenceMask::of_scalars(quantum, expected@, actual@),
{
    DifferenceMask {
        bids: false,
        asks: false,
        total_bid_quantity: expected.total_bid_quantity != actual.total_bid_quantity,
        weighted_bid_price: !weighted_prices_match(
            expected.weighted_bid_price_units,
            quantize_validation_price(quantum, actual.weighted_bid_price_units),
        ),
        total_ask_quantity: expected.total_ask_quantity != actual.total_ask_quantity,
        weighted_ask_price: !weighted_prices_match(
            expected.weighted_ask_price_units,
            quantize_validation_price(quantum, actual.weighted_ask_price_units),
        ),
        last_price: expected.last_price_units != actual.last_price_units,
        high_price: expected.high_price_units != actual.high_price_units,
        low_price: expected.low_price_units != actual.low_price_units,
        trade_count: expected.trade_count != actual.trade_count,
        trade_quantity: expected.trade_quantity != actual.trade_quantity,
        turnover: expected.turnover_units != actual.turnover_units,
    }
}

impl ReferenceBookView {
    /// Which sides' levels differ.
    pub fn depth_differences(&self, actual: &SnapshotBookView) -> (r: DifferenceMask)
        ensures
            r == DifferenceMask::of_depth(self@, actual@),
    {
        let mut mask = DifferenceMask::empty();
        mask.bids = self.bids.differs(&actual.bids);
        mask.asks = self.asks.differs(&actual.asks);
        mask
    }
}

/// Whether levels are others than these.
fn levels_differ(expected: &SnapshotLevels, actual: &SnapshotLevels) -> (r: bool)
    ensures
        r == (expected@ != actual@),
{
    let left = expected.as_slice();
    let right = actual.as_slice();
    if left.len() != right.len() {
        return true;
    }
    let mut at: usize = 0;
    while at < left.len()
        invariant
            left@ == expected@,
            right@ == actual@,
            left@.len() == right@.len(),
            at <= left@.len(),
            forall|i: int| 0 <= i < at ==> #[trigger] left@[i] == right@[i],
        decreases left@.len() - at,
    {
        if left[at] != right[at] {
            assert(expected@[at as int] != actual@[at as int]);
            return true;
        }
        at = at + 1;
    }
    assert(expected@ =~= actual@);
    false
}

/// The fields in which a book differs from a reference.
pub fn compare_view_mask(
    market: Market,
    symbol: &str,
    expected: &SnapshotBookView,
    actual: &SnapshotBookView,
) -> (r: DifferenceMask)
    requires
        quantizable(price_quantum(market, symbol@), actual.weighted_bid_price_units),
        quantizable(price_quantum(market, symbol@), actual.weighted_ask_price_units),
    ensures
        r == DifferenceMask::of(price_quantum(market, symbol@), expected@, actual@),
{
    let quantum: i64 = validation_price_quantum(market, symbol);
    DifferenceMask {
        bids: levels_differ(&expected.bids, &actual.bids),
        asks: levels_differ(&expected.asks, &actual.asks),
        total_bid_quantity: expected.total_bid_quantity != actual.total_bid_quantity,
        weighted_bid_price: !weighted_prices_match(
            expected.weighted_bid_price_units,
            quantize_validation_price(quantum, actual.weighted_bid_price_units),
        ),
        total_ask_quantity: expected.total_ask_quantity != actual.total_ask_quantity,
        weighted_ask_price: !weighted_prices_match(
            expected.weighted_ask_price_units,
            quantize_validation_price(quantum, actual.weighted_ask_price_units),
        ),
        last_price: expected.last_price_units != actual.last_price_units,
        high_price: expected.high_price_units != actual.high_price_units,
        low_price: expected.low_price_units != actual.low_price_units,
        trade_count: expected.trade_count != actual.trade_count,
        trade_quantity: expected.trade_quantity != actual.trade_quantity,
        turnover: expected.turnover_units != actual.turnover_units,
    }
}

/// Differences with one field more, where it differs.
#[verifier::opaque]
pub open spec fn noted(
    differences: Seq<DifferenceModel>,
    differs: bool,
    field: Seq<char>,
    expected: Seq<char>,
    actual: Seq<char>,
) -> Seq<DifferenceModel> {
    if differs {
        differences.push(DifferenceModel { field, expected, actual })
    } else {
        differences
    }
}

/// The texts of the fields that a mask names.
pub open spec fn listed(
    mask: DifferenceMask,
    quantum: i64,
    e: SnapshotBookModel,
    a: SnapshotBookModel,
) -> Seq<DifferenceModel> {
    let d = Seq::<DifferenceModel>::empty();
    let d = noted(d, mask.bids, "bids"@, levels_text(e.bids), levels_text(a.bids));
    let d = noted(d, mask.asks, "asks"@, levels_text(e.asks), levels_text(a.asks));
    let d = noted(
        d,
        mask.total_bid_quantity,
        "total_bid_quantity"@,
        nat_text(e.total_bid_quantity as nat),
        nat_text(a.total_bid_quantity as nat),
    );
    let d = noted(
        d,
        mask.weighted_bid_price,
        "weighted_bid_price_units"@,
        tolerance_text(e.weighted_bid_price_units),
        optional_text(quantized_price(quantum, a.weighted_bid_price_units)),
    );
    let d = noted(
        d,
        mask.total_ask_quantity,
        "total_ask_quantity"@,
        nat_text(e.total_ask_quantity as nat),
        nat_text(a.total_ask_quantity as nat),
    );
    let d = noted(
        d,
        mask.weighted_ask_price,
        "weighted_ask_price_units"@,
        tolerance_text(e.weighted_ask_price_units),
        optional_text(quantized_price(quantum, a.weighted_ask_price_units)),
    );
    let d = noted(
        d,
        mask.last_price,
        "last_price_units"@,
        optional_text(e.last_price_units),
        optional_text(a.last_price_units),
    );
    let d = noted(
        d,
        mask.high_price,
        "high_price_units"@,
        optional_text(e.high_price_units),
        optional_text(a.high_price_units),
    );
    let d = noted(
        d,
        mask.low_price,
        "low_price_units"@,
        optional_text(e.low_price_units),
        optional_text(a.low_price_units),
    );
    let d = noted(
        d,
        mask.trade_count,
        "trade_count"@,
        nat_text(e.trade_count as nat),
        nat_text(a.trade_count as nat),
    );
    let d = noted(
        d,
        mask.trade_quantity,
        "trade_quantity"@,
        nat_text(e.trade_quantity as nat),
        nat_text(a.trade_quantity as nat),
    );
    noted(
        d,
        mask.turnover,
        "turnover_units"@,
        nat_text(e.turnover_units as nat),
        nat_text(a.turnover_units as nat),
    )
}

proof fn lemma_noted_len(
    differences: Seq<DifferenceModel>,
    differs: bool,
    field: Seq<char>,
    expected: Seq<char>,
    actual: Seq<char>,
)
    ensures
        noted(differences, differs, field, expected, actual).len() == counted_flag(
            differences.len() as int,
            differs,
        ),
{
    reveal(noted);
    reveal(counted_flag);
}

/// As many differences are listed as the mask counts.
pub proof fn masks_count_their_differences(
    mask: DifferenceMask,
    quantum: i64,
    expected: SnapshotBookModel,
    actual: SnapshotBookModel,
)
    ensures
        listed(mask, quantum, expected, actual).len() == mask.spec_count(),
{
    let e = expected;
    let a = actual;
    reveal(DifferenceMask::first_count);
    reveal(DifferenceMask::second_count);
    reveal(DifferenceMask::third_count);
    reveal(DifferenceMask::fourth_count);
    let d = Seq::<DifferenceModel>::empty();
    lemma_noted_len(d, mask.bids, "bids"@, levels_text(e.bids), levels_text(a.bids));
    let d = noted(d, mask.bids, "bids"@, levels_text(e.bids), levels_text(a.bids));
    lemma_noted_len(d, mask.asks, "asks"@, levels_text(e.asks), levels_text(a.asks));
    let d = noted(d, mask.asks, "asks"@, levels_text(e.asks), levels_text(a.asks));
    lemma_noted_len(
        d,
        mask.total_bid_quantity,
        "total_bid_quantity"@,
        nat_text(e.total_bid_quantity as nat),
        nat_text(a.total_bid_quantity as nat),
    );
    let d = noted(
        d,
        mask.total_bid_quantity,
        "total_bid_quantity"@,
        nat_text(e.total_bid_quantity as nat),
        nat_text(a.total_bid_quantity as nat),
    );
    lemma_noted_len(
        d,
        mask.weighted_bid_price,
        "weighted_bid_price_units"@,
        tolerance_text(e.weighted_bid_price_units),
        optional_text(quantized_price(quantum, a.weighted_bid_price_units)),
    );
    let d = noted(
        d,
        mask.weighted_bid_price,
        "weighted_bid_price_units"@,
        tolerance_text(e.weighted_bid_price_units),
        optional_text(quantized_price(quantum, a.weighted_bid_price_units)),
    );
    lemma_noted_len(
        d,
        mask.total_ask_quantity,
        "total_ask_quantity"@,
        nat_text(e.total_ask_quantity as nat),
        nat_text(a.total_ask_quantity as nat),
    );
    let d = noted(
        d,
        mask.total_ask_quantity,
        "total_ask_quantity"@,
        nat_text(e.total_ask_quantity as nat),
        nat_text(a.total_ask_quantity as nat),
    );
    lemma_noted_len(
        d,
        mask.weighted_ask_price,
        "weighted_ask_price_units"@,
        tolerance_text(e.weighted_ask_price_units),
        optional_text(quantized_price(quantum, a.weighted_ask_price_units)),
    );
    let d = noted(
        d,
        mask.weighted_ask_price,
        "weighted_ask_price_units"@,
        tolerance_text(e.weighted_ask_price_units),
        optional_text(quantized_price(quantum, a.weighted_ask_price_units)),
    );
    lemma_noted_len(
        d,
        mask.last_price,
        "last_price_units"@,
        optional_text(e.last_price_units),
        optional_text(a.last_price_units),
    );
    let d = noted(
        d,
        mask.last_price,
        "last_price_units"@,
        optional_text(e.last_price_units),
        optional_text(a.last_price_units),
    );
    lemma_noted_len(
        d,
        mask.high_price,
        "high_price_units"@,
        optional_text(e.high_price_units),
        optional_text(a.high_price_units),
    );
    let d = noted(
        d,
        mask.high_price,
        "high_price_units"@,
        optional_text(e.high_price_units),
        optional_text(a.high_price_units),
    );
    lemma_noted_len(
        d,
        mask.low_price,
        "low_price_units"@,
        optional_text(e.low_price_units),
        optional_text(a.low_price_units),
    );
    let d = noted(
        d,
        mask.low_price,
        "low_price_units"@,
        optional_text(e.low_price_units),
        optional_text(a.low_price_units),
    );
    lemma_noted_len(
        d,
        mask.trade_count,
        "trade_count"@,
        nat_text(e.trade_count as nat),
        nat_text(a.trade_count as nat),
    );
    let d = noted(
        d,
        mask.trade_count,
        "trade_count"@,
        nat_text(e.trade_count as nat),
        nat_text(a.trade_count as nat),
    );
    lemma_noted_len(
        d,
        mask.trade_quantity,
        "trade_quantity"@,
        nat_text(e.trade_quantity as nat),
        nat_text(a.trade_quantity as nat),
    );
    let d = noted(
        d,
        mask.trade_quantity,
        "trade_quantity"@,
        nat_text(e.trade_quantity as nat),
        nat_text(a.trade_quantity as nat),
    );
    lemma_noted_len(
        d,
        mask.turnover,
        "turnover_units"@,
        nat_text(e.turnover_units as nat),
        nat_text(a.turnover_units as nat),
    );
    let d = noted(
        d,
        mask.turnover,
        "turnover_units"@,
        nat_text(e.turnover_units as nat),
        nat_text(a.turnover_units as nat),
    );
}

/// More levels that differ are not fewer differences.
pub(crate) proof fn lemma_depth_adds(scalars: DifferenceMask, full: DifferenceMask)
    requires
        full == (DifferenceMask { bids: full.bids, asks: full.asks, ..scalars }),
        !scalars.bids,
        !scalars.asks,
    ensures
        scalars.spec_count() <= full.spec_count(),
{
    let a1 = scalars.first_count(0);
    let b1 = full.first_count(0);
    assert(a1 <= b1) by {
        reveal(counted_flag);
        reveal(DifferenceMask::first_count);
    }
    let a2 = scalars.second_count(a1);
    let b2 = full.second_count(b1);
    assert(a2 <= b2) by {
        reveal(DifferenceMask::second_count);
        lemma_flags_grow(
            a1,
            b1,
            full.weighted_bid_price,
            full.total_ask_quantity,
            full.weighted_ask_price,
        );
    }
    let a3 = scalars.third_count(a2);
    let b3 = full.third_count(b2);
    assert(a3 <= b3) by {
        reveal(DifferenceMask::third_count);
        lemma_flags_grow(a2, b2, full.last_price, full.high_price, full.low_price);
    }
    assert(scalars.fourth_count(a3) <= full.fourth_count(b3)) by {
        reveal(DifferenceMask::fourth_count);
        lemma_flags_grow(a3, b3, full.trade_count, full.trade_quantity, full.turnover);
    }
}

proof fn lemma_flags_grow(a: int, b: int, x: bool, y: bool, z: bool)
    requires
        a <= b,
    ensures
        counted_flag(counted_flag(counted_flag(a, x), y), z) <= counted_flag(
            counted_flag(counted_flag(b, x), y),
            z,
        ),
{
    reveal(counted_flag);
}

fn note_texts(
    differences: &mut Vec<FieldDifference>,
    field: &str,
    expected: String,
    actual: String,
)
    ensures
        difference_views(final(differences)@) == noted(
            difference_views(old(differences)@),
            true,
            field@,
            expected@,
            actual@,
        ),
{
    let ghost before = difference_views(differences@);
    differences.push(FieldDifference { field: String::from_str(field), expected, actual });
    reveal(noted);
    assert(difference_views(differences@) =~= noted(before, true, field@, expected@, actual@));
}

fn note_levels(
    differences: &mut Vec<FieldDifference>,
    differs: bool,
    field: &str,
    expected: &SnapshotLevels,
    actual: &SnapshotLevels,
)
    ensures
        difference_views(final(differences)@) == noted(
            difference_views(old(differences)@),
            differs,
            field@,
            levels_text(expected@),
            levels_text(actual@),
        ),
{
    reveal(noted);
    if differs {
        note_texts(differences, field, levels_string(expected), levels_string(actual));
    }
}

fn note_count(
    differences: &mut Vec<FieldDifference>,
    differs: bool,
    field: &str,
    expected: u128,
    actual: u128,
)
    ensures
        difference_views(final(differences)@) == noted(
            difference_views(old(differences)@),
            differs,
            field@,
            nat_text(expected as nat),
            nat_text(actual as nat),
        ),
{
    reveal(noted);
    if differs {
        note_texts(differences, field, u128_text(expected), u128_text(actual));
    }
}

fn note_price(
    differences: &mut Vec<FieldDifference>,
    differs: bool,
    field: &str,
    expected: Option<i64>,
    actual: Option<i64>,
)
    ensures
        difference_views(final(differences)@) == noted(
            difference_views(old(differences)@),
            differs,
            field@,
            optional_text(expected),
            optional_text(actual),
        ),
{
    reveal(noted);
    if differs {
        note_texts(differences, field, optional_string(expected), optional_string(actual));
    }
}

fn note_weighted_price(
    differences: &mut Vec<FieldDifference>,
    differs: bool,
    field: &str,
    expected: Option<i64>,
    actual: Option<i64>,
)
    ensures
        difference_views(final(differences)@) == noted(
            difference_views(old(differences)@),
            differs,
            field@,
            tolerance_text(expected),
            optional_text(actual),
        ),
{
    reveal(noted);
    if differs {
        let mut text = optional_string(expected);
        text.append(" (absolute tolerance: ");
        text.append(u64_text(WEIGHTED_PRICE_TOLERANCE_UNITS).as_str());
        text.append(" units / CNY 0.001)");
        note_texts(differences, field, text, optional_string(actual));
    }
}

/// The texts of the fields that a mask names.
pub fn list_differences(
    mask: DifferenceMask,
    quantum: i64,
    expected: &SnapshotBookView,
    actual: &SnapshotBookView,
) -> (r: Vec<FieldDifference>)
    requires
        0 < quantum,
        quantizable(quantum, actual.weighted_bid_price_units),
        quantizable(quantum, actual.weighted_ask_price_units),
    ensures
        difference_views(r@) == listed(mask, quantum, expected@, actual@),
        r@.len() == mask.spec_count(),
{
    let mut d: Vec<FieldDifference> = Vec::new();
    assert(difference_views(d@) =~= Seq::<DifferenceModel>::empty());
    note_levels(&mut d, mask.bids, "bids", &expected.bids, &actual.bids);
    note_levels(&mut d, mask.asks, "asks", &expected.asks, &actual.asks);
    note_count(
        &mut d,
        mask.total_bid_quantity,
        "total_bid_quantity",
        expected.total_bid_quantity as u128,
        actual.total_bid_quantity as u128,
    );
    note_weighted_price(
        &mut d,
        mask.weighted_bid_price,
        "weighted_bid_price_units",
        expected.weighted_bid_price_units,
        quantize_validation_price(quantum, actual.weighted_bid_price_units),
    );
    note_count(
        &mut d,
        mask.total_ask_quantity,
        "total_ask_quantity",
        expected.total_ask_quantity as u128,
        actual.total_ask_quantity as u128,
    );
    note_weighted_price(
        &mut d,
        mask.weighted_ask_price,
        "weighted_ask_price_units",
        expected.weighted_ask_price_units,
        quantize_validation_price(quantum, actual.weighted_ask_price_units),
    );
    note_price(
        &mut d,
        mask.last_price,
        "last_price_units",
        expected.last_price_units,
        actual.last_price_units,
    );
    note_price(
        &mut d,
        mask.high_price,
        "high_price_units",
        expected.high_price_units,
        actual.high_price_units,
    );
    note_price(
        &mut d,
        mask.low_price,
        "low_price_units",
        expected.low_price_units,
        actual.low_price_units,
    );
    note_count(
        &mut d,
        mask.trade_count,
        "trade_count",
        expected.trade_count as u128,
        actual.trade_count as u128,
    );
    note_count(
        &mut d,
        mask.trade_quantity,
        "trade_quantity",
        expected.trade_quantity as u128,
        actual.trade_quantity as u128,
    );
    note_count(
        &mut d,
        mask.turnover,
        "turnover_units",
        expected.turnover_units,
        actual.turnover_units,
    );
    proof {
        masks_count_their_differences(mask, quantum, expected@, actual@);
    }
    d
}

/// Every difference between a reference and a book.
pub fn compare_views(
    market: Market,
    symbol: &str,
    expected: &SnapshotBookView,
    actual: &SnapshotBookView,
) -> (r: Vec<FieldDifference>)
    requires
        quantizable(price_quantum(market, symbol@), actual.weighted_bid_price_units),
        quantizable(price_quantum(market, symbol@), actual.weighted_ask_price_units),
    ensures
        difference_views(r@) == listed(
            DifferenceMask::of(price_quantum(market, symbol@), expected@, actual@),
            price_quantum(market, symbol@),
            expected@,
            actual@,
        ),
{
    let mask = compare_view_mask(market, symbol, expected, actual);
    list_differences(mask, validation_price_quantum(market, symbol), expected, actual)
}

} // verus!
