//! Offline natural-run repair. Only native channel sequence is a sort key.

use vstd::prelude::*;
use vstd::string::StringExecFns;

use super::error::{ErrorModel, ProductionError};
use super::replay::SequenceRepair;

verus! {

/// How many runs are merged at once.
pub const FAN_IN: usize = 32;

/// Whether each sequence differs from the one before it.
pub open spec fn no_adjacent_repeats(sequences: Seq<u64>) -> bool {
    forall|i: int, j: int|
        0 <= i < sequences.len() - 1 && j == i + 1 ==> #[trigger] sequences[i]
            != #[trigger] sequences[j]
}

/// The places where ascending runs start: the first, and each that is below the one before.
pub open spec fn run_starts(sequences: Seq<u64>) -> Seq<int>
    decreases sequences.len(),
{
    if sequences.len() == 0 {
        Seq::empty()
    } else {
        let front = run_starts(sequences.drop_last());
        let at = sequences.len() - 1;
        if at == 0 || sequences[at] < sequences[at - 1] {
            front.push(at)
        } else {
            front
        }
    }
}

/// Whether two places have the same sequence.
pub open spec fn repeats(sequences: Seq<u64>, i: int, j: int) -> bool {
    0 <= i < j < sequences.len() && sequences[i] == sequences[j]
}

pub open spec fn has_repeats(sequences: Seq<u64>) -> bool {
    exists|i: int, j: int| repeats(sequences, i, j)
}

/// Whether a sequence occurs more than once.
pub open spec fn is_repeated(sequences: Seq<u64>, sequence: u64) -> bool {
    exists|i: int, j: int| #[trigger] repeats(sequences, i, j) && sequences[i] == sequence
}

/// Whether a sequence is the least that occurs more than once.
pub open spec fn least_repeated(sequences: Seq<u64>, sequence: u64) -> bool {
    &&& is_repeated(sequences, sequence)
    &&& forall|other: u64| #[trigger] is_repeated(sequences, other) ==> sequence <= other
}

/// The place where a natural run starts, or the end of the rows where there is no such run.
pub open spec fn run_bound(sequences: Seq<u64>, k: int) -> int {
    if k < run_starts(sequences).len() {
        run_starts(sequences)[k]
    } else {
        sequences.len() as int
    }
}

/// How many natural runs a run holds after some passes.
pub open spec fn merge_width(passes: nat) -> nat
    decreases passes,
{
    if passes == 0 {
        1
    } else {
        32 * merge_width((passes - 1) as nat)
    }
}

/// The rows of so many natural runs, counted in groups of them.
pub open spec fn run_group(sequences: Seq<u64>, width: nat, group: int) -> Seq<u64> {
    sequences.subrange(
        run_bound(sequences, group * width),
        run_bound(sequences, (group + 1) * width),
    )
}

/// Whether a pass comes upon a repeat in a group: no run repeats a sequence before the pass,
/// no group before it does, and the sequence is the least that the group repeats.
pub open spec fn repeat_found(
    sequences: Seq<u64>,
    passes: nat,
    group: int,
    sequence: u64,
) -> bool {
    &&& 0 <= group
    &&& forall|k: int|
        0 <= k ==> !has_repeats(#[trigger] run_group(sequences, merge_width(passes), k))
    &&& forall|k: int|
        0 <= k < group ==> !has_repeats(
            #[trigger] run_group(sequences, merge_width(passes + 1), k),
        )
    &&& least_repeated(run_group(sequences, merge_width(passes + 1), group), sequence)
}

/// Whether a sequence is the repeat upon which merging comes first.
pub open spec fn first_repeat(sequences: Seq<u64>, sequence: u64) -> bool {
    exists|passes: nat, group: int| #[trigger] repeat_found(sequences, passes, group, sequence)
}

/// How many passes merge so many runs into one.
pub open spec fn passes_for(runs: nat) -> nat
    decreases runs,
{
    if runs <= 1 {
        0
    } else {
        1 + passes_for(((runs + 31) / 32) as nat)
    }
}

/// Whether a list has each of the first `n` places once.
pub open spec fn is_arrangement(order: Seq<usize>, n: int) -> bool {
    &&& order.len() == n
    &&& order.no_duplicates()
    &&& forall|i: int| 0 <= i < order.len() ==> #[trigger] order[i] < n
}

/// Whether sequences are strictly ascending where an order lists them, over a range of it.
pub open spec fn ascends(sequences: Seq<u64>, order: Seq<usize>, start: int, end: int) -> bool {
    forall|i: int, j: int|
        start <= i < j < end ==> sequences[#[trigger] order[i] as int]
            < sequences[#[trigger] order[j] as int]
}

/// An arrangement has every place.
proof fn lemma_every_place(order: Seq<usize>, n: int, place: int) -> (at: int)
    requires
        is_arrangement(order, n),
        0 <= place < n,
    ensures
        0 <= at < n,
        order[at] == place,
{
    let places = order.map_values(|at: usize| at as int);
    assert(places.no_duplicates());
    places.unique_seq_to_set();
    let range = vstd::set_lib::set_int_range(0, n);
    vstd::set_lib::lemma_int_range(0, n);
    assert(places.to_set().subset_of(range)) by {
        assert forall|x: int| places.to_set().contains(x) implies range.contains(x) by {
            let i = choose|i: int| 0 <= i < places.len() && places[i] == x;
            assert(order[i] < n);
        }
    }
    vstd::set_lib::lemma_set_subset_finite(range, places.to_set());
    vstd::set_lib::lemma_subset_equality(places.to_set(), range);
    assert(places.to_set().contains(place));
    choose|i: int| 0 <= i < places.len() && places[i] == place
}

/// There is one order only in which rows ascend: a repair is determined by the sequences.
pub proof fn repaired_orders_are_unique(sequences: Seq<u64>, a: Seq<usize>, b: Seq<usize>)
    requires
        is_arrangement(a, sequences.len() as int),
        is_arrangement(b, sequences.len() as int),
        ascends(sequences, a, 0, a.len() as int),
        ascends(sequences, b, 0, b.len() as int),
    ensures
        a == b,
{
    lemma_orders_agree(sequences, a, b, a.len() as int);
    assert(a =~= b);
}

proof fn lemma_orders_agree(sequences: Seq<u64>, a: Seq<usize>, b: Seq<usize>, count: int)
    requires
        is_arrangement(a, sequences.len() as int),
        is_arrangement(b, sequences.len() as int),
        ascends(sequences, a, 0, a.len() as int),
        ascends(sequences, b, 0, b.len() as int),
        0 <= count <= a.len(),
    ensures
        forall|i: int| 0 <= i < count ==> #[trigger] a[i] == b[i],
    decreases count,
{
    if count > 0 {
        let k = count - 1;
        lemma_orders_agree(sequences, a, b, k);
        if a[k] != b[k] {
            let p = lemma_every_place(b, sequences.len() as int, a[k] as int);
            let q = lemma_every_place(a, sequences.len() as int, b[k] as int);
            if p < k {
                assert(a[p] == b[p]);
            }
            if q < k {
                assert(a[q] == b[q]);
            }
            assert(sequences[b[k] as int] < sequences[b[p] as int]);
            assert(sequences[a[k] as int] < sequences[a[q] as int]);
        }
    }
}

/// The ascending runs of the sequences of one stream.
pub struct NaturalRuns {
    last: Option<u64>,
    rows: usize,
    starts: Vec<usize>,
    seen: Ghost<Seq<u64>>,
}

impl View for NaturalRuns {
    type V = Seq<u64>;

    /// The sequences that were observed.
    closed spec fn view(&self) -> Seq<u64> {
        self.seen@
    }
}

impl Default for NaturalRuns {
    fn default() -> (r: Self)
        ensures
            r@ == Seq::<u64>::empty(),
    {
        NaturalRuns { last: None, rows: 0, starts: Vec::new(), seen: Ghost(Seq::empty()) }
    }
}

/// A run of rows, by its first place and its end.
#[derive(Clone, Copy)]
struct Run {
    start: usize,
    end: usize,
}

/// Whether runs lie one after the other over all rows, each of them ascending.
spec fn runs_ok(sequences: Seq<u64>, order: Seq<usize>, runs: Seq<Run>) -> bool {
    &&& runs.len() > 0
    &&& runs[0].start == 0
    &&& runs[runs.len() - 1].end == order.len()
    &&& forall|k: int|
        0 <= k < runs.len() ==> {
            &&& (#[trigger] runs[k]).start < runs[k].end <= order.len()
            &&& ascends(sequences, order, runs[k].start as int, runs[k].end as int)
        }
    &&& forall|a: int, b: int|
        0 <= a && b == a + 1 && b < runs.len() ==> (#[trigger] runs[a]).end == (
        #[trigger] runs[b]).start
}

impl NaturalRuns {
    #[verifier::type_invariant]
    closed spec fn inv(self) -> bool {
        &&& self.rows == self.seen@.len()
        &&& self.last == if self.seen@.len() == 0 {
            None
        } else {
            Some(self.seen@.last())
        }
        &&& self.starts@.len() == run_starts(self.seen@).len()
        &&& forall|i: int|
            0 <= i < self.starts@.len() ==> #[trigger] self.starts@[i] == run_starts(self.seen@)[i]
        &&& no_adjacent_repeats(self.seen@)
    }

    /// Notes the next sequence; repeating the one before it is ambiguous.
    pub fn observe(&mut self, channel: u32, sequence: u64) -> (r: Result<(), ProductionError>)
        ensures
            if old(self)@.len() > 0 && old(self)@.last() == sequence {
                &&& r is Err
                &&& r->Err_0@ == (ErrorModel::AmbiguousSequence { channel, sequence })
                &&& final(self)@ == old(self)@
            } else if old(self)@.len() == usize::MAX {
                &&& r is Err
                &&& r->Err_0@ == ErrorModel::Arithmetic("spool rows"@)
                &&& final(self)@ == old(self)@
            } else {
                r is Ok && final(self)@ == old(self)@.push(sequence)
            },
    {
        proof {
            use_type_invariant(&*self);
        }
        let starts_run = match self.last {
            Some(previous) => {
                if previous == sequence {
                    return Err(ProductionError::AmbiguousSequence { channel, sequence });
                }
                sequence < previous
            },
            None => true,
        };
        let rows: usize = match self.rows.checked_add(1) {
            Some(rows) => rows,
            None => return Err(ProductionError::Arithmetic("spool rows")),
        };
        let mut next = NaturalRuns::default();
        std::mem::swap(&mut next, self);
        let NaturalRuns { last: _, rows: at, starts: mut starts, seen } = next;
        if starts_run {
            starts.push(at);
        }
        let ghost before = seen@;
        proof {
            assert(before.push(sequence).drop_last() =~= before);
        }
        *self = NaturalRuns {
            last: Some(sequence),
            rows,
            starts,
            seen: Ghost(seen@.push(sequence)),
        };
        Ok(())
    }
}

/// Where a natural run ends.
pub open spec fn run_end(sequences: Seq<u64>, k: int) -> int {
    if k + 1 < run_starts(sequences).len() {
        run_starts(sequences)[k + 1]
    } else {
        sequences.len() as int
    }
}

spec fn ascends_between(sequences: Seq<u64>, start: int, end: int) -> bool {
    forall|i: int, j: int| start <= i < j < end ==> #[trigger] sequences[i] < #[trigger] sequences[j]
}

/// Natural runs start at the first place, follow each other, and ascend.
proof fn lemma_run_starts(sequences: Seq<u64>)
    requires
        no_adjacent_repeats(sequences),
    ensures
        sequences.len() > 0 ==> run_starts(sequences).len() > 0 && run_starts(sequences)[0] == 0,
        forall|k: int|
            0 <= k < run_starts(sequences).len() ==> {
                &&& 0 <= #[trigger] run_starts(sequences)[k] < run_end(sequences, k)
                    <= sequences.len()
                &&& ascends_between(sequences, run_starts(sequences)[k], run_end(sequences, k))
            },
    decreases sequences.len(),
{
    if sequences.len() > 0 {
        let front = sequences.drop_last();
        let at = sequences.len() - 1;
        assert(no_adjacent_repeats(front)) by {
            assert forall|i: int, j: int|
                0 <= i < front.len() - 1 && j == i + 1 implies #[trigger] front[i]
                != #[trigger] front[j] by {
                assert(sequences[i] != sequences[j]);
            }
        }
        lemma_run_starts(front);
        let before = run_starts(front);
        let starts = run_starts(sequences);
        let breaks = at == 0 || sequences[at] < sequences[at - 1];
        assert forall|k: int| 0 <= k < starts.len() implies {
            &&& 0 <= #[trigger] starts[k] < run_end(sequences, k) <= sequences.len()
            &&& ascends_between(sequences, starts[k], run_end(sequences, k))
        } by {
            if k < before.len() {
                assert(starts[k] == before[k]);
                assert(ascends_between(front, before[k], run_end(front, k)));
                if k + 1 < before.len() {
                    assert(starts[k + 1] == before[k + 1]);
                    assert(run_end(sequences, k) == run_end(front, k));
                } else if breaks {
                    assert(run_end(sequences, k) == run_end(front, k));
                } else {
                    assert(sequences[at - 1] != sequences[at]);
                }
                assert forall|i: int, j: int|
                    starts[k] <= i < j < run_end(sequences, k) implies #[trigger] sequences[i]
                    < #[trigger] sequences[j] by {
                    assert(front[i] == sequences[i]);
                    if j < at {
                        assert(front[j] == sequences[j]);
                    } else {
                        assert(front[at - 1] == sequences[at - 1]);
                    }
                }
            }
        }
    }
}

/// A list without repeats of exactly the first places is as long as there are such places.
proof fn lemma_filled(places: Seq<int>, n: int)
    requires
        0 <= n,
        places.no_duplicates(),
        forall|p: int| #[trigger] places.contains(p) <==> 0 <= p < n,
    ensures
        places.len() == n,
{
    places.unique_seq_to_set();
    vstd::set_lib::lemma_int_range(0, n);
    assert(places.to_set() =~= vstd::set_lib::set_int_range(0, n));
}

/// A list without repeats that misses one of the first places is shorter.
proof fn lemma_not_filled(places: Seq<int>, n: int, missing: int)
    requires
        0 <= missing < n,
        places.no_duplicates(),
        forall|p: int| #[trigger] places.contains(p) ==> 0 <= p < n,
        !places.contains(missing),
    ensures
        places.len() < n,
{
    places.unique_seq_to_set();
    vstd::set_lib::lemma_int_range(0, n);
    let rest = vstd::set_lib::set_int_range(0, n).remove(missing);
    assert(places.to_set().subset_of(rest));
    vstd::set_lib::lemma_len_subset(places.to_set(), rest);
}

/// An arrangement has every place.
proof fn lemma_arrangement_onto(order: Seq<usize>, n: int, place: int)
    requires
        is_arrangement(order, n),
        0 <= place < n,
    ensures
        exists|i: int| 0 <= i < n && #[trigger] order[i] == place,
{
    let places = order.map_values(|p: usize| p as int);
    assert(places.no_duplicates());
    assert forall|p: int| #[trigger] places.contains(p) implies 0 <= p < n by {
        let i = choose|i: int| 0 <= i < places.len() && places[i] == p;
        assert(order[i] < n);
    }
    if !places.contains(place) {
        lemma_not_filled(places, n, place);
    }
    let i = choose|i: int| 0 <= i < places.len() && places[i] == place;
    assert(order[i] == place);
}

/// Sequences that some arrangement lists in strictly ascending order do not repeat.
proof fn lemma_ascending_unique(sequences: Seq<u64>, order: Seq<usize>)
    requires
        is_arrangement(order, sequences.len() as int),
        ascends(sequences, order, 0, order.len() as int),
    ensures
        !has_repeats(sequences),
{
    if has_repeats(sequences) {
        let (i, j) = choose|i: int, j: int| repeats(sequences, i, j);
        lemma_arrangement_onto(order, sequences.len() as int, i);
        lemma_arrangement_onto(order, sequences.len() as int, j);
        let a = choose|a: int| 0 <= a < order.len() && #[trigger] order[a] == i;
        let b = choose|b: int| 0 <= b < order.len() && #[trigger] order[b] == j;
        if a < b {
            assert(sequences[order[a] as int] < sequences[order[b] as int]);
        } else {
            assert(sequences[order[b] as int] < sequences[order[a] as int]);
        }
    }
}

/// Whether a place was taken: it is before the group, or before the cursor of its run.
spec fn taken(runs: Seq<Run>, first: int, cursors: Seq<usize>, place: int) -> bool {
    ||| 0 <= place < runs[first].start
    ||| exists|k: int| #[trigger] taken_from(runs, first, cursors, k, place)
}

spec fn taken_from(runs: Seq<Run>, first: int, cursors: Seq<usize>, k: int, place: int) -> bool {
    0 <= k < cursors.len() && runs[first + k].start <= place < cursors[k]
}

/// Whether rows were picked from an order at distinct places.
spec fn picked(order: Seq<usize>, merged: Seq<usize>, places: Seq<int>) -> bool {
    &&& merged.len() == places.len()
    &&& places.no_duplicates()
    &&& forall|i: int|
        0 <= i < places.len() ==> 0 <= #[trigger] places[i] < order.len() && merged[i]
            == order[places[i]]
}

/// Rows that were picked at distinct places are distinct.
proof fn lemma_picked_once(order: Seq<usize>, merged: Seq<usize>, places: Seq<int>)
    requires
        order.no_duplicates(),
        picked(order, merged, places),
    ensures
        merged.no_duplicates(),
{
    assert forall|i: int, j: int|
        0 <= i < merged.len() && 0 <= j < merged.len() && i != j implies merged[i] != merged[j] by {
        assert(places[i] != places[j]);
        assert(merged[i] == order[places[i]] && merged[j] == order[places[j]]);
    }
}

/// Runs lie in the order of their places.
proof fn lemma_runs_apart(sequences: Seq<u64>, order: Seq<usize>, runs: Seq<Run>, a: int, b: int)
    requires
        runs_ok(sequences, order, runs),
        0 <= a < b < runs.len(),
    ensures
        runs[a].end <= runs[b].start,
    decreases b - a,
{
    assert(runs[b - 1].end == runs[b].start);
    if a < b - 1 {
        lemma_runs_apart(sequences, order, runs, a, b - 1);
        assert(runs[b - 1].start < runs[b - 1].end);
    }
}

/// Each place of a group belongs to one of its runs.
proof fn lemma_run_of(
    sequences: Seq<u64>,
    order: Seq<usize>,
    runs: Seq<Run>,
    first: int,
    last: int,
    place: int,
) -> (k: int)
    requires
        runs_ok(sequences, order, runs),
        0 <= first < last <= runs.len(),
        runs[first].start <= place < runs[last - 1].end,
    ensures
        first <= k < last,
        runs[k].start <= place < runs[k].end,
    decreases last - first,
{
    if place >= runs[last - 1].start {
        last - 1
    } else {
        assert(runs[last - 2].end == runs[last - 1].start);
        lemma_run_of(sequences, order, runs, first, last - 1, place)
    }
}

/// Whether an order lists, over a range, places of that range.
spec fn stays_within(order: Seq<usize>, start: int, end: int) -> bool {
    forall|i: int| start <= i < end ==> start <= #[trigger] order[i] < end
}

/// Whether every run lists its own places.
spec fn at_home(order: Seq<usize>, runs: Seq<Run>) -> bool {
    forall|k: int|
        0 <= k < runs.len() ==> stays_within(
            order,
            (#[trigger] runs[k]).start as int,
            runs[k].end as int,
        )
}

proof fn lemma_group_at_home(
    sequences: Seq<u64>,
    order: Seq<usize>,
    runs: Seq<Run>,
    first: int,
    last: int,
)
    requires
        runs_ok(sequences, order, runs),
        at_home(order, runs),
        0 <= first < last <= runs.len(),
    ensures
        stays_within(order, runs[first].start as int, runs[last - 1].end as int),
{
    assert forall|i: int| runs[first].start <= i < runs[last - 1].end implies runs[first].start
        <= #[trigger] order[i] < runs[last - 1].end by {
        let k = lemma_run_of(sequences, order, runs, first, last, i);
        assert(stays_within(order, runs[k].start as int, runs[k].end as int));
        if first < k {
            lemma_runs_apart(sequences, order, runs, first, k);
            assert(runs[first].start < runs[first].end);
        }
        if k < last - 1 {
            lemma_runs_apart(sequences, order, runs, k, last - 1);
            assert(runs[last - 1].start < runs[last - 1].end);
        }
    }
}

/// An order that stays within a range has every place of it there.
proof fn lemma_range_onto(order: Seq<usize>, start: int, end: int, place: int) -> (at: int)
    requires
        order.no_duplicates(),
        stays_within(order, start, end),
        0 <= start <= place < end <= order.len(),
    ensures
        start <= at < end,
        order[at] == place,
{
    let part = Seq::new((end - start) as nat, |i: int| (order[start + i] - start) as usize);
    assert(is_arrangement(part, end - start)) by {
        assert forall|i: int, j: int|
            0 <= i < part.len() && 0 <= j < part.len() && i != j implies part[i] != part[j] by {
            assert(order[start + i] != order[start + j]);
        }
        assert forall|i: int| 0 <= i < part.len() implies #[trigger] part[i] < end - start by {
            assert(order[start + i] < end);
        }
    }
    lemma_arrangement_onto(part, end - start, place - start);
    let i = choose|i: int| 0 <= i < end - start && #[trigger] part[i] == place - start;
    assert(order[start + i] >= start);
    start + i
}

/// Two places of a range that repeat a sequence, by where an order lists them.
proof fn lemma_listed_repeat(
    sequences: Seq<u64>,
    order: Seq<usize>,
    start: int,
    end: int,
    sequence: u64,
) -> (r: (int, int))
    requires
        order.no_duplicates(),
        stays_within(order, start, end),
        0 <= start <= end <= sequences.len(),
        end <= order.len(),
        is_repeated(sequences.subrange(start, end), sequence),
    ensures
        start <= r.0 < end,
        start <= r.1 < end,
        r.0 != r.1,
        sequences[order[r.0] as int] == sequence,
        sequences[order[r.1] as int] == sequence,
{
    let rows = sequences.subrange(start, end);
    let (i, j) = choose|i: int, j: int| #[trigger] repeats(rows, i, j) && rows[i] == sequence;
    (
        lemma_range_onto(order, start, end, start + i),
        lemma_range_onto(order, start, end, start + j),
    )
}

/// A range that an order lists in strictly ascending sequence repeats nothing.
proof fn lemma_ascending_range(sequences: Seq<u64>, order: Seq<usize>, start: int, end: int)
    requires
        order.no_duplicates(),
        stays_within(order, start, end),
        0 <= start <= end <= sequences.len(),
        end <= order.len(),
        ascends(sequences, order, start, end),
    ensures
        !has_repeats(sequences.subrange(start, end)),
{
    let rows = sequences.subrange(start, end);
    if has_repeats(rows) {
        let (i, j) = choose|i: int, j: int| repeats(rows, i, j);
        assert(is_repeated(rows, rows[i]));
        let (a, b) = lemma_listed_repeat(sequences, order, start, end, rows[i]);
        if a < b {
            assert(sequences[order[a] as int] < sequences[order[b] as int]);
        } else {
            assert(sequences[order[b] as int] < sequences[order[a] as int]);
        }
    }
}

/// The run of a group whose next row has the smallest sequence.
fn smallest_head(
    sequences: &Vec<u64>,
    order: &Vec<usize>,
    runs: &Vec<Run>,
    first: usize,
    cursors: &Vec<usize>,
) -> (r: Option<usize>)
    requires
        is_arrangement(order@, sequences@.len() as int),
        first + cursors@.len() <= runs@.len(),
        forall|k: int|
            0 <= k < cursors@.len() ==> #[trigger] cursors@[k] <= runs@[first + k].end
                <= order@.len(),
    ensures
        match r {
            Some(best) => {
                &&& best < cursors@.len()
                &&& cursors@[best as int] < runs@[first + best].end
                &&& forall|k: int|
                    0 <= k < cursors@.len() && #[trigger] cursors@[k] < runs@[first + k].end
                        ==> sequences@[order@[cursors@[best as int] as int] as int]
                        <= sequences@[order@[cursors@[k] as int] as int]
            },
            None => forall|k: int|
                0 <= k < cursors@.len() ==> #[trigger] cursors@[k] == runs@[first + k].end,
        },
{
    let mut best: Option<usize> = None;
    let mut k: usize = 0;
    let count: usize = runs.len();
    while k < cursors.len()
        invariant
            count == runs@.len(),
            is_arrangement(order@, sequences@.len() as int),
            first + cursors@.len() <= runs@.len(),
            forall|k: int|
                0 <= k < cursors@.len() ==> #[trigger] cursors@[k] <= runs@[first + k].end
                    <= order@.len(),
            k <= cursors@.len(),
            match best {
                Some(best) => {
                    &&& best < k
                    &&& cursors@[best as int] < runs@[first + best].end
                    &&& forall|i: int|
                        0 <= i < k && #[trigger] cursors@[i] < runs@[first + i].end
                            ==> sequences@[order@[cursors@[best as int] as int] as int]
                            <= sequences@[order@[cursors@[i] as int] as int]
                },
                None => forall|i: int|
                    0 <= i < k ==> #[trigger] cursors@[i] == runs@[first + i].end,
            },
        decreases cursors@.len() - k,
    {
        let cursor: usize = cursors[k];
        if cursor < runs[first + k].end {
            assert(order@[cursor as int] < sequences@.len());
            match best {
                Some(found) => {
                    assert(cursors@[found as int] < runs@[first + found].end);
                    assert(order@[cursors@[found as int] as int] < sequences@.len());
                    if sequences[order[cursor]] < sequences[order[cursors[found]]] {
                        best = Some(k);
                    }
                },
                None => {
                    best = Some(k);
                },
            }
        }
        k = k + 1;
    }
    best
}

/// Merges neighbouring runs into one at the end of the merged rows. The places from which
/// rows were picked so far are given, and those from which they are picked then.
fn merge_group(
    channel: u32,
    sequences: &Vec<u64>,
    order: &Vec<usize>,
    runs: &Vec<Run>,
    first: usize,
    last: usize,
    merged: &mut Vec<usize>,
    Ghost(before): Ghost<Seq<int>>,
) -> (r: Result<Ghost<Seq<int>>, ProductionError>)
    requires
        is_arrangement(order@, sequences@.len() as int),
        runs_ok(sequences@, order@, runs@),
        first < last <= runs@.len(),
        at_home(order@, runs@),
        picked(order@, old(merged)@, before),
        forall|p: int| #[trigger] before.contains(p) <==> 0 <= p < runs@[first as int].start,
    ensures
        match r {
            Ok(places) => {
                &&& picked(order@, final(merged)@, places@)
                &&& forall|p: int| #[trigger]
                    places@.contains(p) <==> 0 <= p < runs@[last - 1].end
                &&& final(merged)@.len() == runs@[last - 1].end
                &&& old(merged)@.len() == runs@[first as int].start
                &&& final(merged)@.take(old(merged)@.len() as int) == old(merged)@
                &&& ascends(
                    sequences@,
                    final(merged)@,
                    old(merged)@.len() as int,
                    final(merged)@.len() as int,
                )
                &&& stays_within(
                    final(merged)@,
                    runs@[first as int].start as int,
                    runs@[last - 1].end as int,
                )
            },
            Err(error) => {
                &&& error@ is AmbiguousSequence
                &&& error@->AmbiguousSequence_channel == channel
                &&& least_repeated(
                    sequences@.subrange(
                        runs@[first as int].start as int,
                        runs@[last - 1].end as int,
                    ),
                    error@->AmbiguousSequence_sequence,
                )
            },
        },
{
    let ghost mut places = before;
    let base: usize = merged.len();
    let ghost start = merged@;
    let mut cursors: Vec<usize> = Vec::new();
    let mut k: usize = first;
    while k < last
        invariant
            first <= k <= last <= runs@.len(),
            cursors@.len() == k - first,
            forall|i: int| 0 <= i < cursors@.len() ==> #[trigger] cursors@[i] == runs@[first + i].start,
        decreases last - k,
    {
        cursors.push(runs[k].start);
        k = k + 1;
    }
    let mut previous: Option<u64> = None;
    proof {
        assert(runs@[first as int].start < runs@[first as int].end);
        lemma_filled(before, runs@[first as int].start as int);
        assert forall|p: int| #[trigger] places.contains(p) <==> taken(
            runs@,
            first as int,
            cursors@,
            p,
        ) by {
            assert(before.contains(p) <==> 0 <= p < runs@[first as int].start);
        }
        assert forall|k: int| 0 <= k < cursors@.len() implies runs@[first + k].start
            <= #[trigger] cursors@[k] <= runs@[first + k].end <= order@.len() by {
            assert(runs@[first + k].start < runs@[first + k].end);
        }
    }
    loop
        invariant
            is_arrangement(order@, sequences@.len() as int),
            runs_ok(sequences@, order@, runs@),
            at_home(order@, runs@),
            first < last <= runs@.len(),
            cursors@.len() == last - first,
            forall|k: int|
                0 <= k < cursors@.len() ==> runs@[first + k].start <= #[trigger] cursors@[k]
                    <= runs@[first + k].end <= order@.len(),
            picked(order@, merged@, places),
            places.len() >= base,
            places.take(base as int) == before,
            forall|p: int| #[trigger]
                before.contains(p) <==> 0 <= p < runs@[first as int].start,
            forall|p: int| #[trigger]
                places.contains(p) <==> taken(runs@, first as int, cursors@, p),
            base == start.len(),
            base == runs@[first as int].start,
            merged@.len() >= base,
            merged@.take(base as int) == start,
            ascends(sequences@, merged@, base as int, merged@.len() as int),
            match previous {
                Some(previous) => {
                    &&& merged@.len() > base
                    &&& previous == sequences@[merged@.last() as int]
                    &&& forall|k: int|
                        0 <= k < cursors@.len() && #[trigger] cursors@[k] < runs@[first + k].end
                            ==> previous <= sequences@[order@[cursors@[k] as int] as int]
                },
                None => merged@.len() == base,
            },
            start == old(merged)@,
        ensures
            forall|k: int|
                0 <= k < cursors@.len() ==> #[trigger] cursors@[k] == runs@[first + k].end,
        decreases runs@[last - 1].end - merged@.len(),
    {
        let best: usize = match smallest_head(sequences, order, runs, first, &cursors) {
            Some(best) => best,
            None => break ,
        };
        let place: usize = cursors[best];
        let row: usize = order[place];
        assert(order@[place as int] < sequences@.len());
        let sequence: u64 = sequences[row];
        let ghost old_cursors = cursors@;
        let ghost old_merged = merged@;
        let ghost old_places = places;
        proof {
            lemma_place_free(
                sequences@,
                order@,
                runs@,
                first as int,
                last as int,
                old_cursors,
                best as int,
            );
            assert(!places.contains(place as int));
            assert(runs@[first + best].end <= runs@[last - 1].end) by {
                if first + best < last - 1 {
                    lemma_runs_apart(sequences@, order@, runs@, first + best, last - 1);
                    assert(runs@[last - 1].start < runs@[last - 1].end);
                }
            }
            assert forall|p: int| #[trigger] places.contains(p) implies 0 <= p
                < runs@[last - 1].end by {
                lemma_taken_bound(
                    sequences@,
                    order@,
                    runs@,
                    first as int,
                    last as int,
                    old_cursors,
                    p,
                );
            }
            lemma_not_filled(places, runs@[last - 1].end as int, place as int);
        }
        // Run index never resolves a duplicate: equality is always an error.
        if let Some(p) = previous {
            if sequence <= p {
                proof {
                    let at = places.last();
                    assert(merged@.last() == order@[at]);
                    assert(places.contains(at));
                    lemma_least_head(
                        sequences@,
                        order@,
                        runs@,
                        first as int,
                        last as int,
                        cursors@,
                        best as int,
                        merged@,
                        places,
                        before,
                    );
                }
                return Err(ProductionError::AmbiguousSequence { channel, sequence });
            }
        }
        merged.push(row);
        cursors.set(best, place + 1);
        previous = Some(sequence);
        proof {
            places = places.push(place as int);
            assert(places.take(base as int) =~= old_places.take(base as int));
            assert(merged@.take(base as int) =~= old_merged.take(base as int));
            assert(merged@.last() == row);
            assert forall|p: int| #[trigger] places.contains(p) <==> taken(
                runs@,
                first as int,
                cursors@,
                p,
            ) by {
                lemma_taken_step(runs@, first as int, old_cursors, best as int, p);
                assert(old_places.contains(p) <==> taken(runs@, first as int, old_cursors, p));
                if old_places.contains(p) {
                    let i = choose|i: int| 0 <= i < old_places.len() && old_places[i] == p;
                    assert(places[i] == p);
                }
                if p == place {
                    assert(places[places.len() - 1] == p);
                }
            }
            assert(places.no_duplicates()) by {
                assert forall|i: int, j: int|
                    0 <= i < places.len() && 0 <= j < places.len() && i != j implies places[i]
                    != places[j] by {
                    if i == old_places.len() {
                        assert(old_places.contains(old_places[j]));
                    } else if j == old_places.len() {
                        assert(old_places.contains(old_places[i]));
                    }
                }
            }
            assert forall|i: int, j: int| base <= i < j < merged@.len() implies sequences@[
            #[trigger] merged@[i] as int] < sequences@[#[trigger] merged@[j] as int] by {
                if j == old_merged.len() {
                    assert(merged@[j] == row);
                    if i < old_merged.len() - 1 {
                        assert(sequences@[old_merged[i] as int] < sequences@[old_merged[
                        old_merged.len() - 1] as int]);
                    }
                    assert(merged@[i] == old_merged[i]);
                } else {
                    assert(sequences@[old_merged[i] as int] < sequences@[old_merged[j] as int]);
                }
            }
            assert forall|k: int|
                0 <= k < cursors@.len() && #[trigger] cursors@[k] < runs@[first
                    + k].end implies sequence <= sequences@[order@[cursors@[k] as int] as int] by {
                if k == best {
                    assert(ascends(
                        sequences@,
                        order@,
                        runs@[first + k].start as int,
                        runs@[first + k].end as int,
                    ));
                    assert(sequences@[order@[place as int] as int] < sequences@[order@[place
                        + 1] as int]);
                } else {
                    assert(cursors@[k] == old_cursors[k]);
                }
            }
        }
    }
    proof {
        assert forall|p: int| #[trigger] places.contains(p) <==> 0 <= p < runs@[last - 1].end by {
            if places.contains(p) {
                lemma_taken_bound(
                    sequences@,
                    order@,
                    runs@,
                    first as int,
                    last as int,
                    cursors@,
                    p,
                );
            }
            if 0 <= p < runs@[last - 1].end {
                if p >= runs@[first as int].start {
                    let k = lemma_run_of(
                        sequences@,
                        order@,
                        runs@,
                        first as int,
                        last as int,
                        p,
                    );
                    assert(cursors@[k - first] == runs@[first + (k - first)].end);
                    assert(taken_from(runs@, first as int, cursors@, k - first, p));
                }
                assert(taken(runs@, first as int, cursors@, p));
            }
        }
        lemma_filled(places, runs@[last - 1].end as int);
        lemma_group_at_home(sequences@, order@, runs@, first as int, last as int);
        assert forall|i: int| runs@[first as int].start <= i < runs@[last - 1].end implies runs@[
        first as int].start <= #[trigger] merged@[i] < runs@[last - 1].end by {
            assert(places.contains(places[i]));
            lemma_picked_later(places, before, i);
            assert(merged@[i] == order@[places[i]]);
        }
    }
    Ok(Ghost(places))
}

/// What was picked after the places before is none of them.
proof fn lemma_picked_later(places: Seq<int>, before: Seq<int>, at: int)
    requires
        places.no_duplicates(),
        before.len() <= at < places.len(),
        places.take(before.len() as int) == before,
    ensures
        !before.contains(places[at]),
{
    if before.contains(places[at]) {
        let i = choose|i: int| 0 <= i < before.len() && before[i] == places[at];
        assert(places.take(before.len() as int)[i] == places[i]);
    }
}

/// Where the smallest head is no larger than what was picked last, it is the least sequence
/// that the group repeats.
proof fn lemma_least_head(
    sequences: Seq<u64>,
    order: Seq<usize>,
    runs: Seq<Run>,
    first: int,
    last: int,
    cursors: Seq<usize>,
    best: int,
    merged: Seq<usize>,
    places: Seq<int>,
    before: Seq<int>,
)
    requires
        is_arrangement(order, sequences.len() as int),
        runs_ok(sequences, order, runs),
        at_home(order, runs),
        0 <= first < last <= runs.len(),
        cursors.len() == last - first,
        forall|k: int|
            0 <= k < cursors.len() ==> runs[first + k].start <= #[trigger] cursors[k]
                <= runs[first + k].end <= order.len(),
        picked(order, merged, places),
        before.len() < places.len(),
        places.take(before.len() as int) == before,
        forall|p: int| #[trigger] before.contains(p) <==> 0 <= p < runs[first].start,
        forall|p: int| #[trigger] places.contains(p) <==> taken(runs, first, cursors, p),
        ascends(sequences, merged, before.len() as int, merged.len() as int),
        0 <= best < cursors.len(),
        cursors[best] < runs[first + best].end,
        !places.contains(cursors[best] as int),
        forall|k: int|
            0 <= k < cursors.len() && #[trigger] cursors[k] < runs[first + k].end
                ==> sequences[order[cursors[best] as int] as int] <= sequences[order[
            cursors[k] as int] as int],
        sequences[order[cursors[best] as int] as int] == sequences[merged.last() as int],
    ensures
        least_repeated(
            sequences.subrange(runs[first].start as int, runs[last - 1].end as int),
            sequences[order[cursors[best] as int] as int],
        ),
{
    let start = runs[first].start as int;
    let end = runs[last - 1].end as int;
    let sequence = sequences[order[cursors[best] as int] as int];
    let rows = sequences.subrange(start, end);
    lemma_group_at_home(sequences, order, runs, first, last);
    let place = cursors[best] as int;
    let other = places.last();
    assert(places.contains(other));
    lemma_picked_later(places, before, places.len() - 1);
    lemma_taken_bound(sequences, order, runs, first, last, cursors, other);
    assert(start <= place < end) by {
        if best > 0 {
            lemma_runs_apart(sequences, order, runs, first, first + best);
            assert(runs[first].start < runs[first].end);
        }
        if first + best < last - 1 {
            lemma_runs_apart(sequences, order, runs, first + best, last - 1);
            assert(runs[last - 1].start < runs[last - 1].end);
        }
    }
    assert(is_repeated(rows, sequence)) by {
        let i = order[place] - start;
        let j = order[other] - start;
        assert(order[place] != order[other]);
        assert(rows[i] == sequence && rows[j] == sequence);
        if i < j {
            assert(repeats(rows, i, j));
        } else {
            assert(repeats(rows, j, i));
        }
    }
    assert forall|least: u64| #[trigger] is_repeated(rows, least) implies sequence <= least by {
        let (a, b) = lemma_listed_repeat(sequences, order, start, end, least);
        if least < sequence {
            let i = lemma_small_is_picked(
                sequences,
                order,
                runs,
                first,
                last,
                cursors,
                sequence,
                places,
                before,
                a,
            );
            let j = lemma_small_is_picked(
                sequences,
                order,
                runs,
                first,
                last,
                cursors,
                sequence,
                places,
                before,
                b,
            );
            assert(merged[i] == order[places[i]] && merged[j] == order[places[j]]);
            if i < j {
                assert(sequences[merged[i] as int] < sequences[merged[j] as int]);
            } else {
                assert(sequences[merged[j] as int] < sequences[merged[i] as int]);
            }
        }
    }
}

/// A row of a group below all heads was picked.
proof fn lemma_small_is_picked(
    sequences: Seq<u64>,
    order: Seq<usize>,
    runs: Seq<Run>,
    first: int,
    last: int,
    cursors: Seq<usize>,
    head: u64,
    places: Seq<int>,
    before: Seq<int>,
    place: int,
) -> (at: int)
    requires
        runs_ok(sequences, order, runs),
        0 <= first < last <= runs.len(),
        cursors.len() == last - first,
        forall|k: int|
            0 <= k < cursors.len() ==> runs[first + k].start <= #[trigger] cursors[k]
                <= runs[first + k].end <= order.len(),
        places.take(before.len() as int) == before,
        before.len() <= places.len(),
        forall|p: int| #[trigger] before.contains(p) <==> 0 <= p < runs[first].start,
        forall|p: int| #[trigger] places.contains(p) <==> taken(runs, first, cursors, p),
        forall|k: int|
            0 <= k < cursors.len() && #[trigger] cursors[k] < runs[first + k].end ==> head
                <= sequences[order[cursors[k] as int] as int],
        runs[first].start <= place < runs[last - 1].end,
        sequences[order[place] as int] < head,
    ensures
        before.len() <= at < places.len(),
        places[at] == place,
{
    let k = lemma_run_of(sequences, order, runs, first, last, place);
    let cursor = cursors[k - first];
    assert(runs[first + (k - first)] == runs[k]);
    if place >= cursor {
        assert(cursors[k - first] < runs[first + (k - first)].end);
        if place > cursor {
            assert(ascends(sequences, order, runs[k].start as int, runs[k].end as int));
            assert(sequences[order[cursor as int] as int] < sequences[order[place] as int]);
        }
    }
    assert(taken_from(runs, first, cursors, k - first, place));
    assert(places.contains(place));
    let at = choose|at: int| 0 <= at < places.len() && places[at] == place;
    if at < before.len() {
        assert(places.take(before.len() as int)[at] == place);
        assert(before.contains(place));
    }
    at
}

/// The place under a cursor is not taken.
proof fn lemma_place_free(
    sequences: Seq<u64>,
    order: Seq<usize>,
    runs: Seq<Run>,
    first: int,
    last: int,
    cursors: Seq<usize>,
    best: int,
)
    requires
        runs_ok(sequences, order, runs),
        0 <= first < last <= runs.len(),
        cursors.len() == last - first,
        0 <= best < cursors.len(),
        forall|k: int|
            0 <= k < cursors.len() ==> runs[first + k].start <= #[trigger] cursors[k]
                <= runs[first + k].end,
        cursors[best] < runs[first + best].end,
    ensures
        !taken(runs, first, cursors, cursors[best] as int),
{
    let place = cursors[best] as int;
    assert(runs[first].start <= place) by {
        if best > 0 {
            lemma_runs_apart(sequences, order, runs, first, first + best);
            assert(runs[first].start < runs[first].end);
        }
    }
    assert forall|k: int| !#[trigger] taken_from(runs, first, cursors, k, place) by {
        if taken_from(runs, first, cursors, k, place) {
            assert(cursors[k] <= runs[first + k].end);
            if k < best {
                lemma_runs_apart(sequences, order, runs, first + k, first + best);
            } else if k > best {
                lemma_runs_apart(sequences, order, runs, first + best, first + k);
            }
        }
    }
}

/// Taken places are within the group's end.
proof fn lemma_taken_bound(
    sequences: Seq<u64>,
    order: Seq<usize>,
    runs: Seq<Run>,
    first: int,
    last: int,
    cursors: Seq<usize>,
    place: int,
)
    requires
        runs_ok(sequences, order, runs),
        0 <= first < last <= runs.len(),
        cursors.len() == last - first,
        forall|k: int|
            0 <= k < cursors.len() ==> runs[first + k].start <= #[trigger] cursors[k]
                <= runs[first + k].end,
        taken(runs, first, cursors, place),
    ensures
        0 <= place < runs[last - 1].end,
{
    let k = if 0 <= place < runs[first].start {
        0
    } else {
        choose|k: int| #[trigger] taken_from(runs, first, cursors, k, place)
    };
    assert(place < runs[first + k].end) by {
        if 0 <= place < runs[first].start {
            assert(runs[first].start < runs[first].end);
        } else {
            assert(cursors[k] <= runs[first + k].end);
        }
    }
    if first + k < last - 1 {
        lemma_runs_apart(sequences, order, runs, first + k, last - 1);
        assert(runs[last - 1].start < runs[last - 1].end);
    }
}

/// Moving one cursor on takes one place more.
proof fn lemma_taken_step(runs: Seq<Run>, first: int, cursors: Seq<usize>, best: int, place: int)
    requires
        0 <= best < cursors.len(),
        runs[first + best].start <= cursors[best] < usize::MAX,
    ensures
        taken(runs, first, cursors.update(best, (cursors[best] + 1) as usize), place) <==> taken(
            runs,
            first,
            cursors,
            place,
        ) || place == cursors[best],
{
    let next = cursors.update(best, (cursors[best] + 1) as usize);
    if taken(runs, first, next, place) && !(0 <= place < runs[first].start) {
        let k = choose|k: int| #[trigger] taken_from(runs, first, next, k, place);
        assert(taken_from(runs, first, cursors, k, place) || place == cursors[best]);
    }
    if taken(runs, first, cursors, place) && !(0 <= place < runs[first].start) {
        let k = choose|k: int| #[trigger] taken_from(runs, first, cursors, k, place);
        assert(taken_from(runs, first, next, k, place));
    }
    if place == cursors[best] {
        assert(taken_from(runs, first, next, best, place));
    }
}

/// Whether runs lie one after the other over the rows merged so far, each of them ascending.
#[verifier::opaque]
spec fn merged_ok(sequences: Seq<u64>, merged: Seq<usize>, runs: Seq<Run>) -> bool {
    &&& runs.len() == 0 ==> merged.len() == 0
    &&& runs.len() > 0 ==> runs_ok(sequences, merged, runs)
}

/// A merged group is one more run.
proof fn lemma_merged_run(
    sequences: Seq<u64>,
    before: Seq<usize>,
    merged: Seq<usize>,
    runs: Seq<Run>,
    run: Run,
)
    requires
        merged_ok(sequences, before, runs),
        run.start == before.len(),
        run.end == merged.len(),
        before.len() < merged.len(),
        merged.take(before.len() as int) == before,
        ascends(sequences, merged, before.len() as int, merged.len() as int),
    ensures
        merged_ok(sequences, merged, runs.push(run)),
{
    reveal(merged_ok);
    let next = runs.push(run);
    assert forall|k: int| 0 <= k < next.len() implies {
        &&& (#[trigger] next[k]).start < next[k].end <= merged.len()
        &&& ascends(sequences, merged, next[k].start as int, next[k].end as int)
    } by {
        if k < runs.len() {
            assert(next[k] == runs[k]);
            assert(ascends(sequences, before, runs[k].start as int, runs[k].end as int));
            assert forall|i: int, j: int| next[k].start <= i < j < next[k].end implies sequences[
            #[trigger] merged[i] as int] < sequences[#[trigger] merged[j] as int] by {
                assert(merged.take(before.len() as int)[i] == merged[i]);
                assert(merged.take(before.len() as int)[j] == merged[j]);
                assert(sequences[before[i] as int] < sequences[before[j] as int]);
            }
        }
    }
    assert forall|a: int, b: int| 0 <= a && b == a + 1 && b < next.len() implies (
    #[trigger] next[a]).end == (#[trigger] next[b]).start by {
        assert(next[a] == runs[a]);
        if b < runs.len() {
            assert(next[b] == runs[b]);
        }
    }
}

/// Where a group of neighbouring runs ends.
spec fn group_end(runs: Seq<Run>, group: int) -> int {
    if 32 * (group + 1) < runs.len() {
        runs[32 * (group + 1) - 1].end as int
    } else {
        runs[runs.len() - 1].end as int
    }
}

/// The rows of a group of neighbouring runs.
spec fn group_rows(sequences: Seq<u64>, runs: Seq<Run>, group: int) -> Seq<u64> {
    sequences.subrange(runs[32 * group].start as int, group_end(runs, group))
}

/// Whether a pass over runs comes upon a repeat in a group.
spec fn pass_stops(sequences: Seq<u64>, runs: Seq<Run>, group: int, sequence: u64) -> bool {
    &&& 0 <= group
    &&& 32 * group < runs.len()
    &&& forall|k: int| 0 <= k < group ==> !has_repeats(#[trigger] group_rows(sequences, runs, k))
    &&& least_repeated(group_rows(sequences, runs, group), sequence)
}

/// Merges each group of neighbouring runs into one.
fn merge_pass(channel: u32, sequences: &Vec<u64>, order: &Vec<usize>, runs: &Vec<Run>) -> (r: Result<
    (Vec<usize>, Vec<Run>),
    ProductionError,
>)
    requires
        is_arrangement(order@, sequences@.len() as int),
        runs_ok(sequences@, order@, runs@),
        at_home(order@, runs@),
    ensures
        match r {
            Ok((merged, next)) => {
                &&& is_arrangement(merged@, sequences@.len() as int)
                &&& runs_ok(sequences@, merged@, next@)
                &&& at_home(merged@, next@)
                &&& next@.len() == (runs@.len() + 31) / 32
                &&& forall|k: int|
                    0 <= k < next@.len() ==> (#[trigger] next@[k]).start == runs@[32 * k].start
                        && next@[k].end == group_end(runs@, k)
            },
            Err(error) => {
                &&& error@ is AmbiguousSequence
                &&& error@->AmbiguousSequence_channel == channel
                &&& exists|group: int| #[trigger]
                    pass_stops(
                        sequences@,
                        runs@,
                        group,
                        error@->AmbiguousSequence_sequence,
                    )
            },
        },
{
    let mut merged: Vec<usize> = Vec::new();
    let mut next: Vec<Run> = Vec::new();
    let ghost mut places: Seq<int> = Seq::empty();
    let mut first: usize = 0;
    proof {
        reveal(merged_ok);
    }
    while first < runs.len()
        invariant
            is_arrangement(order@, sequences@.len() as int),
            runs_ok(sequences@, order@, runs@),
            at_home(order@, runs@),
            at_home(merged@, next@),
            forall|k: int|
                0 <= k < next@.len() ==> (#[trigger] next@[k]).start == runs@[32 * k].start
                    && next@[k].end == group_end(runs@, k),
            forall|k: int|
                0 <= k < next@.len() ==> !has_repeats(#[trigger] group_rows(sequences@, runs@, k)),
            first <= runs@.len(),
            first % 32 == 0 || first == runs@.len(),
            next@.len() == (first + 31) / 32,
            picked(order@, merged@, places),
            forall|p: int| #[trigger]
                places.contains(p) <==> 0 <= p < (if first < runs@.len() {
                    runs@[first as int].start as int
                } else {
                    order@.len() as int
                }),
            merged@.len() == (if first < runs@.len() {
                runs@[first as int].start as int
            } else {
                order@.len() as int
            }),
            merged_ok(sequences@, merged@, next@),
        decreases runs@.len() - first,
    {
        let last: usize = if runs.len() - first > FAN_IN {
            first + FAN_IN
        } else {
            runs.len()
        };
        let start: usize = merged.len();
        let ghost old_merged = merged@;
        let ghost old_next = next@;
        match merge_group(
            channel,
            sequences,
            order,
            runs,
            first,
            last,
            &mut merged,
            Ghost(places),
        ) {
            Ok(found) => {
                proof {
                    places = found@;
                }
            },
            Err(error) => {
                proof {
                    let group = next@.len() as int;
                    assert(32 * group == first);
                    assert(group_end(runs@, group) == runs@[last - 1].end);
                    assert(pass_stops(
                        sequences@,
                        runs@,
                        group,
                        error@->AmbiguousSequence_sequence,
                    ));
                }
                return Err(error);
            },
        }
        next.push(Run { start, end: merged.len() });
        proof {
            let group = old_next.len() as int;
            assert(32 * group == first);
            assert(group_end(runs@, group) == runs@[last - 1].end);
            assert(runs@[last - 1].start < runs@[last - 1].end);
            if last < runs@.len() {
                assert(runs@[last - 1].end == runs@[last as int].start);
            }
            if first < last - 1 {
                lemma_runs_apart(sequences@, order@, runs@, first as int, last - 1);
            }
            assert(start < merged@.len()) by {
                assert(runs@[first as int].start < runs@[first as int].end);
            }
            lemma_merged_run(sequences@, old_merged, merged@, old_next, next@.last());
            lemma_group_at_home(sequences@, order@, runs@, first as int, last as int);
            assert(!has_repeats(group_rows(sequences@, runs@, group))) by {
                lemma_picked_once(order@, merged@, places);
                lemma_ascending_range(sequences@, merged@, start as int, merged@.len() as int);
            }
            assert forall|k: int| 0 <= k < next@.len() implies stays_within(
                merged@,
                (#[trigger] next@[k]).start as int,
                next@[k].end as int,
            ) by {
                if k < group {
                    assert(next@[k] == old_next[k]);
                    assert(old_next[k].end <= old_merged.len()) by {
                        reveal(merged_ok);
                    }
                    assert(stays_within(
                        old_merged,
                        old_next[k].start as int,
                        old_next[k].end as int,
                    ));
                    assert forall|i: int| next@[k].start <= i < next@[k].end implies next@[k].start
                        <= #[trigger] merged@[i] < next@[k].end by {
                        assert(merged@.take(old_merged.len() as int)[i] == merged@[i]);
                        assert(next@[k].start <= old_merged[i] < next@[k].end);
                    }
                }
            }
        }
        first = last;
    }
    proof {
        reveal(merged_ok);
        lemma_picked_once(order@, merged@, places);
        assert forall|i: int| 0 <= i < merged@.len() implies #[trigger] merged@[i]
            < sequences@.len() by {
            assert(merged@[i] == order@[places[i]]);
        }
    }
    Ok((merged, next))
}

/// Whether each run holds so many natural runs, the last of them what is left.
spec fn leveled(sequences: Seq<u64>, runs: Seq<Run>, width: nat) -> bool {
    &&& 0 < width
    &&& run_starts(sequences).len() <= runs.len() * width
    &&& forall|k: int|
        0 <= k < runs.len() ==> (#[trigger] runs[k]).start == run_bound(sequences, k * width)
            && runs[k].end == run_bound(sequences, (k + 1) * width)
}

proof fn lemma_at_least(a: int, b: int, width: int)
    requires
        a <= b,
        0 <= width,
    ensures
        a * width <= b * width,
{
    assert(a * width <= b * width) by (nonlinear_arith)
        requires
            a <= b,
            0 <= width,
    ;
}

/// The groups of leveled runs are those of the next width.
proof fn lemma_group_bounds(
    sequences: Seq<u64>,
    order: Seq<usize>,
    runs: Seq<Run>,
    width: nat,
    group: int,
)
    requires
        runs_ok(sequences, order, runs),
        order.len() == sequences.len(),
        leveled(sequences, runs, width),
        0 <= group,
        32 * group < runs.len(),
    ensures
        runs[32 * group].start == run_bound(sequences, group * (32 * width)),
        group_end(runs, group) == run_bound(sequences, (group + 1) * (32 * width)),
{
    assert((32 * group) * width == group * (32 * width)) by (nonlinear_arith);
    assert((32 * (group + 1)) * width == (group + 1) * (32 * width)) by (nonlinear_arith);
    if 32 * (group + 1) < runs.len() {
        assert((32 * (group + 1) - 1) + 1 == 32 * (group + 1));
        assert(runs[32 * (group + 1) - 1].end == run_bound(
            sequences,
            ((32 * (group + 1) - 1) + 1) * width,
        ));
    } else {
        lemma_at_least(runs.len() as int, 32 * (group + 1), width as int);
    }
}

proof fn lemma_next_level(
    sequences: Seq<u64>,
    order: Seq<usize>,
    runs: Seq<Run>,
    width: nat,
    next: Seq<Run>,
)
    requires
        runs_ok(sequences, order, runs),
        order.len() == sequences.len(),
        leveled(sequences, runs, width),
        next.len() == (runs.len() + 31) / 32,
        forall|k: int|
            0 <= k < next.len() ==> (#[trigger] next[k]).start == runs[32 * k].start && next[k].end
                == group_end(runs, k),
    ensures
        leveled(sequences, next, 32 * width),
{
    assert forall|k: int| 0 <= k < next.len() implies (#[trigger] next[k]).start == run_bound(
        sequences,
        k * (32 * width),
    ) && next[k].end == run_bound(sequences, (k + 1) * (32 * width)) by {
        lemma_group_bounds(sequences, order, runs, width, k);
    }
    let n = next.len() as int;
    assert((32 * n) * width == n * (32 * width)) by (nonlinear_arith);
    lemma_at_least(runs.len() as int, 32 * n, width as int);
}

/// What a pass over leveled runs comes upon.
proof fn lemma_repeat_found(
    sequences: Seq<u64>,
    order: Seq<usize>,
    runs: Seq<Run>,
    passes: nat,
    group: int,
    sequence: u64,
)
    requires
        is_arrangement(order, sequences.len() as int),
        runs_ok(sequences, order, runs),
        at_home(order, runs),
        leveled(sequences, runs, merge_width(passes)),
        pass_stops(sequences, runs, group, sequence),
    ensures
        repeat_found(sequences, passes, group, sequence),
        has_repeats(sequences),
{
    let width = merge_width(passes);
    assert(merge_width(passes + 1) == 32 * width);
    assert forall|k: int| 0 <= k implies !has_repeats(#[trigger] run_group(sequences, width, k)) by {
        if k < runs.len() {
            assert(runs[k].start < runs[k].end <= order.len());
            lemma_ascending_range(sequences, order, runs[k].start as int, runs[k].end as int);
        } else {
            lemma_at_least(runs.len() as int, k, width as int);
            lemma_at_least(runs.len() as int, k + 1, width as int);
            assert(run_group(sequences, width, k).len() == 0);
        }
    }
    assert forall|k: int| 0 <= k < group implies !has_repeats(
        #[trigger] run_group(sequences, merge_width(passes + 1), k),
    ) by {
        lemma_group_bounds(sequences, order, runs, width, k);
        assert(!has_repeats(group_rows(sequences, runs, k)));
    }
    lemma_group_bounds(sequences, order, runs, width, group);
    assert(repeat_found(sequences, passes, group, sequence));
    let start = runs[32 * group].start as int;
    let rows = group_rows(sequences, runs, group);
    let (i, j) = choose|i: int, j: int| #[trigger] repeats(rows, i, j) && rows[i] == sequence;
    let last = if 32 * (group + 1) < runs.len() {
        32 * (group + 1) - 1
    } else {
        runs.len() - 1
    };
    assert(runs[last].start < runs[last].end <= order.len());
    if 32 * group < last {
        lemma_runs_apart(sequences, order, runs, 32 * group, last);
        assert(runs[32 * group].start < runs[32 * group].end);
    }
    assert(repeats(sequences, start + i, start + j));
}

proof fn lemma_run_bounds(sequences: Seq<u64>, i: int, j: int)
    requires
        no_adjacent_repeats(sequences),
        0 <= i <= j,
    ensures
        0 <= run_bound(sequences, i) <= run_bound(sequences, j) <= sequences.len(),
    decreases j - i,
{
    lemma_run_starts(sequences);
    let starts = run_starts(sequences);
    if i < starts.len() {
        assert(0 <= starts[i] < run_end(sequences, i) <= sequences.len());
    }
    if i < j {
        lemma_run_bounds(sequences, i + 1, j);
        assert(run_end(sequences, i) == run_bound(sequences, i + 1));
    }
}

/// What a wide group does not repeat, no group within it repeats.
proof fn lemma_narrower(sequences: Seq<u64>, width: nat, k: int)
    requires
        no_adjacent_repeats(sequences),
        0 <= k,
        !has_repeats(run_group(sequences, 32 * width, k / 32)),
    ensures
        !has_repeats(run_group(sequences, width, k)),
{
    let g = k / 32;
    assert(g * (32 * width) == (32 * g) * width) by (nonlinear_arith);
    assert((g + 1) * (32 * width) == (32 * (g + 1)) * width) by (nonlinear_arith);
    lemma_at_least(0, 32 * g, width as int);
    lemma_at_least(32 * g, k, width as int);
    lemma_at_least(k, k + 1, width as int);
    lemma_at_least(k + 1, 32 * (g + 1), width as int);
    lemma_run_bounds(sequences, g * (32 * width), k * width);
    lemma_run_bounds(sequences, k * width, (k + 1) * width);
    lemma_run_bounds(sequences, (k + 1) * width, (g + 1) * (32 * width));
    let inner = run_group(sequences, width, k);
    let outer = run_group(sequences, 32 * width, g);
    let offset = run_bound(sequences, k * width) - run_bound(sequences, g * (32 * width));
    if has_repeats(inner) {
        let (i, j) = choose|i: int, j: int| repeats(inner, i, j);
        assert(repeats(outer, offset + i, offset + j));
    }
}

proof fn lemma_earlier_passes(sequences: Seq<u64>, fine: nat, coarse: nat)
    requires
        no_adjacent_repeats(sequences),
        fine <= coarse,
        forall|k: int|
            0 <= k ==> !has_repeats(#[trigger] run_group(sequences, merge_width(coarse), k)),
    ensures
        forall|k: int|
            0 <= k ==> !has_repeats(#[trigger] run_group(sequences, merge_width(fine), k)),
    decreases coarse - fine,
{
    if fine < coarse {
        lemma_earlier_passes(sequences, fine + 1, coarse);
        assert forall|k: int| 0 <= k implies !has_repeats(
            #[trigger] run_group(sequences, merge_width(fine), k),
        ) by {
            assert(!has_repeats(run_group(sequences, merge_width(fine + 1), k / 32)));
            lemma_narrower(sequences, merge_width(fine), k);
        }
    }
}

/// A sequence that a group repeats is a repeat of that group.
proof fn lemma_least_repeats(sequences: Seq<u64>, sequence: u64)
    requires
        least_repeated(sequences, sequence),
    ensures
        has_repeats(sequences),
{
    let (i, j) = choose|i: int, j: int| #[trigger]
        repeats(sequences, i, j) && sequences[i] == sequence;
    assert(repeats(sequences, i, j));
}

/// There is one repeat only upon which merging comes first: an error is determined by the
/// sequences.
pub proof fn first_repeats_are_unique(sequences: Seq<u64>, a: u64, b: u64)
    requires
        no_adjacent_repeats(sequences),
        first_repeat(sequences, a),
        first_repeat(sequences, b),
    ensures
        a == b,
{
    let (p, g) = choose|p: nat, g: int| #[trigger] repeat_found(sequences, p, g, a);
    let (q, h) = choose|q: nat, h: int| #[trigger] repeat_found(sequences, q, h, b);
    lemma_least_repeats(run_group(sequences, merge_width(p + 1), g), a);
    lemma_least_repeats(run_group(sequences, merge_width(q + 1), h), b);
    if p < q {
        lemma_earlier_passes(sequences, p + 1, q);
    } else if q < p {
        lemma_earlier_passes(sequences, q + 1, p);
    } else if g < h {
        assert(!has_repeats(run_group(sequences, merge_width(p + 1), g)));
    } else if h < g {
        assert(!has_repeats(run_group(sequences, merge_width(p + 1), h)));
    }
}

impl NaturalRuns {
    /// The order in which the rows ascend by sequence, found by merging the natural runs, and
    /// what it took; nothing where the rows ascend already. A sequence that occurs twice is
    /// ambiguous.
    pub fn repair(&self, channel: u32, stream: &str, sequences: &Vec<u64>) -> (r: Result<
        Option<(Vec<usize>, SequenceRepair)>,
        ProductionError,
    >)
        requires
            sequences@ == self@,
        ensures
            match r {
                Ok(None) => run_starts(self@).len() <= 1 && !has_repeats(self@),
                Ok(Some((order, repair))) => {
                    &&& run_starts(self@).len() > 1
                    &&& !has_repeats(self@)
                    &&& is_arrangement(order@, self@.len() as int)
                    &&& ascends(self@, order@, 0, order@.len() as int)
                    &&& repair.channel == channel
                    &&& repair.stream@ == stream@
                    &&& repair.rows == self@.len()
                    &&& repair.natural_runs == run_starts(self@).len()
                    &&& repair.merge_passes == passes_for(run_starts(self@).len())
                },
                Err(error) => {
                    &&& has_repeats(self@)
                    &&& error@ is AmbiguousSequence
                    &&& error@->AmbiguousSequence_channel == channel
                    &&& first_repeat(self@, error@->AmbiguousSequence_sequence)
                },
            },
    {
        proof {
            use_type_invariant(self);
            lemma_run_starts(self@);
        }
        let mut order: Vec<usize> = Vec::new();
        let mut at: usize = 0;
        while at < sequences.len()
            invariant
                at <= sequences@.len(),
                order@.len() == at,
                forall|i: int| 0 <= i < at ==> #[trigger] order@[i] == i,
            decreases sequences@.len() - at,
        {
            order.push(at);
            at = at + 1;
        }
        if self.starts.len() <= 1 {
            proof {
                if self@.len() > 0 {
                    assert(run_starts(self@)[0] == 0);
                }
                assert(ascends(self@, order@, 0, order@.len() as int)) by {
                    assert forall|i: int, j: int| 0 <= i < j < order@.len() implies self@[
                    #[trigger] order@[i] as int] < self@[#[trigger] order@[j] as int] by {
                        assert(ascends_between(
                            self@,
                            run_starts(self@)[0],
                            run_end(self@, 0),
                        ));
                        assert(self@[i] < self@[j]);
                    }
                }
                lemma_ascending_unique(self@, order@);
            }
            return Ok(None);
        }
        let mut runs: Vec<Run> = Vec::new();
        let mut k: usize = 0;
        let ghost starts = run_starts(self@);
        while k < self.starts.len()
            invariant
                starts == run_starts(self@),
                k <= self.starts@.len(),
                self.starts@.len() == starts.len(),
                self.rows == self@.len(),
                forall|i: int| 0 <= i < self.starts@.len() ==> #[trigger] self.starts@[i] == starts[i],
                runs@.len() == k,
                forall|i: int|
                    0 <= i < k ==> (#[trigger] runs@[i]).start == starts[i] && runs@[i].end == (if i
                        + 1 < starts.len() {
                        starts[i + 1]
                    } else {
                        self@.len() as int
                    }),
            decreases self.starts@.len() - k,
        {
            let end: usize = if k + 1 < self.starts.len() {
                self.starts[k + 1]
            } else {
                self.rows
            };
            runs.push(Run { start: self.starts[k], end });
            k = k + 1;
        }
        proof {
            assert forall|k: int| 0 <= k < runs@.len() implies {
                &&& (#[trigger] runs@[k]).start < runs@[k].end <= order@.len()
                &&& ascends(self@, order@, runs@[k].start as int, runs@[k].end as int)
            } by {
                assert(0 <= starts[k] < run_end(self@, k));
                assert(ascends_between(self@, starts[k], run_end(self@, k)));
                assert forall|i: int, j: int| runs@[k].start <= i < j < runs@[k].end implies self@[
                #[trigger] order@[i] as int] < self@[#[trigger] order@[j] as int] by {
                    assert(self@[i] < self@[j]);
                }
            }
        }
        proof {
            assert(at_home(order@, runs@));
            assert(leveled(sequences@, runs@, merge_width(0)));
        }
        let ghost count = runs@.len();
        let natural_runs: usize = self.starts.len();
        let mut passes: usize = 0;
        while runs.len() > 1
            invariant
                sequences@ == self@,
                is_arrangement(order@, sequences@.len() as int),
                runs_ok(sequences@, order@, runs@),
                at_home(order@, runs@),
                leveled(sequences@, runs@, merge_width(passes as nat)),
                passes + passes_for(runs@.len()) == passes_for(count),
                passes + runs@.len() <= count,
                count == run_starts(self@).len(),
                count == natural_runs,
            decreases runs@.len(),
        {
            match merge_pass(channel, sequences, &order, &runs) {
                Ok((merged, next)) => {
                    proof {
                        lemma_next_level(
                            sequences@,
                            order@,
                            runs@,
                            merge_width(passes as nat),
                            next@,
                        );
                    }
                    passes = passes + 1;
                    order = merged;
                    runs = next;
                },
                Err(error) => {
                    proof {
                        let sequence = error@->AmbiguousSequence_sequence;
                        let group = choose|group: int| #[trigger]
                            pass_stops(sequences@, runs@, group, sequence);
                        lemma_repeat_found(
                            sequences@,
                            order@,
                            runs@,
                            passes as nat,
                            group,
                            sequence,
                        );
                    }
                    return Err(error);
                },
            }
        }
        proof {
            assert(ascends(sequences@, order@, runs@[0].start as int, runs@[0].end as int));
            lemma_ascending_unique(self@, order@);
        }
        Ok(
            Some(
                (
                    order,
                    SequenceRepair {
                        channel,
                        stream: String::from_str(stream),
                        rows: self.rows as u64,
                        natural_runs,
                        merge_passes: passes,
                    },
                ),
            ),
        )
    }
}

/// Whether bytes are a header and rows of one size.
pub open spec fn is_framed(bytes: Seq<u8>, header: int, row_bytes: int, rows: int) -> bool {
    0 <= header && 0 < row_bytes && 0 <= rows && bytes.len() == header + rows * row_bytes
}

/// One row of framed bytes.
pub open spec fn framed_row(bytes: Seq<u8>, header: int, row_bytes: int, at: int) -> Seq<u8> {
    bytes.subrange(header + at * row_bytes, header + (at + 1) * row_bytes)
}

proof fn lemma_row_range(header: int, row_bytes: int, rows: int, at: int)
    requires
        0 <= header,
        0 < row_bytes,
        0 <= at < rows,
    ensures
        0 <= header + at * row_bytes,
        header + at * row_bytes + row_bytes == header + (at + 1) * row_bytes,
        header + (at + 1) * row_bytes <= header + rows * row_bytes,
{
    assert((at + 1) * row_bytes == at * row_bytes + row_bytes) by (nonlinear_arith);
    assert(0 <= at * row_bytes) by (nonlinear_arith)
        requires
            0 <= at,
            0 < row_bytes,
    ;
    assert((at + 1) * row_bytes <= rows * row_bytes) by (nonlinear_arith)
        requires
            at + 1 <= rows,
            0 < row_bytes,
    ;
}

/// Framed bytes with their rows in another order: every row is kept byte by byte.
pub fn reordered(bytes: &Vec<u8>, header: usize, row_bytes: usize, order: &Vec<usize>) -> (r: Vec<u8>)
    requires
        is_framed(bytes@, header as int, row_bytes as int, order@.len() as int),
        forall|i: int| 0 <= i < order@.len() ==> #[trigger] order@[i] < order@.len(),
    ensures
        is_framed(r@, header as int, row_bytes as int, order@.len() as int),
        r@.take(header as int) == bytes@.take(header as int),
        forall|i: int|
            0 <= i < order@.len() ==> #[trigger] framed_row(
                r@,
                header as int,
                row_bytes as int,
                i,
            ) == framed_row(bytes@, header as int, row_bytes as int, order@[i] as int),
{
    let mut r: Vec<u8> = Vec::new();
    let size: usize = bytes.len();
    let ghost rows = order@.len() as int;
    proof {
        assert(0 <= rows * row_bytes) by (nonlinear_arith)
            requires
                0 <= rows,
                0 < row_bytes,
        ;
    }
    let mut at: usize = 0;
    while at < header
        invariant
            at <= header <= bytes@.len(),
            r@ == bytes@.take(at as int),
        decreases header - at,
    {
        r.push(bytes[at]);
        assert(r@ =~= bytes@.take(at + 1));
        at = at + 1;
    }
    let mut row: usize = 0;
    assert(0 * row_bytes == 0);
    while row < order.len()
        invariant
            is_framed(bytes@, header as int, row_bytes as int, rows),
            size == bytes@.len(),
            rows == order@.len(),
            forall|i: int| 0 <= i < order@.len() ==> #[trigger] order@[i] < order@.len(),
            row <= rows,
            header <= bytes@.len(),
            r@.len() == header + row * row_bytes,
            r@.take(header as int) == bytes@.take(header as int),
            forall|i: int|
                0 <= i < row ==> #[trigger] framed_row(r@, header as int, row_bytes as int, i)
                    == framed_row(bytes@, header as int, row_bytes as int, order@[i] as int),
        decreases rows - row,
    {
        let ghost before = r@;
        let source: usize = order[row];
        proof {
            lemma_row_range(header as int, row_bytes as int, rows, source as int);
            lemma_row_range(header as int, row_bytes as int, rows, row as int);
        }
        assert(header + source * row_bytes + row_bytes <= size);
        let start: usize = header + source * row_bytes;
        let mut offset: usize = 0;
        while offset < row_bytes
            invariant
                offset <= row_bytes,
                start + row_bytes <= size,
                size == bytes@.len(),
                r@ == before + bytes@.subrange(start as int, start + offset),
            decreases row_bytes - offset,
        {
            r.push(bytes[start + offset]);
            assert(r@ =~= before + bytes@.subrange(start as int, start + offset + 1));
            offset = offset + 1;
        }
        proof {
            assert(r@.take(header as int) =~= before.take(header as int));
            assert forall|i: int| 0 <= i < row + 1 implies #[trigger] framed_row(
                r@,
                header as int,
                row_bytes as int,
                i,
            ) == framed_row(bytes@, header as int, row_bytes as int, order@[i] as int) by {
                if i < row {
                    lemma_row_range(header as int, row_bytes as int, row as int, i);
                    assert(framed_row(r@, header as int, row_bytes as int, i) =~= framed_row(
                        before,
                        header as int,
                        row_bytes as int,
                        i,
                    ));
                } else {
                    assert(framed_row(r@, header as int, row_bytes as int, i) =~= framed_row(
                        bytes@,
                        header as int,
                        row_bytes as int,
                        order@[i] as int,
                    ));
                }
            }
        }
        row = row + 1;
    }
    r
}

} // verus!
