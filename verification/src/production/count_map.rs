//! Counts by text, in the order of the texts.

use vstd::prelude::*;
use vstd::string::StringExecFns;

use crate::text::{
    same_text, text_before, text_less, text_order_is_total, text_order_is_transitive,
};

verus! {

/// A count for each text that occurred, in ascending order of the texts.
#[derive(Debug, PartialEq, Eq)]
pub struct CountMap {
    entries: Vec<(String, u64)>,
}

/// The place of a text among entries.
spec fn entry_at(entries: Seq<(String, u64)>, text: Seq<char>, i: int) -> bool {
    0 <= i < entries.len() && entries[i].0@ == text
}

spec fn has_entry(entries: Seq<(String, u64)>, text: Seq<char>) -> bool {
    exists|i: int| entry_at(entries, text, i)
}

spec fn entry_count(entries: Seq<(String, u64)>, text: Seq<char>) -> u64 {
    entries[choose|i: int| entry_at(entries, text, i)].1
}

impl View for CountMap {
    type V = Map<Seq<char>, u64>;

    closed spec fn view(&self) -> Map<Seq<char>, u64> {
        Map::new(
            |text: Seq<char>| has_entry(self.entries@, text),
            |text: Seq<char>| entry_count(self.entries@, text),
        )
    }
}

/// A count with one occurrence more.
pub open spec fn incremented(counts: Map<Seq<char>, u64>, text: Seq<char>) -> Map<Seq<char>, u64> {
    counts.insert(
        text,
        if counts.contains_key(text) {
            (counts[text] + 1) as u64
        } else {
            1
        },
    )
}

/// Whether a text has occurred as often as can be counted.
pub open spec fn is_full(counts: Map<Seq<char>, u64>, text: Seq<char>) -> bool {
    counts.contains_key(text) && counts[text] == u64::MAX
}

impl Clone for CountMap {
    fn clone(&self) -> (r: Self)
        ensures
            r@ == self@,
            self.wf() ==> r.wf(),
    {
        let mut entries: Vec<(String, u64)> = Vec::new();
        let mut at: usize = 0;
        while at < self.entries.len()
            invariant
                at <= self.entries@.len(),
                entries@.len() == at,
                forall|i: int| 0 <= i < at ==> (#[trigger] entries@[i]) == self.entries@[i],
            decreases self.entries@.len() - at,
        {
            let entry = &self.entries[at];
            entries.push((entry.0.clone(), entry.1));
            at = at + 1;
        }
        assert(entries@ =~= self.entries@);
        CountMap { entries }
    }
}

impl CountMap {
    /// The texts are in ascending order.
    pub closed spec fn wf(self) -> bool {
        forall|i: int, j: int|
            0 <= i < j < self.entries@.len() ==> text_less(
                (#[trigger] self.entries@[i]).0@,
                (#[trigger] self.entries@[j]).0@,
            )
    }

    /// The entries in ascending order of their texts.
    pub closed spec fn spec_entries(self) -> Seq<(String, u64)> {
        self.entries@
    }

    proof fn lemma_entry(&self, i: int)
        requires
            self.wf(),
            0 <= i < self.entries@.len(),
        ensures
            self@.contains_key(self.entries@[i].0@),
            self@[self.entries@[i].0@] == self.entries@[i].1,
    {
        let text = self.entries@[i].0@;
        assert(entry_at(self.entries@, text, i));
        let j = choose|j: int| entry_at(self.entries@, text, j);
        if j < i {
            assert(text_less(self.entries@[j].0@, self.entries@[i].0@));
            text_order_is_total(text, text);
        }
        if i < j {
            assert(text_less(self.entries@[i].0@, self.entries@[j].0@));
            text_order_is_total(text, text);
        }
    }

    #[must_use]
    pub fn new() -> (r: Self)
        ensures
            r.wf(),
            r@ == Map::<Seq<char>, u64>::empty(),
    {
        let r = CountMap { entries: Vec::new() };
        assert(r@ =~= Map::<Seq<char>, u64>::empty());
        r
    }

    /// The entries in ascending order of their texts.
    #[must_use]
    pub fn entries(&self) -> (r: &Vec<(String, u64)>)
        requires
            self.wf(),
        ensures
            r@ == self.spec_entries(),
            forall|i: int|
                0 <= i < r@.len() ==> self@.contains_key((#[trigger] r@[i]).0@) && self@[r@[i].0@]
                    == r@[i].1,
            forall|text: Seq<char>| #[trigger]
                self@.contains_key(text) ==> exists|i: int|
                    0 <= i < r@.len() && (#[trigger] r@[i]).0@ == text,
            forall|i: int, j: int|
                0 <= i < j < r@.len() ==> text_less(
                    (#[trigger] r@[i]).0@,
                    (#[trigger] r@[j]).0@,
                ),
    {
        proof {
            assert forall|i: int| 0 <= i < self.entries@.len() implies self@.contains_key(
                (#[trigger] self.entries@[i]).0@,
            ) && self@[self.entries@[i].0@] == self.entries@[i].1 by {
                self.lemma_entry(i);
            }
            assert forall|text: Seq<char>| #[trigger] self@.contains_key(text) implies exists|i: int|
                0 <= i < self.entries@.len() && (#[trigger] self.entries@[i]).0@ == text by {
                let i = choose|i: int| entry_at(self.entries@, text, i);
                assert(self.entries@[i].0@ == text);
            }
        }
        &self.entries
    }

    /// Where a text stands, or where it would go.
    fn find(&self, text: &str) -> (r: Result<usize, usize>)
        requires
            self.wf(),
        ensures
            match r {
                Ok(at) => at < self.entries@.len() && self.entries@[at as int].0@ == text@,
                Err(at) => {
                    &&& at <= self.entries@.len()
                    &&& forall|i: int|
                        0 <= i < at ==> text_less((#[trigger] self.entries@[i]).0@, text@)
                    &&& forall|i: int|
                        at <= i < self.entries@.len() ==> text_less(
                            text@,
                            (#[trigger] self.entries@[i]).0@,
                        )
                },
            },
    {
        let mut at: usize = 0;
        while at < self.entries.len() && text_before(self.entries[at].0.as_str(), text)
            invariant
                at <= self.entries@.len(),
                forall|i: int|
                    0 <= i < at ==> text_less((#[trigger] self.entries@[i]).0@, text@),
            decreases self.entries@.len() - at,
        {
            at = at + 1;
        }
        if at < self.entries.len() && same_text(self.entries[at].0.as_str(), text) {
            return Ok(at);
        }
        proof {
            assert forall|i: int| at <= i < self.entries@.len() implies text_less(
                text@,
                (#[trigger] self.entries@[i]).0@,
            ) by {
                text_order_is_total(self.entries@[at as int].0@, text@);
                if i > at {
                    assert(text_less(self.entries@[at as int].0@, self.entries@[i].0@));
                    text_order_is_transitive(
                        text@,
                        self.entries@[at as int].0@,
                        self.entries@[i].0@,
                    );
                }
            }
        }
        Err(at)
    }

    /// How often a text has occurred.
    #[must_use]
    pub fn get(&self, text: &str) -> (r: Option<u64>)
        requires
            self.wf(),
        ensures
            r == if self@.contains_key(text@) {
                Some(self@[text@])
            } else {
                None
            },
    {
        match self.find(text) {
            Ok(at) => {
                proof {
                    self.lemma_entry(at as int);
                }
                Some(self.entries[at].1)
            },
            Err(at) => {
                proof {
                    self.lemma_absent(text@, at as int);
                }
                None
            },
        }
    }

    proof fn lemma_absent(&self, text: Seq<char>, at: int)
        requires
            0 <= at <= self.entries@.len(),
            forall|i: int| 0 <= i < at ==> text_less((#[trigger] self.entries@[i]).0@, text),
            forall|i: int|
                at <= i < self.entries@.len() ==> text_less(text, (#[trigger] self.entries@[i]).0@),
        ensures
            !self@.contains_key(text),
    {
        if self@.contains_key(text) {
            let i = choose|i: int| entry_at(self.entries@, text, i);
            text_order_is_total(text, text);
            assert(self.entries@[i].0@ == text);
        }
    }

    /// Counts a text once more. One that cannot be counted further leaves all as it was.
    pub fn increment(&mut self, text: &str) -> (r: bool)
        requires
            old(self).wf(),
        ensures
            final(self).wf(),
            r == !is_full(old(self)@, text@),
            final(self)@ == if r {
                incremented(old(self)@, text@)
            } else {
                old(self)@
            },
    {
        let ghost before = *self;
        match self.find(text) {
            Ok(at) => {
                let count: u64 = self.entries[at].1;
                proof {
                    self.lemma_entry(at as int);
                }
                if count == u64::MAX {
                    return false;
                }
                self.entries.set(at, (String::from_str(text), count + 1));
                proof {
                    assert forall|i: int, j: int| 0 <= i < j < self.entries@.len() implies text_less(
                        (#[trigger] self.entries@[i]).0@,
                        (#[trigger] self.entries@[j]).0@,
                    ) by {
                        assert(self.entries@[i].0@ == before.entries@[i].0@);
                        assert(self.entries@[j].0@ == before.entries@[j].0@);
                    }
                    self.lemma_updated(before, text@, at as int, (count + 1) as u64);
                }
                true
            },
            Err(at) => {
                proof {
                    self.lemma_absent(text@, at as int);
                }
                self.entries.insert(at, (String::from_str(text), 1));
                proof {
                    assert forall|i: int, j: int| 0 <= i < j < self.entries@.len() implies text_less(
                        (#[trigger] self.entries@[i]).0@,
                        (#[trigger] self.entries@[j]).0@,
                    ) by {
                        let i1 = if i < at {
                            i
                        } else {
                            i - 1
                        };
                        let j1 = if j < at {
                            j
                        } else {
                            j - 1
                        };
                        if i != at {
                            assert(self.entries@[i] == before.entries@[i1]);
                        }
                        if j != at {
                            assert(self.entries@[j] == before.entries@[j1]);
                        }
                    }
                    self.lemma_inserted(before, text@, at as int);
                }
                true
            },
        }
    }

    proof fn lemma_updated(&self, before: CountMap, text: Seq<char>, at: int, count: u64)
        requires
            self.wf(),
            before.wf(),
            0 <= at < before.entries@.len(),
            before.entries@[at].0@ == text,
            self.entries@.len() == before.entries@.len(),
            self.entries@[at].0@ == text && self.entries@[at].1 == count,
            forall|i: int|
                0 <= i < before.entries@.len() && i != at ==> #[trigger] self.entries@[i]
                    == before.entries@[i],
        ensures
            self@ == before@.insert(text, count),
    {
        assert forall|other: Seq<char>| self@.contains_key(other) == before@.insert(
            text,
            count,
        ).contains_key(other) by {
            if self@.contains_key(other) {
                let i = choose|i: int| entry_at(self.entries@, other, i);
                assert(entry_at(before.entries@, other, i));
            }
            if before@.contains_key(other) {
                let i = choose|i: int| entry_at(before.entries@, other, i);
                assert(entry_at(self.entries@, other, i));
            }
            if other == text {
                assert(entry_at(self.entries@, other, at));
            }
        }
        assert forall|other: Seq<char>| #[trigger] self@.contains_key(other) implies self@[other]
            == before@.insert(text, count)[other] by {
            let i = choose|i: int| entry_at(self.entries@, other, i);
            self.lemma_entry(i);
            if i != at {
                before.lemma_entry(i);
                if other == text {
                    self.lemma_entry(at);
                    if i < at {
                        assert(text_less(self.entries@[i].0@, self.entries@[at].0@));
                    } else {
                        assert(text_less(self.entries@[at].0@, self.entries@[i].0@));
                    }
                    text_order_is_total(text, text);
                }
            }
        }
        assert(self@ =~= before@.insert(text, count));
    }

    proof fn lemma_inserted(&self, before: CountMap, text: Seq<char>, at: int)
        requires
            self.wf(),
            before.wf(),
            0 <= at <= before.entries@.len(),
            !before@.contains_key(text),
            self.entries@.len() == before.entries@.len() + 1,
            self.entries@[at].0@ == text && self.entries@[at].1 == 1,
            forall|i: int| 0 <= i < at ==> #[trigger] self.entries@[i] == before.entries@[i],
            forall|i: int|
                at < i < self.entries@.len() ==> #[trigger] self.entries@[i] == before.entries@[i
                    - 1],
        ensures
            self@ == before@.insert(text, 1),
    {
        assert forall|other: Seq<char>| self@.contains_key(other) == before@.insert(
            text,
            1,
        ).contains_key(other) by {
            if self@.contains_key(other) && other != text {
                let i = choose|i: int| entry_at(self.entries@, other, i);
                assert(entry_at(
                    before.entries@,
                    other,
                    if i < at {
                        i
                    } else {
                        i - 1
                    },
                ));
            }
            if before@.contains_key(other) {
                let i = choose|i: int| entry_at(before.entries@, other, i);
                let j = if i < at {
                    i
                } else {
                    i + 1
                };
                assert(self.entries@[j] == before.entries@[i]);
                assert(entry_at(self.entries@, other, j));
            }
            if other == text {
                assert(entry_at(self.entries@, other, at));
            }
        }
        assert forall|other: Seq<char>| #[trigger] self@.contains_key(other) implies self@[other]
            == before@.insert(text, 1)[other] by {
            if other == text {
                self.lemma_entry(at);
            } else {
                let i = choose|i: int| entry_at(self.entries@, other, i);
                self.lemma_entry(i);
                before.lemma_entry(
                    if i < at {
                        i
                    } else {
                        i - 1
                    },
                );
            }
        }
        assert(self@ =~= before@.insert(text, 1));
    }
}

} // verus!
