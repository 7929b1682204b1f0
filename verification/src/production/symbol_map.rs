//! Values by symbol.

use std::collections::hash_map::RandomState;

use vstd::prelude::*;
use vstd::string::StringExecFns;

use crate::text::{text_before, text_less, text_order_is_total, text_order_is_transitive};

verus! {

/// Places of symbols: a hash map of the `hashbrown` crate, held as an opaque value.
#[verifier::external_body]
pub struct SymbolIndex {
    places: hashbrown::HashMap<String, usize, RandomState>,
}

/// The places, by symbol.
pub uninterp spec fn indexed_places(index: SymbolIndex) -> Map<Seq<char>, usize>;

/// `hashbrown::HashMap::default`: no symbol has a place.
#[verifier::external_body]
fn new_index() -> (r: SymbolIndex)
    ensures
        indexed_places(r).dom() == Set::<Seq<char>>::empty(),
{
    SymbolIndex { places: hashbrown::HashMap::default() }
}

/// `hashbrown::HashMap::get`: the place of a symbol, if it has one.
#[verifier::external_body]
fn index_get(index: &SymbolIndex, symbol: &str) -> (r: Option<usize>)
    ensures
        r is Some <==> indexed_places(*index).contains_key(symbol@),
        r is Some ==> r->0 == indexed_places(*index)[symbol@],
{
    index.places.get(symbol).copied()
}

/// `hashbrown::HashMap::entry_ref` and `EntryRef::or_insert`: the place of a symbol, which
/// is the given one where it had none; all other places stay.
#[verifier::external_body]
fn index_or_insert(index: &mut SymbolIndex, symbol: &str, place: usize) -> (r: usize)
    ensures
        r == if indexed_places(*old(index)).contains_key(symbol@) {
            indexed_places(*old(index))[symbol@]
        } else {
            place
        },
        indexed_places(*final(index)) == if indexed_places(*old(index)).contains_key(symbol@) {
            indexed_places(*old(index))
        } else {
            indexed_places(*old(index)).insert(symbol@, place)
        },
{
    *index.places.entry_ref(symbol).or_insert(place)
}

/// A value for each symbol that was given one.
pub struct SymbolMap<T> {
    index: SymbolIndex,
    entries: Vec<(String, T)>,
}

/// Whether texts are in ascending order, each once.
pub open spec fn ascending(texts: Seq<Seq<char>>) -> bool {
    forall|i: int, j: int|
        0 <= i < j < texts.len() ==> text_less(#[trigger] texts[i], #[trigger] texts[j])
}

/// The texts of owned strings.
pub open spec fn string_views(strings: Seq<String>) -> Seq<Seq<char>> {
    strings.map_values(|s: String| s@)
}

impl<T> View for SymbolMap<T> {
    type V = Map<Seq<char>, T>;

    closed spec fn view(&self) -> Map<Seq<char>, T> {
        Map::new(
            |symbol: Seq<char>| indexed_places(self.index).contains_key(symbol),
            |symbol: Seq<char>| self.entries@[indexed_places(self.index)[symbol] as int].1,
        )
    }
}

impl<T> SymbolMap<T> {
    /// Index and entries agree.
    pub closed spec fn wf(self) -> bool {
        &&& forall|symbol: Seq<char>| #[trigger]
            indexed_places(self.index).contains_key(symbol) ==> {
                let place = indexed_places(self.index)[symbol];
                place < self.entries@.len() && self.entries@[place as int].0@ == symbol
            }
        &&& forall|i: int|
            0 <= i < self.entries@.len() ==> {
                let symbol = (#[trigger] self.entries@[i]).0@;
                indexed_places(self.index).contains_key(symbol)
                    && indexed_places(self.index)[symbol] == i
            }
    }

    #[must_use]
    pub fn new() -> (r: Self)
        ensures
            r.wf(),
            r@ == Map::<Seq<char>, T>::empty(),
    {
        let r = SymbolMap { index: new_index(), entries: Vec::new() };
        assert(r@ =~= Map::<Seq<char>, T>::empty());
        r
    }

    #[must_use]
    pub fn len(&self) -> (r: usize)
        requires
            self.wf(),
        ensures
            self@.dom().finite(),
            r == self@.len(),
    {
        proof {
            self.lemma_len();
        }
        self.entries.len()
    }

    proof fn lemma_len(&self)
        requires
            self.wf(),
        ensures
            self@.dom().finite(),
            self.entries@.len() == self@.len(),
    {
        let places = Set::new(|i: int| 0 <= i < self.entries@.len());
        vstd::set_lib::lemma_int_range(0, self.entries@.len() as int);
        assert(places =~= vstd::set_lib::set_int_range(0, self.entries@.len() as int));
        let symbol_at = |i: int| self.entries@[i].0@;
        assert(vstd::relations::injective_on(symbol_at, places)) by {
            assert forall|i: int, j: int|
                places.contains(i) && places.contains(j) && #[trigger] symbol_at(i)
                    == #[trigger] symbol_at(j) implies i == j by {
                assert(self.entries@[i].0@ == self.entries@[j].0@);
            }
        }
        assert(places.map(symbol_at) =~= self@.dom()) by {
            assert forall|symbol: Seq<char>| self@.dom().contains(symbol) implies places.map(
                symbol_at,
            ).contains(symbol) by {
                let place = indexed_places(self.index)[symbol] as int;
                assert(places.contains(place) && symbol_at(place) == symbol);
            }
            assert forall|symbol: Seq<char>| places.map(symbol_at).contains(
                symbol,
            ) implies self@.dom().contains(symbol) by {
                let i = choose|i: int| places.contains(i) && symbol == symbol_at(i);
                assert(self.entries@[i].0@ == symbol);
            }
        }
        vstd::set_lib::lemma_map_size(places, self@.dom(), symbol_at);
    }

    #[must_use]
    pub fn contains_key(&self, symbol: &str) -> (r: bool)
        requires
            self.wf(),
        ensures
            r == self@.contains_key(symbol@),
    {
        index_get(&self.index, symbol).is_some()
    }

    pub fn get(&self, symbol: &str) -> (r: Option<&T>)
        requires
            self.wf(),
        ensures
            r is Some <==> self@.contains_key(symbol@),
            r is Some ==> *r->0 == self@[symbol@],
    {
        match index_get(&self.index, symbol) {
            Some(place) => Some(&self.entries[place].1),
            None => None,
        }
    }

    /// Access to the value of a symbol that has one.
    pub fn get_mut(&mut self, symbol: &str) -> (r: &mut T)
        requires
            old(self).wf(),
            old(self)@.contains_key(symbol@),
        ensures
            *r == old(self)@[symbol@],
            final(self).wf(),
            final(self).symbols() == old(self).symbols(),
            final(self)@ == old(self)@.insert(symbol@, *final(r)),
    {
        let place: usize = match index_get(&self.index, symbol) {
            Some(place) => place,
            None => 0,
        };
        &mut self.entries[place].1
    }

    /// The symbols, in the order in which they were given values.
    pub closed spec fn symbols(self) -> Seq<Seq<char>> {
        self.entries@.map_values(|entry: (String, T)| entry.0@)
    }

    /// The symbols are those that have a value, each once.
    pub proof fn lemma_symbols(&self)
        requires
            self.wf(),
        ensures
            forall|i: int|
                0 <= i < self.symbols().len() ==> self@.contains_key(#[trigger] self.symbols()[i]),
            forall|i: int, j: int|
                0 <= i < j < self.symbols().len() ==> #[trigger] self.symbols()[i]
                    != #[trigger] self.symbols()[j],
            forall|symbol: Seq<char>| #[trigger]
                self@.contains_key(symbol) ==> self.symbols().contains(symbol),
            self@.dom().finite(),
            self.symbols().len() == self@.len(),
    {
        self.lemma_len();
        let symbols = self.symbols();
        assert forall|i: int| 0 <= i < symbols.len() implies self@.contains_key(
            #[trigger] symbols[i],
        ) by {
            assert(symbols[i] == self.entries@[i].0@);
        }
        assert forall|i: int, j: int| 0 <= i < j < symbols.len() implies #[trigger] symbols[i]
            != #[trigger] symbols[j] by {
            assert(symbols[i] == self.entries@[i].0@);
            assert(symbols[j] == self.entries@[j].0@);
        }
        assert forall|symbol: Seq<char>| #[trigger] self@.contains_key(
            symbol,
        ) implies symbols.contains(symbol) by {
            let place = indexed_places(self.index)[symbol] as int;
            assert(symbols[place] == symbol);
        }
    }

    /// Access to a value by the place of its symbol.
    pub fn value_mut(&mut self, place: usize) -> (r: &mut T)
        requires
            old(self).wf(),
            place < old(self).symbols().len(),
        ensures
            *r == old(self)@[old(self).symbols()[place as int]],
            final(self).wf(),
            final(self).symbols() == old(self).symbols(),
            final(self)@ == old(self)@.insert(old(self).symbols()[place as int], *final(r)),
    {
        assert(self.symbols()[place as int] == self.entries@[place as int].0@);
        &mut self.entries[place].1
    }

    /// The symbols and their values.
    pub fn into_entries(self) -> (r: Vec<(String, T)>)
        requires
            self.wf(),
        ensures
            r@.len() == self.symbols().len(),
            forall|i: int|
                0 <= i < r@.len() ==> (#[trigger] r@[i]).0@ == self.symbols()[i] && r@[i].1
                    == self@[self.symbols()[i]],
    {
        assert forall|i: int| 0 <= i < self.entries@.len() implies (
        #[trigger] self.entries@[i]).0@ == self.symbols()[i] && self.entries@[i].1
            == self@[self.symbols()[i]] by {
            let symbol = self.entries@[i].0@;
            assert(indexed_places(self.index)[symbol] == i);
        }
        self.entries
    }

    /// Gives a value to a symbol that has none.
    pub fn insert(&mut self, symbol: &str, value: T)
        requires
            old(self).wf(),
            !old(self)@.contains_key(symbol@),
        ensures
            final(self).wf(),
            final(self)@ == old(self)@.insert(symbol@, value),
    {
        let ghost before = *self;
        let place: usize = self.entries.len();
        index_or_insert(&mut self.index, symbol, place);
        self.entries.push((String::from_str(symbol), value));
        proof {
            assert forall|other: Seq<char>| #[trigger]
                indexed_places(self.index).contains_key(other) implies {
                let p = indexed_places(self.index)[other];
                p < self.entries@.len() && self.entries@[p as int].0@ == other
            } by {
                if other != symbol@ {
                    assert(indexed_places(before.index).contains_key(other));
                }
            }
            assert forall|i: int| 0 <= i < self.entries@.len() implies {
                let other = (#[trigger] self.entries@[i]).0@;
                indexed_places(self.index).contains_key(other)
                    && indexed_places(self.index)[other] == i
            } by {
                if i < place {
                    assert(before.entries@[i] == self.entries@[i]);
                }
            }
            assert(self@ =~= before@.insert(symbol@, value));
        }
    }

    /// The symbols that have a value, in ascending order.
    #[must_use]
    pub fn sorted_symbols(&self) -> (r: Vec<String>)
        requires
            self.wf(),
        ensures
            ascending(string_views(r@)),
            string_views(r@).to_set() == self@.dom(),
            string_views(r@) == listing(self@.dom()),
    {
        let mut sorted: Vec<String> = Vec::new();
        let mut at: usize = 0;
        while at < self.entries.len()
            invariant
                self.wf(),
                at <= self.entries@.len(),
                ascending(string_views(sorted@)),
                forall|symbol: Seq<char>| #[trigger]
                    string_views(sorted@).contains(symbol) <==> self@.contains_key(symbol)
                        && indexed_places(self.index)[symbol] < at,
            decreases self.entries@.len() - at,
        {
            let symbol = self.entries[at].0.as_str();
            proof {
                assert(self.entries@[at as int].0@ == symbol@);
                assert(!string_views(sorted@).contains(symbol@));
            }
            let ghost before = string_views(sorted@);
            insert_sorted(&mut sorted, symbol);
            proof {
                assert forall|other: Seq<char>| #[trigger]
                    string_views(sorted@).contains(other) <==> self@.contains_key(other)
                        && indexed_places(self.index)[other] < at + 1 by {
                    assert(before.contains(other) <==> self@.contains_key(other)
                        && indexed_places(self.index)[other] < at);
                    if self@.contains_key(other) && indexed_places(self.index)[other] == at {
                        assert(self.entries@[at as int].0@ == other);
                    }
                }
            }
            at = at + 1;
        }
        proof {
            assert forall|symbol: Seq<char>| string_views(sorted@).to_set().contains(symbol)
                <==> self@.dom().contains(symbol) by {
                assert(string_views(sorted@).contains(symbol) <==> self@.contains_key(symbol)
                    && indexed_places(self.index)[symbol] < at);
            }
            assert(string_views(sorted@).to_set() =~= self@.dom());
            ascending_lists_are_unique(string_views(sorted@), listing(self@.dom()));
        }
        sorted
    }
}

/// The members of a set in ascending order.
pub open spec fn listing(texts: Set<Seq<char>>) -> Seq<Seq<char>> {
    choose|list: Seq<Seq<char>>| ascending(list) && #[trigger] list.to_set() == texts
}

/// There is one ascending list of the same texts.
pub proof fn ascending_lists_are_unique(a: Seq<Seq<char>>, b: Seq<Seq<char>>)
    requires
        ascending(a),
        ascending(b),
        a.to_set() == b.to_set(),
    ensures
        a == b,
    decreases a.len(),
{
    if a.len() == 0 {
        if b.len() > 0 {
            assert(b.to_set().contains(b[0]));
        }
    } else {
        assert(a.to_set().contains(a[0]));
        let j = choose|j: int| 0 <= j < b.len() && b[j] == a[0];
        assert(b.to_set().contains(b[0]));
        let i = choose|i: int| 0 <= i < a.len() && a[i] == b[0];
        text_order_is_total(a[0], b[0]);
        if i > 0 {
            assert(text_less(a[0], a[i]));
        }
        if j > 0 {
            assert(text_less(b[0], b[j]));
        }
        let a1 = a.drop_first();
        let b1 = b.drop_first();
        assert forall|text: Seq<char>| a1.to_set().contains(text) == b1.to_set().contains(text) by {
            if a1.contains(text) {
                let k = choose|k: int| 0 <= k < a1.len() && a1[k] == text;
                assert(text_less(a[0], a[k + 1]));
                text_order_is_total(a[0], text);
                assert(a.to_set().contains(text));
                let m = choose|m: int| 0 <= m < b.len() && b[m] == text;
                assert(b1[m - 1] == text);
            }
            if b1.contains(text) {
                let k = choose|k: int| 0 <= k < b1.len() && b1[k] == text;
                assert(text_less(b[0], b[k + 1]));
                text_order_is_total(b[0], text);
                assert(b.to_set().contains(text));
                let m = choose|m: int| 0 <= m < a.len() && a[m] == text;
                assert(a1[m - 1] == text);
            }
        }
        assert(a1.to_set() =~= b1.to_set());
        ascending_lists_are_unique(a1, b1);
        assert(a =~= seq![a[0]] + a1);
        assert(b =~= seq![b[0]] + b1);
    }
}

/// Where a text belongs among ascending texts that do not have it.
proof fn lemma_place(list: Seq<Seq<char>>, text: Seq<char>) -> (at: int)
    requires
        ascending(list),
        !list.contains(text),
    ensures
        0 <= at <= list.len(),
        forall|i: int| 0 <= i < at ==> text_less(#[trigger] list[i], text),
        forall|i: int| at <= i < list.len() ==> text_less(text, #[trigger] list[i]),
    decreases list.len(),
{
    if list.len() == 0 {
        0
    } else {
        let last = list.len() - 1;
        let front = list.drop_last();
        assert(list.contains(list[last]));
        text_order_is_total(list[last], text);
        if text_less(list[last], text) {
            assert forall|i: int| 0 <= i < list.len() implies text_less(
                #[trigger] list[i],
                text,
            ) by {
                if i < last {
                    assert(text_less(list[i], list[last]));
                    text_order_is_transitive(list[i], list[last], text);
                }
            }
            list.len() as int
        } else {
            assert forall|other: Seq<char>| front.contains(other) implies list.contains(other) by {
                let i = choose|i: int| 0 <= i < front.len() && front[i] == other;
                assert(list[i] == other);
            }
            let at = lemma_place(front, text);
            assert forall|i: int| 0 <= i < at implies text_less(#[trigger] list[i], text) by {
                assert(front[i] == list[i]);
            }
            assert forall|i: int| at <= i < list.len() implies text_less(
                text,
                #[trigger] list[i],
            ) by {
                if i < last {
                    assert(front[i] == list[i]);
                }
            }
            at
        }
    }
}

/// Every finite set of texts has a listing: its members in ascending order.
pub proof fn finite_sets_have_listings(texts: Set<Seq<char>>)
    requires
        texts.finite(),
    ensures
        ascending(listing(texts)),
        listing(texts).to_set() == texts,
    decreases texts.len(),
{
    if texts.len() == 0 {
        let list = Seq::<Seq<char>>::empty();
        assert(list.to_set() =~= texts);
        assert(ascending(list));
    } else {
        let text = texts.choose();
        let fewer = texts.remove(text);
        finite_sets_have_listings(fewer);
        let rest = listing(fewer);
        assert(!rest.contains(text)) by {
            if rest.contains(text) {
                assert(rest.to_set().contains(text));
            }
        }
        let at = lemma_place(rest, text);
        let list = rest.insert(at, text);
        assert forall|i: int, j: int| 0 <= i < j < list.len() implies text_less(
            #[trigger] list[i],
            #[trigger] list[j],
        ) by {
            if i < at {
                assert(list[i] == rest[i]);
            } else if i > at {
                assert(list[i] == rest[i - 1]);
            }
            if j < at {
                assert(list[j] == rest[j]);
            } else if j > at {
                assert(list[j] == rest[j - 1]);
            }
        }
        assert forall|other: Seq<char>| list.to_set().contains(other) == texts.contains(other) by {
            if texts.contains(other) && other != text {
                assert(rest.to_set().contains(other));
                let i = choose|i: int| 0 <= i < rest.len() && rest[i] == other;
                assert(list[if i < at {
                    i
                } else {
                    i + 1
                }] == other);
            }
            if other == text {
                assert(list[at] == text);
            }
            if list.contains(other) && other != text {
                let i = choose|i: int| 0 <= i < list.len() && list[i] == other;
                assert(rest[if i < at {
                    i
                } else {
                    i - 1
                }] == other);
                assert(rest.to_set().contains(other));
            }
        }
        assert(list.to_set() =~= texts);
    }
}

/// Puts a text where it belongs among ascending texts that do not have it.
pub fn insert_sorted(sorted: &mut Vec<String>, text: &str)
    requires
        ascending(string_views(old(sorted)@)),
        !string_views(old(sorted)@).contains(text@),
    ensures
        ascending(string_views(final(sorted)@)),
        forall|other: Seq<char>| #[trigger]
            string_views(final(sorted)@).contains(other) <==> string_views(old(sorted)@).contains(
                other,
            ) || other == text@,
{
    let ghost before = string_views(sorted@);
    let mut at: usize = 0;
    while at < sorted.len() && text_before(sorted[at].as_str(), text)
        invariant
            at <= sorted@.len(),
            before == string_views(sorted@),
            forall|i: int| 0 <= i < at ==> text_less(#[trigger] before[i], text@),
        decreases sorted@.len() - at,
    {
        assert(before[at as int] == sorted@[at as int]@);
        at = at + 1;
    }
    proof {
        assert forall|i: int| at <= i < before.len() implies text_less(
            text@,
            #[trigger] before[i],
        ) by {
            assert(before[at as int] == sorted@[at as int]@);
            assert(before.contains(before[at as int]));
            text_order_is_total(before[at as int], text@);
            if i > at {
                assert(text_less(before[at as int], before[i]));
                text_order_is_transitive(text@, before[at as int], before[i]);
            }
        }
    }
    sorted.insert(at, String::from_str(text));
    proof {
        let after = string_views(sorted@);
        assert(after =~= before.insert(at as int, text@));
        assert forall|i: int, j: int| 0 <= i < j < after.len() implies text_less(
            #[trigger] after[i],
            #[trigger] after[j],
        ) by {
            let i1 = if i < at {
                i
            } else {
                i - 1
            };
            let j1 = if j < at {
                j
            } else {
                j - 1
            };
            if i != at {
                assert(after[i] == before[i1]);
            }
            if j != at {
                assert(after[j] == before[j1]);
            }
        }
        assert forall|other: Seq<char>| #[trigger] after.contains(other) <==> before.contains(other)
            || other == text@ by {
            if before.contains(other) {
                let i = choose|i: int| 0 <= i < before.len() && before[i] == other;
                assert(after[if i < at {
                    i
                } else {
                    i + 1
                }] == other);
            }
            if other == text@ {
                assert(after[at as int] == other);
            }
            if after.contains(other) && other != text@ {
                let i = choose|i: int| 0 <= i < after.len() && after[i] == other;
                assert(before[if i < at {
                    i
                } else {
                    i - 1
                }] == other);
            }
        }
    }
}

} // verus!
