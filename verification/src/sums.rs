//! Sums over finite sequences.

use vstd::prelude::*;

verus! {

/// The sum of `f` over the elements of a sequence.
pub open spec fn seq_sum<A>(s: Seq<A>, f: spec_fn(A) -> int) -> int
    decreases s.len(),
{
    if s.len() == 0 {
        0
    } else {
        seq_sum(s.drop_last(), f) + f(s.last())
    }
}

pub proof fn lemma_sum_push<A>(s: Seq<A>, a: A, f: spec_fn(A) -> int)
    ensures
        seq_sum(s.push(a), f) == seq_sum(s, f) + f(a),
{
    assert(s.push(a).drop_last() =~= s);
}

pub proof fn lemma_sum_append<A>(s: Seq<A>, t: Seq<A>, f: spec_fn(A) -> int)
    ensures
        seq_sum(s + t, f) == seq_sum(s, f) + seq_sum(t, f),
    decreases t.len(),
{
    if t.len() == 0 {
        assert(s + t =~= s);
    } else {
        assert((s + t).drop_last() =~= s + t.drop_last());
        lemma_sum_append(s, t.drop_last(), f);
    }
}

pub proof fn lemma_sum_split<A>(s: Seq<A>, i: int, f: spec_fn(A) -> int)
    requires
        0 <= i < s.len(),
    ensures
        seq_sum(s, f) == seq_sum(s.take(i), f) + f(s[i]) + seq_sum(s.skip(i + 1), f),
{
    assert(s =~= s.take(i).push(s[i]) + s.skip(i + 1));
    lemma_sum_append(s.take(i).push(s[i]), s.skip(i + 1), f);
    lemma_sum_push(s.take(i), s[i], f);
}

pub proof fn lemma_sum_update<A>(s: Seq<A>, i: int, a: A, f: spec_fn(A) -> int)
    requires
        0 <= i < s.len(),
    ensures
        seq_sum(s.update(i, a), f) == seq_sum(s, f) - f(s[i]) + f(a),
{
    lemma_sum_split(s, i, f);
    lemma_sum_split(s.update(i, a), i, f);
    assert(s.update(i, a).take(i) =~= s.take(i));
    assert(s.update(i, a).skip(i + 1) =~= s.skip(i + 1));
}

pub proof fn lemma_sum_insert<A>(s: Seq<A>, i: int, a: A, f: spec_fn(A) -> int)
    requires
        0 <= i <= s.len(),
    ensures
        seq_sum(s.insert(i, a), f) == seq_sum(s, f) + f(a),
{
    lemma_sum_split(s.insert(i, a), i, f);
    assert(s.insert(i, a).take(i) =~= s.take(i));
    assert(s.insert(i, a).skip(i + 1) =~= s.skip(i));
    lemma_sum_append(s.take(i), s.skip(i), f);
    assert(s =~= s.take(i) + s.skip(i));
}

pub proof fn lemma_sum_remove<A>(s: Seq<A>, i: int, f: spec_fn(A) -> int)
    requires
        0 <= i < s.len(),
    ensures
        seq_sum(s.remove(i), f) == seq_sum(s, f) - f(s[i]),
{
    lemma_sum_split(s, i, f);
    lemma_sum_append(s.take(i), s.skip(i + 1), f);
    assert(s.remove(i) =~= s.take(i) + s.skip(i + 1));
}

pub proof fn lemma_sum_congruence<A>(s: Seq<A>, f: spec_fn(A) -> int, g: spec_fn(A) -> int)
    requires
        forall|i: int| 0 <= i < s.len() ==> f(#[trigger] s[i]) == g(s[i]),
    ensures
        seq_sum(s, f) == seq_sum(s, g),
    decreases s.len(),
{
    if s.len() > 0 {
        let t = s.drop_last();
        assert forall|i: int| 0 <= i < t.len() implies f(#[trigger] t[i]) == g(t[i]) by {
            assert(t[i] == s[i]);
        }
        lemma_sum_congruence(t, f, g);
        assert(s.last() == s[s.len() - 1]);
    }
}

/// A sum of non-negative terms bounds each of its terms.
pub proof fn lemma_sum_bounds<A>(s: Seq<A>, f: spec_fn(A) -> int)
    requires
        forall|i: int| 0 <= i < s.len() ==> f(#[trigger] s[i]) >= 0,
    ensures
        seq_sum(s, f) >= 0,
        forall|i: int| 0 <= i < s.len() ==> f(#[trigger] s[i]) <= seq_sum(s, f),
    decreases s.len(),
{
    if s.len() > 0 {
        let t = s.drop_last();
        assert forall|i: int| 0 <= i < t.len() implies f(#[trigger] t[i]) >= 0 by {
            assert(t[i] == s[i]);
        }
        lemma_sum_bounds(t, f);
        assert(s.last() == s[s.len() - 1]);
        assert forall|i: int| 0 <= i < s.len() implies f(#[trigger] s[i]) <= seq_sum(s, f) by {
            if i < t.len() {
                assert(t[i] == s[i]);
            }
        }
    }
}

/// A sum over the first elements of non-negative terms is no greater than the whole.
pub proof fn lemma_sum_prefix<A>(s: Seq<A>, n: int, f: spec_fn(A) -> int)
    requires
        0 <= n <= s.len(),
        forall|i: int| 0 <= i < s.len() ==> f(#[trigger] s[i]) >= 0,
    ensures
        0 <= seq_sum(s.take(n), f) <= seq_sum(s, f),
{
    lemma_sum_append(s.take(n), s.skip(n), f);
    assert(s =~= s.take(n) + s.skip(n));
    assert forall|i: int| 0 <= i < s.take(n).len() implies f(#[trigger] s.take(n)[i]) >= 0 by {
        assert(s.take(n)[i] == s[i]);
    }
    assert forall|i: int| 0 <= i < s.skip(n).len() implies f(#[trigger] s.skip(n)[i]) >= 0 by {
        assert(s.skip(n)[i] == s[n + i]);
    }
    lemma_sum_bounds(s.take(n), f);
    lemma_sum_bounds(s.skip(n), f);
}

/// A sum over the first elements grows by the next one.
pub proof fn lemma_sum_take<A>(s: Seq<A>, n: int, f: spec_fn(A) -> int)
    requires
        0 <= n < s.len(),
    ensures
        seq_sum(s.take(n + 1), f) == seq_sum(s.take(n), f) + f(s[n]),
{
    assert(s.take(n + 1) =~= s.take(n).push(s[n]));
    lemma_sum_push(s.take(n), s[n], f);
}

/// A sum does not depend on the direction.
pub proof fn lemma_sum_reverse<A>(s: Seq<A>, f: spec_fn(A) -> int)
    ensures
        seq_sum(s.reverse(), f) == seq_sum(s, f),
    decreases s.len(),
{
    if s.len() > 0 {
        let rest = s.drop_last();
        assert(s.reverse() =~= Seq::empty().push(s.last()) + rest.reverse());
        lemma_sum_append(Seq::empty().push(s.last()), rest.reverse(), f);
        lemma_sum_push(Seq::empty(), s.last(), f);
        lemma_sum_reverse(rest, f);
    } else {
        assert(s.reverse() =~= s);
    }
}

/// Sums over two sequences with the same terms, place by place.
pub proof fn lemma_sum_same<A, B>(
    s: Seq<A>,
    f: spec_fn(A) -> int,
    t: Seq<B>,
    g: spec_fn(B) -> int,
)
    requires
        s.len() == t.len(),
        forall|i: int| 0 <= i < s.len() ==> f(#[trigger] s[i]) == g(t[i]),
    ensures
        seq_sum(s, f) == seq_sum(t, g),
    decreases s.len(),
{
    if s.len() > 0 {
        let u = s.drop_last();
        let v = t.drop_last();
        assert forall|i: int| 0 <= i < u.len() implies f(#[trigger] u[i]) == g(v[i]) by {
            assert(u[i] == s[i] && v[i] == t[i]);
        }
        lemma_sum_same(u, f, v, g);
        assert(s.last() == s[s.len() - 1]);
    }
}

/// A bound of each term by a multiple of another carries over to the sums.
pub proof fn lemma_sum_scaled<A>(
    s: Seq<A>,
    f: spec_fn(A) -> int,
    g: spec_fn(A) -> int,
    factor: int,
)
    requires
        forall|i: int| 0 <= i < s.len() ==> 0 <= f(#[trigger] s[i]) <= factor * g(s[i]),
    ensures
        0 <= seq_sum(s, f) <= factor * seq_sum(s, g),
    decreases s.len(),
{
    if s.len() > 0 {
        let t = s.drop_last();
        assert forall|i: int| 0 <= i < t.len() implies 0 <= f(#[trigger] t[i]) <= factor * g(
            t[i],
        ) by {
            assert(t[i] == s[i]);
        }
        lemma_sum_scaled(t, f, g, factor);
        assert(s.last() == s[s.len() - 1]);
        let a = seq_sum(t, g);
        let b = g(s.last());
        assert(factor * (a + b) == factor * a + factor * b) by (nonlinear_arith);
    } else {
        assert(factor * 0 == 0) by (nonlinear_arith);
    }
}

} // verus!
