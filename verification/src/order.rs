//! Stable sorting, stated once for every order: what the sorted sequence
//! is, and that it is ordered and holds the same items.

use vstd::prelude::*;
use vstd::seq_lib::to_multiset_insert;

verus! {

/// Where `x` goes in the sorted sequence `s`: behind the last item that is
/// not greater than `x`.
pub open spec fn insertion_point<A>(s: Seq<A>, x: A, le: spec_fn(A, A) -> bool) -> int
    decreases s.len(),
{
    if s.len() == 0 {
        0
    } else if le(s.last(), x) {
        s.len() as int
    } else {
        insertion_point(s.drop_last(), x, le)
    }
}

/// The sorted sequence `s` with `x` put behind the items that are not
/// greater than it.
pub open spec fn insert_by<A>(s: Seq<A>, x: A, le: spec_fn(A, A) -> bool) -> Seq<A> {
    s.insert(insertion_point(s, x, le), x)
}

/// The items of `s` in the order of `le`; items that `le` does not tell
/// apart stay in the order in which they came.
pub open spec fn sort_by<A>(s: Seq<A>, le: spec_fn(A, A) -> bool) -> Seq<A>
    decreases s.len(),
{
    if s.len() == 0 {
        s
    } else {
        insert_by(sort_by(s.drop_last(), le), s.last(), le)
    }
}

/// No item of `s` is followed by one that `le` puts strictly before it.
pub open spec fn ordered_by<A>(s: Seq<A>, le: spec_fn(A, A) -> bool) -> bool {
    forall|i: int, j: int| 0 <= i < j < s.len() ==> le(#[trigger] s[i], #[trigger] s[j])
}

/// `le` compares any two items, one way or the other.
pub open spec fn total<A>(le: spec_fn(A, A) -> bool) -> bool {
    forall|a: A, b: A| #[trigger] le(a, b) || #[trigger] le(b, a)
}

/// What `le` puts before something that it puts before a third, it puts
/// before the third.
pub open spec fn transitive<A>(le: spec_fn(A, A) -> bool) -> bool {
    forall|a: A, b: A, c: A| #[trigger] le(a, b) && #[trigger] le(b, c) ==> le(a, c)
}

/// The insertion point lies behind an item that is not greater than `x`, and
/// before the items that are.
pub proof fn lemma_insertion_point<A>(s: Seq<A>, x: A, le: spec_fn(A, A) -> bool)
    ensures
        0 <= insertion_point(s, x, le) <= s.len(),
        insertion_point(s, x, le) > 0 ==> le(s[insertion_point(s, x, le) - 1], x),
        forall|k: int| insertion_point(s, x, le) <= k < s.len() ==> !le(#[trigger] s[k], x),
    decreases s.len(),
{
    if s.len() > 0 && !le(s.last(), x) {
        lemma_insertion_point(s.drop_last(), x, le);
        let p = insertion_point(s, x, le);
        assert forall|k: int| p <= k < s.len() implies !le(#[trigger] s[k], x) by {
            if k < s.len() - 1 {
                assert(s[k] == s.drop_last()[k]);
            }
        }
        if p > 0 {
            assert(s[p - 1] == s.drop_last()[p - 1]);
        }
    }
}

/// A place behind an item that is not greater than `x` and before the items
/// that are is the insertion point.
pub proof fn lemma_insertion_point_is<A>(s: Seq<A>, x: A, le: spec_fn(A, A) -> bool, p: int)
    requires
        0 <= p <= s.len(),
        p > 0 ==> le(s[p - 1], x),
        forall|k: int| p <= k < s.len() ==> !le(#[trigger] s[k], x),
    ensures
        insertion_point(s, x, le) == p,
    decreases s.len(),
{
    if s.len() > 0 && p < s.len() {
        assert(!le(s[s.len() - 1], x));
        let t = s.drop_last();
        assert forall|k: int| p <= k < t.len() implies !le(#[trigger] t[k], x) by {
            assert(t[k] == s[k]);
        }
        if p > 0 {
            assert(t[p - 1] == s[p - 1]);
        }
        lemma_insertion_point_is(t, x, le, p);
    }
}

/// Putting an item into an ordered sequence leaves it ordered.
pub proof fn lemma_insert_by_ordered<A>(s: Seq<A>, x: A, le: spec_fn(A, A) -> bool)
    requires
        ordered_by(s, le),
        total(le),
        transitive(le),
    ensures
        ordered_by(insert_by(s, x, le), le),
{
    lemma_insertion_point(s, x, le);
    let p = insertion_point(s, x, le);
    let r = insert_by(s, x, le);
    s.insert_ensures(p, x);
    assert forall|i: int, j: int| 0 <= i < j < r.len() implies le(
        #[trigger] r[i],
        #[trigger] r[j],
    ) by {
        if j < p {
            assert(r[i] == s[i] && r[j] == s[j]);
        } else if j == p {
            assert(r[i] == s[i]);
            if i < p - 1 {
                assert(le(s[i], s[p - 1]));
            }
            assert(le(s[p - 1], x));
            assert(le(s[i], x));
        } else if i < p {
            assert(r[i] == s[i] && r[j] == s[j - 1]);
            if i == j - 1 {
            } else {
                assert(le(s[i], s[j - 1]));
            }
        } else if i == p {
            assert(r[j] == s[j - 1]);
            assert(!le(s[j - 1], x));
            assert(le(s[j - 1], x) || le(x, s[j - 1]));
        } else {
            assert(r[i] == s[i - 1] && r[j] == s[j - 1]);
        }
    }
}

/// What `sort_by` returns is ordered.
pub proof fn lemma_sort_by_ordered<A>(s: Seq<A>, le: spec_fn(A, A) -> bool)
    requires
        total(le),
        transitive(le),
    ensures
        ordered_by(sort_by(s, le), le),
    decreases s.len(),
{
    if s.len() > 0 {
        lemma_sort_by_ordered(s.drop_last(), le);
        lemma_insert_by_ordered(sort_by(s.drop_last(), le), s.last(), le);
    }
}

/// What `sort_by` returns holds the items of its argument, each as often.
pub proof fn lemma_sort_by_permutes<A>(s: Seq<A>, le: spec_fn(A, A) -> bool)
    ensures
        sort_by(s, le).to_multiset() == s.to_multiset(),
        sort_by(s, le).len() == s.len(),
    decreases s.len(),
{
    if s.len() > 0 {
        let t = s.drop_last();
        lemma_sort_by_permutes(t, le);
        let st = sort_by(t, le);
        lemma_insertion_point(st, s.last(), le);
        to_multiset_insert(st, insertion_point(st, s.last(), le), s.last());
        to_multiset_insert(t, t.len() as int, s.last());
        assert(t.insert(t.len() as int, s.last()) =~= s);
    }
}

} // verus!
