//! Stable insertion sort, as a specification: `insertion_sort(s, le)` puts
//! each element of `s`, in order, after every element already placed that
//! may come before it. For a total preorder `le` this is the stable sort of
//! `s` (equal elements keep their order), which is what std's `sort_by`
//! gives.

use vstd::prelude::*;
use vstd::relations::{sorted_by, transitive, strongly_connected};

verus! {

/// Position of the first element of `t` that may not come before `x`.
pub open spec fn first_not<A>(t: Seq<A>, x: A, le: spec_fn(A, A) -> bool) -> int
    decreases t.len(),
{
    if t.len() == 0 {
        0
    } else if !le(t[0], x) {
        0
    } else {
        1 + first_not(t.drop_first(), x, le)
    }
}

/// `x` placed into `t` after every leading element that may come before it.
pub open spec fn insert_sorted<A>(t: Seq<A>, x: A, le: spec_fn(A, A) -> bool) -> Seq<A> {
    t.insert(first_not(t, x, le), x)
}

/// Stable insertion sort of `s` under `le`.
pub open spec fn insertion_sort<A>(s: Seq<A>, le: spec_fn(A, A) -> bool) -> Seq<A>
    decreases s.len(),
{
    if s.len() == 0 {
        s
    } else {
        insert_sorted(insertion_sort(s.drop_last(), le), s.last(), le)
    }
}

pub proof fn lemma_first_not_props<A>(t: Seq<A>, x: A, le: spec_fn(A, A) -> bool)
    ensures
        0 <= first_not(t, x, le) <= t.len(),
        forall|k: int| 0 <= k < first_not(t, x, le) ==> le(#[trigger] t[k], x),
        first_not(t, x, le) < t.len() ==> !le(t[first_not(t, x, le)], x),
    decreases t.len(),
{
    if t.len() > 0 && le(t[0], x) {
        lemma_first_not_props(t.drop_first(), x, le);
        assert forall|k: int| 0 <= k < first_not(t, x, le) implies le(#[trigger] t[k], x) by {
            if k > 0 {
                assert(t[k] == t.drop_first()[k - 1]);
            }
        }
    }
}

/// The position that a scan finds is `first_not`.
pub proof fn lemma_first_not_at<A>(t: Seq<A>, x: A, le: spec_fn(A, A) -> bool, j: int)
    requires
        0 <= j <= t.len(),
        forall|k: int| 0 <= k < j ==> le(#[trigger] t[k], x),
        j == t.len() || !le(t[j], x),
    ensures
        first_not(t, x, le) == j,
    decreases j,
{
    if j > 0 {
        assert(le(t[0], x));
        assert forall|k: int| 0 <= k < j - 1 implies le(#[trigger] t.drop_first()[k], x) by {
            assert(t.drop_first()[k] == t[k + 1]);
        }
        lemma_first_not_at(t.drop_first(), x, le, j - 1);
    }
}

/// One insertion step of the sort over a prefix.
pub proof fn lemma_insertion_sort_step<A>(s: Seq<A>, i: int, le: spec_fn(A, A) -> bool)
    requires
        0 <= i < s.len(),
    ensures
        insertion_sort(s.take(i + 1), le) == insert_sorted(insertion_sort(s.take(i), le), s[i], le),
{
    assert(s.take(i + 1).drop_last() =~= s.take(i));
}

/// The sort rearranges its input: it has the same elements, each as often.
pub proof fn law_insertion_sort_permutes<A>(s: Seq<A>, le: spec_fn(A, A) -> bool)
    ensures
        insertion_sort(s, le).to_multiset() == s.to_multiset(),
        insertion_sort(s, le).len() == s.len(),
    decreases s.len(),
{
    broadcast use vstd::seq_lib::group_to_multiset_ensures;

    if s.len() > 0 {
        law_insertion_sort_permutes(s.drop_last(), le);
        let t = insertion_sort(s.drop_last(), le);
        lemma_first_not_props(t, s.last(), le);
        assert(s =~= s.drop_last().push(s.last()));
    }
}

/// For a total preorder the sort's output is ordered.
pub proof fn law_insertion_sort_sorted<A>(s: Seq<A>, le: spec_fn(A, A) -> bool)
    requires
        transitive(le),
        strongly_connected(le),
    ensures
        sorted_by(insertion_sort(s, le), le),
    decreases s.len(),
{
    if s.len() > 0 {
        law_insertion_sort_sorted(s.drop_last(), le);
        law_insertion_sort_permutes(s.drop_last(), le);
        let t = insertion_sort(s.drop_last(), le);
        let x = s.last();
        let p = first_not(t, x, le);
        lemma_first_not_props(t, x, le);
        let r = t.insert(p, x);
        assert forall|a: int, b: int| 0 <= a < b < r.len() implies #[trigger] le(r[a], r[b]) by {
            if b < p {
                assert(r[a] == t[a] && r[b] == t[b]);
            } else if b == p {
                assert(r[a] == t[a]);
            } else if a < p {
                assert(r[a] == t[a] && r[b] == t[b - 1]);
            } else if a == p {
                assert(!le(t[p], x));
                assert(le(x, t[p]));
                if b - 1 > p {
                    assert(le(t[p], t[b - 1]));
                }
            } else {
                assert(r[a] == t[a - 1] && r[b] == t[b - 1]);
            }
        }
    }
}

} // verus!
