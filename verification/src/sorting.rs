//! Stable insertion sort, stated as a specification and proved about.
use vstd::prelude::*;

verus! {

/// `x` inserted into `s` after the last element that is `le` it, or at the
/// front when there is none; everything else keeps its place.
pub open spec fn insert_sorted<T>(s: Seq<T>, x: T, le: spec_fn(T, T) -> bool) -> Seq<T>
    decreases s.len(),
{
    if s.len() == 0 || le(s.last(), x) {
        s.push(x)
    } else {
        insert_sorted(s.drop_last(), x, le).push(s.last())
    }
}

/// The stable sort of `s` by `le`: each element is inserted, in input order,
/// after every element already placed that is `le` it.
pub open spec fn insertion_sort<T>(s: Seq<T>, le: spec_fn(T, T) -> bool) -> Seq<T>
    decreases s.len(),
{
    if s.len() == 0 {
        s
    } else {
        insert_sorted(insertion_sort(s.drop_last(), le), s.last(), le)
    }
}

/// Sorting a sequence with one more element inserts that element into the
/// sorted rest.
pub proof fn lemma_insertion_sort_push<T>(s: Seq<T>, x: T, le: spec_fn(T, T) -> bool)
    ensures
        insertion_sort(s.push(x), le) == insert_sorted(insertion_sort(s, le), x, le),
{
    assert(s.push(x).drop_last() =~= s);
}

/// Inserting after position `k - 1`, where `k` is past the last element `le`
/// the new one, is what `insert_sorted` does.
pub proof fn lemma_insert_sorted_at<T>(s: Seq<T>, x: T, le: spec_fn(T, T) -> bool, k: int)
    requires
        0 <= k <= s.len(),
        k == 0 || le(s[k - 1], x),
        forall|j: int| k <= j < s.len() ==> !le(#[trigger] s[j], x),
    ensures
        insert_sorted(s, x, le) == s.take(k).push(x) + s.skip(k),
    decreases s.len(),
{
    if s.len() == 0 {
        assert(s.take(k).push(x) + s.skip(k) =~= seq![x]);
    } else if le(s.last(), x) {
        assert(k == s.len());
        assert(s.take(k) =~= s);
        assert(s.skip(k) =~= Seq::<T>::empty());
        assert(s.take(k).push(x) + s.skip(k) =~= s.push(x));
    } else {
        assert(k < s.len());
        let d = s.drop_last();
        assert forall|j: int| k <= j < d.len() implies !le(#[trigger] d[j], x) by {
            assert(d[j] == s[j]);
        }
        if k > 0 {
            assert(d[k - 1] == s[k - 1]);
        }
        lemma_insert_sorted_at(d, x, le, k);
        assert(d.take(k) =~= s.take(k));
        assert((d.take(k).push(x) + d.skip(k)).push(s.last()) =~= s.take(k).push(x) + s.skip(k));
    }
}

/// `le` is a total preorder.
pub open spec fn total_preorder<T>(le: spec_fn(T, T) -> bool) -> bool {
    &&& forall|a: T, b: T| #[trigger] le(a, b) || le(b, a)
    &&& forall|a: T, b: T, c: T| #[trigger] le(a, b) && #[trigger] le(b, c) ==> le(a, c)
}

/// Every adjacent pair of `s` is in `le` order.
pub open spec fn sorted_by<T>(s: Seq<T>, le: spec_fn(T, T) -> bool) -> bool {
    forall|i: int, j: int| 0 <= i < j < s.len() ==> le(#[trigger] s[i], #[trigger] s[j])
}

/// Inserting into a sorted sequence keeps it sorted and adds exactly `x`.
pub proof fn lemma_insert_sorted_props<T>(s: Seq<T>, x: T, le: spec_fn(T, T) -> bool)
    requires
        total_preorder(le),
        sorted_by(s, le),
    ensures
        sorted_by(insert_sorted(s, x, le), le),
        insert_sorted(s, x, le).to_multiset() == s.to_multiset().insert(x),
    decreases s.len(),
{
    broadcast use vstd::seq_lib::group_seq_properties;
    broadcast use vstd::multiset::group_multiset_axioms;

    if s.len() == 0 || le(s.last(), x) {
        let r = s.push(x);
        assert forall|i: int, j: int| 0 <= i < j < r.len() implies le(#[trigger] r[i], #[trigger] r[j]) by {
            if j == s.len() {
                if i < s.len() - 1 {
                    assert(le(s[i], s[s.len() - 1]));
                }
            }
        }
    } else {
        let d = s.drop_last();
        assert(sorted_by(d, le)) by {
            assert forall|i: int, j: int| 0 <= i < j < d.len() implies le(#[trigger] d[i], #[trigger] d[j]) by {
                assert(d[i] == s[i] && d[j] == s[j]);
            }
        }
        lemma_insert_sorted_props(d, x, le);
        let mid = insert_sorted(d, x, le);
        let r = mid.push(s.last());
        assert(le(x, s.last()));
        assert forall|i: int| 0 <= i < mid.len() implies le(#[trigger] mid[i], s.last()) by {
            assert(mid.to_multiset().count(mid[i]) > 0);
            assert(mid.contains(mid[i]));
            if mid[i] != x {
                assert(d.to_multiset().count(mid[i]) > 0);
                assert(d.contains(mid[i]));
                let j = choose|j: int| 0 <= j < d.len() && d[j] == mid[i];
                assert(le(s[j], s[s.len() - 1]));
            }
        }
        assert forall|i: int, j: int| 0 <= i < j < r.len() implies le(#[trigger] r[i], #[trigger] r[j]) by {
            if j == mid.len() {
                assert(r[i] == mid[i]);
            } else {
                assert(r[i] == mid[i] && r[j] == mid[j]);
            }
        }
        assert(s =~= d.push(s.last()));
    }
}

/// The stable sort is sorted and is a permutation of its input.
pub proof fn lemma_insertion_sort_props<T>(s: Seq<T>, le: spec_fn(T, T) -> bool)
    requires
        total_preorder(le),
    ensures
        sorted_by(insertion_sort(s, le), le),
        insertion_sort(s, le).to_multiset() == s.to_multiset(),
    decreases s.len(),
{
    broadcast use vstd::seq_lib::group_seq_properties;
    broadcast use vstd::multiset::group_multiset_axioms;

    if s.len() == 0 {
    } else {
        lemma_insertion_sort_props(s.drop_last(), le);
        lemma_insert_sorted_props(insertion_sort(s.drop_last(), le), s.last(), le);
        assert(s =~= s.drop_last().push(s.last()));
    }
}

} // verus!
