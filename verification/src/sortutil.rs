//! A stable insertion sort as a recursive specification, with the lemmas
//! the ranker builds on: where one insertion step lands, and that the
//! result is sorted under any total preorder.

use vstd::prelude::*;
use vstd::relations::{strongly_connected, transitive};
use vstd::relations::sorted_by;

verus! {

/// `s` with `x` inserted after every suffix element the order refuses to
/// place after `x`: scanning from the right, `x` lands directly after the
/// rightmost element at or before it, which keeps the sort stable.
pub open spec fn insert_le<T>(le: spec_fn(T, T) -> bool, s: Seq<T>, x: T) -> Seq<T>
    decreases s.len(),
{
    if s.len() == 0 {
        seq![x]
    } else if le(s.last(), x) {
        s.push(x)
    } else {
        insert_le(le, s.drop_last(), x).push(s.last())
    }
}

/// Stable insertion sort: the elements of `s` inserted one by one, in
/// their original order from left to right.
pub open spec fn sort_by_le<T>(le: spec_fn(T, T) -> bool, s: Seq<T>) -> Seq<T>
    decreases s.len(),
{
    if s.len() == 0 {
        Seq::empty()
    } else {
        insert_le(le, sort_by_le(le, s.drop_last()), s.last())
    }
}

/// Inserting adds exactly one element.
pub proof fn lemma_insert_le_len<T>(le: spec_fn(T, T) -> bool, s: Seq<T>, x: T)
    ensures
        insert_le(le, s, x).len() == s.len() + 1,
    decreases s.len(),
{
    if s.len() > 0 && !le(s.last(), x) {
        lemma_insert_le_len(le, s.drop_last(), x);
    }
}

/// Sorting keeps the length.
pub proof fn lemma_sort_by_le_len<T>(le: spec_fn(T, T) -> bool, s: Seq<T>)
    ensures
        sort_by_le(le, s).len() == s.len(),
    decreases s.len(),
{
    if s.len() > 0 {
        lemma_sort_by_le_len(le, s.drop_last());
        lemma_insert_le_len(le, sort_by_le(le, s.drop_last()), s.last());
    }
}

/// Where the insertion step lands: when everything before `pos` is at or
/// before `x` and everything from `pos` on is not, `x` goes to `pos`.
pub proof fn lemma_insert_le_at<T>(le: spec_fn(T, T) -> bool, s: Seq<T>, x: T, pos: int)
    requires
        0 <= pos <= s.len(),
        pos > 0 ==> le(s[pos - 1], x),
        forall|k: int| pos <= k < s.len() ==> !le(#[trigger] s[k], x),
    ensures
        insert_le(le, s, x) == s.take(pos) + seq![x] + s.skip(pos),
    decreases s.len(),
{
    if s.len() == 0 {
        assert(insert_le(le, s, x) =~= s.take(pos) + seq![x] + s.skip(pos));
    } else if pos == s.len() {
        assert(le(s[pos - 1], x));
        assert(insert_le(le, s, x) == s.push(x));
        assert(s.push(x) =~= s.take(pos) + seq![x] + s.skip(pos));
    } else {
        assert(!le(s[s.len() - 1], x));
        let d = s.drop_last();
        assert forall|k: int| pos <= k < d.len() implies !le(#[trigger] d[k], x) by {
            assert(d[k] == s[k]);
        }
        if pos > 0 {
            assert(d[pos - 1] == s[pos - 1]);
        }
        lemma_insert_le_at(le, d, x, pos);
        assert(insert_le(le, s, x) == insert_le(le, d, x).push(s.last()));
        assert((d.take(pos) + seq![x] + d.skip(pos)).push(s.last()) =~= s.take(pos) + seq![x]
            + s.skip(pos));
    }
}

/// Whatever the inserted sequence holds was in `s` or is `x`.
pub proof fn lemma_insert_le_contains<T>(le: spec_fn(T, T) -> bool, s: Seq<T>, x: T, e: T)
    requires
        insert_le(le, s, x).contains(e),
    ensures
        s.contains(e) || e == x,
    decreases s.len(),
{
    if s.len() == 0 {
        assert(insert_le(le, s, x) == seq![x]);
    } else if le(s.last(), x) {
        let r = s.push(x);
        let i = choose|i: int| 0 <= i < r.len() && r[i] == e;
        if i < s.len() {
            assert(s[i] == e);
        }
    } else {
        let r0 = insert_le(le, s.drop_last(), x);
        let r = r0.push(s.last());
        let i = choose|i: int| 0 <= i < r.len() && r[i] == e;
        if i < r0.len() {
            assert(r0[i] == e);
            lemma_insert_le_contains(le, s.drop_last(), x, e);
            if s.drop_last().contains(e) {
                let j = choose|j: int| 0 <= j < s.drop_last().len() && s.drop_last()[j] == e;
                assert(s[j] == e);
            }
        } else {
            assert(e == s.last());
        }
    }
}

/// The insertion step keeps a sorted sequence sorted, under a relation that
/// relates every pair and is transitive.
pub proof fn lemma_insert_le_sorted<T>(le: spec_fn(T, T) -> bool, s: Seq<T>, x: T)
    requires
        sorted_by(s, le),
        strongly_connected(le),
        transitive(le),
    ensures
        sorted_by(insert_le(le, s, x), le),
    decreases s.len(),
{
    if s.len() == 0 {
        assert(sorted_by(insert_le(le, s, x), le));
    } else if le(s.last(), x) {
        let r = s.push(x);
        assert forall|i: int, j: int| 0 <= i < j < r.len() implies le(r[i], r[j]) by {
            if j < s.len() {
                assert(le(s[i], s[j]));
            } else {
                if i < s.len() - 1 {
                    assert(le(s[i], s[s.len() - 1]));
                    assert(le(s[s.len() - 1], x));
                }
            }
        }
    } else {
        assert(le(x, s.last()));
        let d = s.drop_last();
        assert forall|i: int, j: int| 0 <= i < j < d.len() implies le(d[i], d[j]) by {
            assert(d[i] == s[i]);
            assert(d[j] == s[j]);
            assert(le(s[i], s[j]));
        }
        lemma_insert_le_sorted(le, d, x);
        let r0 = insert_le(le, d, x);
        let r = r0.push(s.last());
        assert forall|i: int, j: int| 0 <= i < j < r.len() implies le(r[i], r[j]) by {
            if j < r0.len() {
                assert(le(r0[i], r0[j]));
            } else {
                assert(r[i] == r0[i]);
                assert(r[j] == s.last());
                assert(r0.contains(r0[i]));
                lemma_insert_le_contains(le, d, x, r0[i]);
                if r0[i] == x {
                    assert(le(x, s.last()));
                } else {
                    let k = choose|k: int| 0 <= k < d.len() && d[k] == r0[i];
                    assert(d[k] == s[k]);
                    assert(le(s[k], s[s.len() - 1]));
                }
            }
        }
    }
}

/// The insertion step adds exactly `x` to the sequence's contents.
pub proof fn lemma_insert_le_multiset<T>(le: spec_fn(T, T) -> bool, s: Seq<T>, x: T)
    ensures
        insert_le(le, s, x).to_multiset() == s.to_multiset().insert(x),
    decreases s.len(),
{
    broadcast use vstd::seq_lib::group_to_multiset_ensures;
    broadcast use vstd::multiset::group_multiset_axioms;

    if s.len() == 0 {
        assert(s.push(x) =~= seq![x]);
        assert(insert_le(le, s, x).to_multiset() =~= s.to_multiset().insert(x));
    } else if le(s.last(), x) {
        assert(s.push(x).to_multiset() =~= s.to_multiset().insert(x));
    } else {
        let d = s.drop_last();
        lemma_insert_le_multiset(le, d, x);
        assert(insert_le(le, s, x).to_multiset() =~= insert_le(le, d, x).to_multiset().insert(
            s.last(),
        ));
        assert(d.push(s.last()) =~= s);
        assert(s.to_multiset() =~= d.to_multiset().insert(s.last()));
        assert(d.to_multiset().insert(x).insert(s.last()) =~= d.to_multiset().insert(
            s.last(),
        ).insert(x));
    }
}

/// Sorting permutes: the sorted sequence holds exactly the elements of the
/// input, with their multiplicities.
pub proof fn lemma_sort_by_le_multiset<T>(le: spec_fn(T, T) -> bool, s: Seq<T>)
    ensures
        sort_by_le(le, s).to_multiset() == s.to_multiset(),
    decreases s.len(),
{
    broadcast use vstd::seq_lib::group_to_multiset_ensures;

    if s.len() > 0 {
        let d = s.drop_last();
        lemma_sort_by_le_multiset(le, d);
        lemma_insert_le_multiset(le, sort_by_le(le, d), s.last());
        assert(d.push(s.last()) =~= s);
        assert(s.to_multiset() =~= d.to_multiset().insert(s.last()));
    }
}

/// An insertion sort's result is sorted, under a relation that relates
/// every pair and is transitive.
pub proof fn lemma_sort_by_le_sorted<T>(le: spec_fn(T, T) -> bool, s: Seq<T>)
    requires
        strongly_connected(le),
        transitive(le),
    ensures
        sorted_by(sort_by_le(le, s), le),
    decreases s.len(),
{
    if s.len() == 0 {
        assert(sorted_by(sort_by_le(le, s), le));
    } else {
        lemma_sort_by_le_sorted(le, s.drop_last());
        lemma_insert_le_sorted(le, sort_by_le(le, s.drop_last()), s.last());
    }
}

/// The tie policy: on input the order ties completely — it relates every
/// two elements both ways — the sort changes nothing, so tied elements keep
/// their original relative order.
pub proof fn lemma_sort_ties_keep_order<T>(le: spec_fn(T, T) -> bool, s: Seq<T>)
    requires
        forall|i: int, j: int|
            0 <= i < s.len() && 0 <= j < s.len() ==> le(#[trigger] s[i], #[trigger] s[j]),
    ensures
        sort_by_le(le, s) == s,
    decreases s.len(),
{
    if s.len() > 0 {
        let d = s.drop_last();
        assert forall|i: int, j: int|
            0 <= i < d.len() && 0 <= j < d.len() implies le(#[trigger] d[i], #[trigger] d[j]) by {
            assert(d[i] == s[i]);
            assert(d[j] == s[j]);
        }
        lemma_sort_ties_keep_order(le, d);
        if d.len() == 0 {
            assert(insert_le(le, d, s.last()) =~= s);
        } else {
            assert(le(d.last(), s.last()));
            assert(d.push(s.last()) =~= s);
        }
    }
}

} // verus!
