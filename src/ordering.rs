//! Stable ordering of sequences under a total preorder.
//!
//! `sort_ordered` describes a stable sort: elements are inserted one by one,
//! each after every element already placed that is not greater than it, so
//! equal elements keep their input order.
use vstd::prelude::*;

verus! {

broadcast use vstd::seq_lib::group_to_multiset_ensures;

/// Inserts `x` into `s` right after the last element that is not greater
/// than `x`, scanning from the end.
pub open spec fn insert_ordered<T>(s: Seq<T>, x: T, le: spec_fn(T, T) -> bool) -> Seq<T>
    decreases s.len(),
{
    if s.len() == 0 {
        seq![x]
    } else if le(s.last(), x) {
        s.push(x)
    } else {
        insert_ordered(s.drop_last(), x, le).push(s.last())
    }
}

/// The stable sort of `s` under `le`.
pub open spec fn sort_ordered<T>(s: Seq<T>, le: spec_fn(T, T) -> bool) -> Seq<T>
    decreases s.len(),
{
    if s.len() == 0 {
        s
    } else {
        insert_ordered(sort_ordered(s.drop_last(), le), s.last(), le)
    }
}

/// `le` is total and transitive.
pub open spec fn is_total_preorder<T>(le: spec_fn(T, T) -> bool) -> bool {
    &&& forall|a: T, b: T| #[trigger] le(a, b) || le(b, a)
    &&& forall|a: T, b: T, c: T| #[trigger] le(a, b) && #[trigger] le(b, c) ==> le(a, c)
}

/// Every element is not greater than each element after it.
pub open spec fn is_sorted_by<T>(s: Seq<T>, le: spec_fn(T, T) -> bool) -> bool {
    forall|i: int, j: int| 0 <= i < j < s.len() ==> #[trigger] le(s[i], s[j])
}

/// Inserting keeps every element and adds `x`.
pub proof fn lemma_insert_ordered_multiset<T>(s: Seq<T>, x: T, le: spec_fn(T, T) -> bool)
    ensures
        insert_ordered(s, x, le).to_multiset() =~= s.to_multiset().insert(x),
        insert_ordered(s, x, le).len() == s.len() + 1,
    decreases s.len(),
{
    if s.len() == 0 {
        assert(seq![x] =~= Seq::<T>::empty().push(x));
    } else if le(s.last(), x) {
    } else {
        lemma_insert_ordered_multiset(s.drop_last(), x, le);
        assert(s.drop_last().push(s.last()) =~= s);
    }
}

/// Inserting into a sorted sequence keeps it sorted.
pub proof fn lemma_insert_ordered_sorted<T>(s: Seq<T>, x: T, le: spec_fn(T, T) -> bool)
    requires
        is_total_preorder(le),
        is_sorted_by(s, le),
    ensures
        is_sorted_by(insert_ordered(s, x, le), le),
        forall|i: int| 0 <= i < insert_ordered(s, x, le).len()
            ==> #[trigger] insert_ordered(s, x, le)[i] == x || s.contains(insert_ordered(s, x, le)[i]),
    decreases s.len(),
{
    lemma_insert_ordered_multiset(s, x, le);
    if s.len() == 0 {
    } else if le(s.last(), x) {
        let r = s.push(x);
        assert forall|i: int, j: int| 0 <= i < j < r.len() implies #[trigger] le(r[i], r[j]) by {
            if j == s.len() {
                if i < s.len() - 1 {
                    assert(le(s[i], s[s.len() - 1]));
                }
            }
        }
        assert forall|i: int| 0 <= i < r.len() implies #[trigger] r[i] == x || s.contains(r[i]) by {
            if i < s.len() {
                assert(s[i] == r[i]);
            }
        }
    } else {
        let d = s.drop_last();
        assert(is_sorted_by(d, le));
        lemma_insert_ordered_sorted(d, x, le);
        let m = insert_ordered(d, x, le);
        let r = m.push(s.last());
        assert(le(x, s.last()));
        assert forall|i: int| 0 <= i < r.len() implies #[trigger] r[i] == x || s.contains(r[i]) by {
            if i < m.len() {
                if m[i] != x {
                    let k = choose|k: int| 0 <= k < d.len() && d[k] == m[i];
                    assert(s[k] == m[i]);
                }
            } else {
                assert(s[s.len() - 1] == r[i]);
            }
        }
        assert forall|i: int, j: int| 0 <= i < j < r.len() implies #[trigger] le(r[i], r[j]) by {
            if j == m.len() {
                if r[i] != x {
                    let k = choose|k: int| 0 <= k < d.len() && d[k] == m[i];
                    assert(le(s[k], s[s.len() - 1]));
                }
            }
        }
    }
}

/// The stable sort is sorted and holds exactly the input's elements.
pub proof fn lemma_sort_ordered<T>(s: Seq<T>, le: spec_fn(T, T) -> bool)
    requires
        is_total_preorder(le),
    ensures
        is_sorted_by(sort_ordered(s, le), le),
        sort_ordered(s, le).to_multiset() =~= s.to_multiset(),
        sort_ordered(s, le).len() == s.len(),
    decreases s.len(),
{
    if s.len() > 0 {
        lemma_sort_ordered(s.drop_last(), le);
        lemma_insert_ordered_sorted(sort_ordered(s.drop_last(), le), s.last(), le);
        lemma_insert_ordered_multiset(sort_ordered(s.drop_last(), le), s.last(), le);
        assert(s.drop_last().push(s.last()) =~= s);
    }
}

/// One step of insertion from the end: while the element before position
/// `j` is greater than `x`, the insertion point lies before it.
pub proof fn lemma_insert_ordered_split<T>(s: Seq<T>, x: T, le: spec_fn(T, T) -> bool, j: int)
    requires
        0 < j <= s.len(),
        !le(s[j - 1], x),
    ensures
        insert_ordered(s.subrange(0, j), x, le) + s.subrange(j, s.len() as int)
            =~= insert_ordered(s.subrange(0, j - 1), x, le) + s.subrange(j - 1, s.len() as int),
{
    let p = s.subrange(0, j);
    assert(p.drop_last() =~= s.subrange(0, j - 1));
    assert(p.last() == s[j - 1]);
}

/// Where insertion from the end stops, `x` goes at that position.
pub proof fn lemma_insert_ordered_stop<T>(s: Seq<T>, x: T, le: spec_fn(T, T) -> bool, j: int)
    requires
        0 <= j <= s.len(),
        j == 0 || le(s[j - 1], x),
    ensures
        insert_ordered(s.subrange(0, j), x, le) + s.subrange(j, s.len() as int) =~= s.insert(j, x),
{
    let p = s.subrange(0, j);
    if j > 0 {
        assert(p.last() == s[j - 1]);
    }
}

} // verus!
