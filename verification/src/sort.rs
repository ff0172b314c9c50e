//! Stable sorting by an integer key.
//!
//! Each mesh block re-sorts its element lists ascending by the
//! element's declared index once the block closes. The sort is defined
//! at the specification level as a stable insertion sort — an element
//! goes after every element whose key is at most its own, so elements
//! with equal keys keep their file order — and the executable sorts in
//! the grammar modules are proved to compute exactly it.

use vstd::prelude::*;
use vstd::assert_multisets_equal;

verus! {

/// Stable insertion of `v`: after every element whose key is at most
/// `key(v)`.
pub open spec fn insert_by<T>(t: Seq<T>, v: T, key: spec_fn(T) -> u32) -> Seq<T>
    decreases t.len(),
{
    if t.len() == 0 {
        seq![v]
    } else if key(t.last()) <= key(v) {
        t + seq![v]
    } else {
        insert_by(t.drop_last(), v, key) + seq![t.last()]
    }
}

/// Stable insertion sort.
pub open spec fn sort_by<T>(s: Seq<T>, key: spec_fn(T) -> u32) -> Seq<T>
    decreases s.len(),
{
    if s.len() == 0 {
        Seq::empty()
    } else {
        insert_by(sort_by(s.drop_last(), key), s.last(), key)
    }
}

/// Ascending by key.
pub open spec fn sorted_by<T>(s: Seq<T>, key: spec_fn(T) -> u32) -> bool {
    forall|i: int, j: int| 0 <= i < j < s.len() ==> key(s[i]) <= key(s[j])
}

/// Every key at most `b`.
pub open spec fn keys_le<T>(s: Seq<T>, b: u32, key: spec_fn(T) -> u32) -> bool {
    forall|i: int| 0 <= i < s.len() ==> key(s[i]) <= b
}

/// Inserting into a sorted sequence keeps it sorted, keeps any key
/// bound that covers the new element, and adds exactly that element.
pub proof fn lemma_insert_by_props<T>(t: Seq<T>, v: T, key: spec_fn(T) -> u32, b: u32)
    requires
        sorted_by(t, key),
        keys_le(t, b, key),
        key(v) <= b,
    ensures
        sorted_by(insert_by(t, v, key), key),
        keys_le(insert_by(t, v, key), b, key),
        insert_by(t, v, key).len() == t.len() + 1,
        insert_by(t, v, key).to_multiset() == t.to_multiset().insert(v),
    decreases t.len(),
{
    broadcast use vstd::seq_lib::group_to_multiset_ensures;

    if t.len() == 0 {
        assert(seq![v] =~= Seq::<T>::empty().push(v));
        assert(t =~= Seq::<T>::empty());
    } else if key(t.last()) <= key(v) {
        let r = t + seq![v];
        assert(r =~= t.push(v));
        assert forall|i: int, j: int| 0 <= i < j < r.len() implies key(r[i]) <= key(r[j]) by {
            if j < t.len() {
            } else {
                assert(key(r[i]) <= key(t.last()));
            }
        }
    } else {
        let dl = t.drop_last();
        lemma_insert_by_props(dl, v, key, b);
        lemma_insert_by_props(dl, v, key, key(t.last()));
        let u = insert_by(dl, v, key);
        let r = u + seq![t.last()];
        assert(r =~= u.push(t.last()));
        assert forall|i: int, j: int| 0 <= i < j < r.len() implies key(r[i]) <= key(r[j]) by {
            if j < u.len() {
            } else {
                assert(key(r[i]) <= key(t.last()));
            }
        }
        assert(t =~= dl.push(t.last()));
        assert(t.to_multiset() == dl.to_multiset().insert(t.last()));
        assert(r.to_multiset() == u.to_multiset().insert(t.last()));
        assert_multisets_equal!(
            dl.to_multiset().insert(v).insert(t.last()),
            dl.to_multiset().insert(t.last()).insert(v),
        );
    }
}

/// The sort is sorted, a permutation, and of the same length.
pub proof fn lemma_sort_by_props<T>(s: Seq<T>, key: spec_fn(T) -> u32)
    ensures
        sorted_by(sort_by(s, key), key),
        sort_by(s, key).len() == s.len(),
        sort_by(s, key).to_multiset() == s.to_multiset(),
    decreases s.len(),
{
    broadcast use vstd::seq_lib::group_to_multiset_ensures;

    if s.len() == 0 {
    } else {
        let dl = s.drop_last();
        lemma_sort_by_props(dl, key);
        assert(keys_le(sort_by(dl, key), u32::MAX, key));
        lemma_insert_by_props(sort_by(dl, key), s.last(), key, u32::MAX);
        assert(s =~= dl.push(s.last()));
        assert(s.to_multiset() == dl.to_multiset().insert(s.last()));
    }
}

} // verus!
