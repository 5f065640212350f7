//! Insertion and extraction as functions on the array layout, and what they preserve.

use crate::order::{lawful, HeapOrder};
use crate::shape::{is_heap, parent_of, settled};
use crate::sift::{
    heap_but_above, heap_but_below, lemma_sift_down_permutes, lemma_sift_down_restores,
    lemma_sift_up_permutes, lemma_sift_up_restores, sift_down, sift_up,
};
use vstd::prelude::*;

verus! {

/// The layout after `elem` is inserted: appended as the last leaf, then sifted up.
pub open spec fn pushed<T: Ord>(s: Seq<T>, order: HeapOrder, elem: T) -> Seq<T> {
    sift_up(s.push(elem), order, s.len() as int)
}

/// The layout with the root overwritten by the last leaf and that leaf removed.
pub open spec fn root_replaced<T>(s: Seq<T>) -> Seq<T> {
    s.update(0, s.last()).drop_last()
}

/// The layout after the root is extracted: the last leaf takes its place and is sifted
/// down. An empty layout stays as it is.
pub open spec fn popped<T: Ord>(s: Seq<T>, order: HeapOrder) -> Seq<T> {
    if s.len() == 0 {
        s
    } else {
        sift_down(root_replaced(s), order, 0)
    }
}

/// Replacing the root by the last leaf removes exactly the root from the elements.
pub proof fn lemma_root_replaced_elements<T>(s: Seq<T>)
    requires
        s.len() > 0,
    ensures
        root_replaced(s).len() == s.len() - 1,
        root_replaced(s).to_multiset() == s.to_multiset().remove(s[0]),
{
    broadcast use vstd::multiset::group_multiset_axioms;

    let moved = s.update(0, s.last());
    let last = s.len() - 1;
    vstd::seq_lib::to_multiset_update(s, 0, s.last());
    vstd::seq_lib::to_multiset_remove(moved, last);
    vstd::seq_lib::to_multiset_contains(s, s[0]);
    vstd::seq_lib::to_multiset_contains(s, s.last());
    assert(s.contains(s[0]) && s.contains(s[last]));
    assert(moved.drop_last() =~= moved.remove(last));
    assert(root_replaced(s).to_multiset() =~= s.to_multiset().remove(s[0]));
}

/// Insertion adds exactly the new element and keeps the heap property.
pub proof fn lemma_pushed<T: Ord>(s: Seq<T>, order: HeapOrder, elem: T)
    ensures
        pushed(s, order, elem).len() == s.len() + 1,
        pushed(s, order, elem).to_multiset() == s.to_multiset().insert(elem),
        lawful::<T>() && is_heap(s, order) ==> is_heap(pushed(s, order, elem), order),
{
    let grown = s.push(elem);
    let leaf = s.len() as int;
    vstd::seq_lib::to_multiset_build(s, elem);
    lemma_sift_up_permutes(grown, order, leaf);
    if lawful::<T>() && is_heap(s, order) {
        assert forall|c: int| 0 <= c < grown.len() && c != leaf implies #[trigger] settled(
            grown,
            order,
            c,
        ) by {
            assert(settled(s, order, c));
        }
        assert(heap_but_above(grown, order, leaf));
        lemma_sift_up_restores(grown, order, leaf);
    }
}

/// Extraction removes exactly the root and keeps the heap property.
pub proof fn lemma_popped<T: Ord>(s: Seq<T>, order: HeapOrder)
    requires
        s.len() > 0,
    ensures
        popped(s, order).len() == s.len() - 1,
        popped(s, order).to_multiset() == s.to_multiset().remove(s[0]),
        lawful::<T>() && is_heap(s, order) ==> is_heap(popped(s, order), order),
{
    let moved = root_replaced(s);
    lemma_root_replaced_elements(s);
    lemma_sift_down_permutes(moved, order, 0);
    if lawful::<T>() && is_heap(s, order) {
        assert forall|c: int| 0 <= c < moved.len() && parent_of(c) != 0 implies #[trigger] settled(
            moved,
            order,
            c,
        ) by {
            assert(settled(s, order, c));
        }
        assert(heap_but_below(moved, order, 0));
        lemma_sift_down_restores(moved, order, 0);
    }
}

} // verus!
