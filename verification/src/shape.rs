//! The implicit complete binary tree laid out in a sequence, and the heap property on it.

use crate::order::{lawful, lemma_not_precedes_transitive, lemma_precedes_irreflexive, precedes, HeapOrder};
use vstd::prelude::*;

verus! {

/// Position of the parent of the node at position `i > 0`.
pub open spec fn parent_of(i: int) -> int {
    (i - 1) / 2
}

/// Position of the left child of the node at position `i`.
pub open spec fn left_of(i: int) -> int {
    2 * i + 1
}

/// Position of the right child of the node at position `i`.
pub open spec fn right_of(i: int) -> int {
    2 * i + 2
}

/// The node at position `c` is the root, or does not precede its parent.
pub open spec fn settled<T: Ord>(s: Seq<T>, order: HeapOrder, c: int) -> bool {
    c == 0 || !precedes(order, s[c], s[parent_of(c)])
}

/// The heap property: no node precedes its parent.
pub open spec fn is_heap<T: Ord>(s: Seq<T>, order: HeapOrder) -> bool {
    forall|c: int| 0 <= c < s.len() ==> #[trigger] settled(s, order, c)
}

/// The children of a node are exactly the positions whose parent it is.
pub proof fn lemma_parent_of_child(i: int)
    requires
        0 <= i,
    ensures
        parent_of(left_of(i)) == i,
        parent_of(right_of(i)) == i,
        forall|c: int| 0 < c && parent_of(c) == i ==> c == left_of(i) || c == right_of(i),
{
}

/// The heap property read from the parent's side: a node is preceded by neither of its
/// children.
pub proof fn lemma_heap_children<T: Ord>(s: Seq<T>, order: HeapOrder, i: int)
    requires
        is_heap(s, order),
        0 <= i < s.len(),
    ensures
        left_of(i) < s.len() ==> !precedes(order, s[left_of(i)], s[i]),
        right_of(i) < s.len() ==> !precedes(order, s[right_of(i)], s[i]),
{
    lemma_parent_of_child(i);
    if left_of(i) < s.len() {
        assert(settled(s, order, left_of(i)));
    }
    if right_of(i) < s.len() {
        assert(settled(s, order, right_of(i)));
    }
}

/// Conversely, a sequence in which no node is preceded by a child has the heap property.
pub proof fn lemma_heap_from_children<T: Ord>(s: Seq<T>, order: HeapOrder)
    requires
        forall|i: int|
            0 <= i < s.len() && left_of(i) < s.len() ==> !precedes(
                order,
                #[trigger] s[left_of(i)],
                s[i],
            ),
        forall|i: int|
            0 <= i < s.len() && right_of(i) < s.len() ==> !precedes(
                order,
                #[trigger] s[right_of(i)],
                s[i],
            ),
    ensures
        is_heap(s, order),
{
    assert forall|c: int| 0 <= c < s.len() implies #[trigger] settled(s, order, c) by {
        if c > 0 {
            let p = parent_of(c);
            lemma_parent_of_child(p);
            if c == left_of(p) {
                assert(!precedes(order, s[left_of(p)], s[p]));
            } else {
                assert(!precedes(order, s[right_of(p)], s[p]));
            }
        }
    }
}

/// In a heap no element precedes the root.
pub proof fn lemma_root_is_extreme<T: Ord>(s: Seq<T>, order: HeapOrder, i: int)
    requires
        lawful::<T>(),
        is_heap(s, order),
        0 <= i < s.len(),
    ensures
        !precedes(order, s[i], s[0]),
    decreases i,
{
    if i == 0 {
        lemma_precedes_irreflexive(order, s[0]);
    } else {
        assert(settled(s, order, i));
        lemma_root_is_extreme(s, order, parent_of(i));
        lemma_not_precedes_transitive(order, s[i], s[parent_of(i)], s[0]);
    }
}

} // verus!
