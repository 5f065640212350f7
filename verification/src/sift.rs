//! The two restoring walks of a heap, as functions on sequences, and what they achieve.

use crate::order::{
    lawful, lemma_not_precedes_transitive, lemma_precedes_asymmetric,
    lemma_precedes_then_not_preceded, precedes, HeapOrder,
};
use crate::shape::{is_heap, left_of, lemma_parent_of_child, parent_of, right_of, settled};
use vstd::prelude::*;

verus! {

/// `s` with the elements at positions `i` and `j` exchanged.
pub open spec fn swapped<T>(s: Seq<T>, i: int, j: int) -> Seq<T> {
    s.update(i, s[j]).update(j, s[i])
}

/// The sequence after the element at position `i` has climbed toward the root: as long as
/// it precedes its parent, the two are exchanged.
pub open spec fn sift_up<T: Ord>(s: Seq<T>, order: HeapOrder, i: int) -> Seq<T>
    decreases i,
{
    if 0 < i < s.len() && precedes(order, s[i], s[parent_of(i)]) {
        sift_up(swapped(s, i, parent_of(i)), order, parent_of(i))
    } else {
        s
    }
}

/// The child of position `i` that a descending element is compared with: the left child
/// where it is the only one or precedes the right child, else the right child.
pub open spec fn nearer_child<T: Ord>(s: Seq<T>, order: HeapOrder, i: int) -> int {
    if right_of(i) < s.len() && !precedes(order, s[left_of(i)], s[right_of(i)]) {
        right_of(i)
    } else {
        left_of(i)
    }
}

/// The sequence after the element at position `i` has sunk toward the leaves: as long as
/// its nearer child precedes it, the two are exchanged.
pub open spec fn sift_down<T: Ord>(s: Seq<T>, order: HeapOrder, i: int) -> Seq<T>
    decreases s.len() - i,
{
    if 0 <= i && left_of(i) < s.len() && precedes(order, s[nearer_child(s, order, i)], s[i]) {
        sift_down(swapped(s, i, nearer_child(s, order, i)), order, nearer_child(s, order, i))
    } else {
        s
    }
}

/// The heap property holds everywhere but between position `i` and its parent, and the
/// children of `i` do not precede that parent.
pub open spec fn heap_but_above<T: Ord>(s: Seq<T>, order: HeapOrder, i: int) -> bool {
    &&& forall|c: int| 0 <= c < s.len() && c != i ==> #[trigger] settled(s, order, c)
    &&& forall|c: int|
        0 < i && 0 < c < s.len() && #[trigger] parent_of(c) == i ==> !precedes(
            order,
            s[c],
            s[parent_of(i)],
        )
}

/// The heap property holds everywhere but between position `i` and its children, and
/// those children do not precede the parent of `i`.
pub open spec fn heap_but_below<T: Ord>(s: Seq<T>, order: HeapOrder, i: int) -> bool {
    &&& forall|c: int|
        0 <= c < s.len() && parent_of(c) != i ==> #[trigger] settled(s, order, c)
    &&& forall|c: int|
        0 < i && 0 < c < s.len() && #[trigger] parent_of(c) == i ==> !precedes(
            order,
            s[c],
            s[parent_of(i)],
        )
}

/// An exchange keeps the length and the elements.
pub proof fn lemma_swapped_permutes<T>(s: Seq<T>, i: int, j: int)
    requires
        0 <= i < s.len(),
        0 <= j < s.len(),
    ensures
        swapped(s, i, j).len() == s.len(),
        swapped(s, i, j).to_multiset() == s.to_multiset(),
{
    broadcast use vstd::multiset::group_multiset_axioms;

    let half = s.update(i, s[j]);
    vstd::seq_lib::to_multiset_update(s, i, s[j]);
    vstd::seq_lib::to_multiset_update(half, j, s[i]);
    vstd::seq_lib::to_multiset_contains(s, s[i]);
    vstd::seq_lib::to_multiset_contains(s, s[j]);
    assert(s.contains(s[i]) && s.contains(s[j]));
    assert(swapped(s, i, j).to_multiset() =~= s.to_multiset());
}

/// Climbing keeps the length and the elements.
pub proof fn lemma_sift_up_permutes<T: Ord>(s: Seq<T>, order: HeapOrder, i: int)
    ensures
        sift_up(s, order, i).len() == s.len(),
        sift_up(s, order, i).to_multiset() == s.to_multiset(),
    decreases i,
{
    if 0 < i < s.len() && precedes(order, s[i], s[parent_of(i)]) {
        lemma_swapped_permutes(s, i, parent_of(i));
        lemma_sift_up_permutes(swapped(s, i, parent_of(i)), order, parent_of(i));
    }
}

/// Sinking keeps the length and the elements.
pub proof fn lemma_sift_down_permutes<T: Ord>(s: Seq<T>, order: HeapOrder, i: int)
    ensures
        sift_down(s, order, i).len() == s.len(),
        sift_down(s, order, i).to_multiset() == s.to_multiset(),
    decreases s.len() - i,
{
    if 0 <= i && left_of(i) < s.len() && precedes(order, s[nearer_child(s, order, i)], s[i]) {
        let c = nearer_child(s, order, i);
        lemma_swapped_permutes(s, i, c);
        lemma_sift_down_permutes(swapped(s, i, c), order, c);
    }
}

/// Climbing from the one position where the heap property may fail upward restores it.
pub proof fn lemma_sift_up_restores<T: Ord>(s: Seq<T>, order: HeapOrder, i: int)
    requires
        lawful::<T>(),
        0 <= i < s.len(),
        heap_but_above(s, order, i),
    ensures
        is_heap(sift_up(s, order, i), order),
    decreases i,
{
    if 0 < i && precedes(order, s[i], s[parent_of(i)]) {
        let p = parent_of(i);
        let t = swapped(s, i, p);
        assert forall|c: int| 0 <= c < t.len() && c != p implies #[trigger] settled(
            t,
            order,
            c,
        ) by {
            if c == i {
                lemma_precedes_asymmetric(order, s[i], s[p]);
            } else if c > 0 && parent_of(c) == i {
                assert(!precedes(order, s[c], s[p]));
            } else if c > 0 && parent_of(c) == p {
                assert(settled(s, order, c));
                lemma_precedes_then_not_preceded(order, s[i], s[p], s[c]);
            } else {
                assert(settled(s, order, c));
            }
        }
        assert forall|c: int| 0 < p && 0 < c < t.len() && #[trigger] parent_of(c) == p implies !precedes(
            order,
            t[c],
            t[parent_of(p)],
        ) by {
            assert(settled(s, order, p));
            if c != i {
                assert(settled(s, order, c));
                lemma_not_precedes_transitive(order, s[c], s[p], s[parent_of(p)]);
            }
        }
        lemma_sift_up_restores(t, order, p);
    } else {
        assert forall|c: int| 0 <= c < s.len() implies #[trigger] settled(s, order, c) by {}
    }
}

/// Sinking from the one position where the heap property may fail downward restores it.
pub proof fn lemma_sift_down_restores<T: Ord>(s: Seq<T>, order: HeapOrder, i: int)
    requires
        lawful::<T>(),
        0 <= i,
        heap_but_below(s, order, i),
    ensures
        is_heap(sift_down(s, order, i), order),
    decreases s.len() - i,
{
    lemma_parent_of_child(i);
    if left_of(i) < s.len() && precedes(order, s[nearer_child(s, order, i)], s[i]) {
        let c = nearer_child(s, order, i);
        let t = swapped(s, i, c);
        lemma_parent_of_child(c);
        assert forall|d: int| 0 <= d < t.len() && parent_of(d) != c implies #[trigger] settled(
            t,
            order,
            d,
        ) by {
            if d == 0 {
            } else if d == i {
                assert(parent_of(c) == i);
                assert(!precedes(order, s[c], s[parent_of(i)]));
            } else if d == c {
                lemma_precedes_asymmetric(order, s[c], s[i]);
            } else if parent_of(d) == i {
                // the sibling of the chosen child
                if d == left_of(i) {
                    assert(c == right_of(i));
                } else {
                    assert(d == right_of(i));
                    assert(c == left_of(i));
                    lemma_precedes_asymmetric(order, s[c], s[d]);
                }
            } else {
                assert(settled(s, order, d));
            }
        }
        assert forall|d: int| 0 < c && 0 < d < t.len() && #[trigger] parent_of(d) == c implies !precedes(
            order,
            t[d],
            t[parent_of(c)],
        ) by {
            assert(settled(s, order, d));
        }
        lemma_sift_down_restores(t, order, c);
    } else {
        assert forall|d: int| 0 <= d < s.len() implies #[trigger] settled(s, order, d) by {
            if d > 0 && parent_of(d) == i {
                let c = nearer_child(s, order, i);
                if d != c {
                    if c == left_of(i) {
                        lemma_precedes_asymmetric(order, s[c], s[d]);
                    }
                    lemma_not_precedes_transitive(order, s[d], s[c], s[i]);
                }
            }
        }
    }
}

} // verus!
