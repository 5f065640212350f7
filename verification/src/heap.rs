//! The heap container: an array-backed complete binary tree with a fixed ordering mode.

use crate::model::{lemma_popped, lemma_pushed, lemma_root_replaced_elements, popped, pushed};
use crate::order::{lawful, lemma_lawful_operators, precedes, HeapOrder};
use crate::shape::{is_heap, left_of, lemma_root_is_extreme, parent_of, right_of};
use crate::sift::{lemma_swapped_permutes, nearer_child, sift_down, sift_up};
use vstd::prelude::*;

verus! {

/// Trusted: the standard library's `<[T]>::swap`, which `Vec` offers through its slice.
/// It exchanges the elements at positions `a` and `b` in place and leaves every other
/// position alone; with `a == b` nothing changes. It panics on a position past the end,
/// which the precondition rules out.
pub assume_specification<E>[ <[E]>::swap ](s: &mut [E], a: usize, b: usize)
    requires
        a < old(s)@.len(),
        b < old(s)@.len(),
    ensures
        final(s)@ == old(s)@.update(a as int, old(s)@[b as int]).update(b as int, old(s)@[a as int]),
;

/// A binary heap whose root is the least element (minimum mode) or the greatest element
/// (maximum mode) of those it holds.
pub struct Heap<T> where T: Ord {
    nodes: Vec<T>,
    order: HeapOrder,
}

impl<T> View for Heap<T> where T: Ord {
    type V = Seq<T>;

    /// The elements in array layout: position 0 is the root, and the children of position
    /// `i` are at `2 * i + 1` and `2 * i + 2`.
    closed spec fn view(&self) -> Seq<T> {
        self.nodes@
    }
}

impl<T> Heap<T> where T: Ord {
    /// The ordering mode, fixed when the heap is made.
    pub closed spec fn order(&self) -> HeapOrder {
        self.order
    }

    /// Well-formedness: over a lawful element type the layout has the heap property.
    pub open spec fn wf(&self) -> bool {
        lawful::<T>() ==> is_heap(self@, self.order())
    }

    /// An empty heap that yields its least element first.
    pub fn min_heap() -> (heap: Self)
        ensures
            heap@ == Seq::<T>::empty(),
            heap.order() == HeapOrder::Min,
            heap.wf(),
    {
        Heap { nodes: vec![], order: HeapOrder::Min }
    }

    /// An empty heap that yields its greatest element first.
    pub fn max_heap() -> (heap: Self)
        ensures
            heap@ == Seq::<T>::empty(),
            heap.order() == HeapOrder::Max,
            heap.wf(),
    {
        Heap { nodes: vec![], order: HeapOrder::Max }
    }

    /// Inserts `elem`: it becomes the last leaf and climbs while it precedes its parent.
    /// The heap then holds one element more, `elem`, and still has the heap property.
    pub fn push(&mut self, elem: T)
        requires
            old(self).wf(),
        ensures
            final(self).wf(),
            final(self).order() == old(self).order(),
            final(self)@.len() == old(self)@.len() + 1,
            final(self)@.to_multiset() == old(self)@.to_multiset().insert(elem),
            lawful::<T>() ==> final(self)@ == pushed(old(self)@, old(self).order(), elem),
    {
        proof {
            vstd::seq_lib::to_multiset_build(self@, elem);
            lemma_pushed(self@, self.order(), elem);
        }
        self.nodes.push(elem);
        self.heapify_up(self.nodes.len() - 1);
    }

    /// Removes and returns the root, which no element of the heap precedes: the least
    /// element in minimum mode, the greatest in maximum mode. The last leaf takes the
    /// root's place and sinks while its nearer child precedes it. An empty heap returns
    /// `None` and stays as it is.
    pub fn pop(&mut self) -> (r: Option<T>)
        requires
            old(self).wf(),
        ensures
            final(self).wf(),
            final(self).order() == old(self).order(),
            match r {
                None => old(self)@.len() == 0 && final(self)@ == old(self)@,
                Some(elem) => {
                    &&& old(self)@.len() > 0
                    &&& elem == old(self)@[0]
                    &&& final(self)@.len() == old(self)@.len() - 1
                    &&& final(self)@.to_multiset() == old(self)@.to_multiset().remove(elem)
                },
            },
            lawful::<T>() ==> final(self)@ == popped(old(self)@, old(self).order()),
            lawful::<T>() ==> forall|i: int|
                0 <= i < old(self)@.len() ==> !precedes(
                    old(self).order(),
                    #[trigger] old(self)@[i],
                    old(self)@[0],
                ),
    {
        proof {
            if lawful::<T>() {
                assert forall|i: int| 0 <= i < self@.len() implies !precedes(
                    self.order(),
                    #[trigger] self@[i],
                    self@[0],
                ) by {
                    lemma_root_is_extreme(self@, self.order(), i);
                }
            }
        }
        if self.len() == 0 {
            return None;
        }
        proof {
            lemma_root_replaced_elements(self@);
            lemma_popped(self@, self.order());
        }
        let elem = self.nodes.swap_remove(0);
        self.heapify_down(0);
        Some(elem)
    }

    /// The number of elements held.
    #[inline]
    pub fn len(&self) -> (n: usize)
        ensures
            n == self@.len(),
    {
        self.nodes.len()
    }

    /// Position of the parent of the node at `index`, which is not the root.
    #[inline]
    fn parent(&self, index: usize) -> (p: usize)
        requires
            index > 0,
        ensures
            p == parent_of(index as int),
    {
        (index - 1) / 2
    }

    /// Position of the left child of the node at `index`.
    #[inline]
    fn left(&self, index: usize) -> (l: usize)
        requires
            left_of(index as int) <= usize::MAX,
        ensures
            l == left_of(index as int),
    {
        index * 2 + 1
    }

    /// Position of the right child of the node at `index`.
    #[inline]
    fn right(&self, index: usize) -> (r: usize)
        requires
            right_of(index as int) <= usize::MAX,
        ensures
            r == right_of(index as int),
    {
        index * 2 + 2
    }

    /// Whether the element at `index1` precedes the element at `index2` in this heap's
    /// mode.
    fn compare(&self, index1: usize, index2: usize) -> (r: bool)
        requires
            index1 < self@.len(),
            index2 < self@.len(),
        ensures
            lawful::<T>() ==> r == precedes(self.order(), self@[index1 as int], self@[index2 as int]),
    {
        proof {
            if lawful::<T>() {
                lemma_lawful_operators::<T>();
            }
        }
        match self.order {
            HeapOrder::Max => self.nodes[index1] > self.nodes[index2],
            HeapOrder::Min => self.nodes[index1] < self.nodes[index2],
        }
    }

    /// Lets the element at `index` climb: it is exchanged with its parent as long as it
    /// precedes that parent.
    #[verifier::loop_isolation(false)]
    fn heapify_up(&mut self, mut index: usize)
        requires
            index == 0 || index < old(self)@.len(),
        ensures
            final(self).order() == old(self).order(),
            final(self)@.len() == old(self)@.len(),
            final(self)@.to_multiset() == old(self)@.to_multiset(),
            lawful::<T>() ==> final(self)@ == sift_up(old(self)@, old(self).order(), index as int),
    {
        let ghost start = index as int;
        if index == 0 {
            return;
        }
        let mut parent = self.parent(index);

        while self.compare(index, parent)
            invariant
                0 < index < self@.len(),
                parent == parent_of(index as int),
                self.order() == old(self).order(),
                self@.len() == old(self)@.len(),
                self@.to_multiset() == old(self)@.to_multiset(),
                lawful::<T>() ==> sift_up(self@, self.order(), index as int) == sift_up(
                    old(self)@,
                    old(self).order(),
                    start,
                ),
            decreases index,
        {
            proof {
                lemma_swapped_permutes(self@, index as int, parent as int);
            }
            self.nodes.swap(index, parent);
            index = parent;
            if index == 0 {
                assert(sift_up(self@, self.order(), 0) == self@);
                return;
            }
            parent = self.parent(index);
        }
    }

    /// Lets the element at `index` sink: it is exchanged with its nearer child as long as
    /// that child precedes it.
    #[verifier::loop_isolation(false)]
    fn heapify_down(&mut self, mut index: usize)
        ensures
            final(self).order() == old(self).order(),
            final(self)@.len() == old(self)@.len(),
            final(self)@.to_multiset() == old(self)@.to_multiset(),
            lawful::<T>() ==> final(self)@ == sift_down(old(self)@, old(self).order(), index as int),
    {
        let ghost start = index as int;
        if self.len() <= 1 {
            return;
        }
        let last_index = self.len() - 1;
        let last_parent = self.parent(last_index);

        while index <= last_parent
            invariant
                last_index == self@.len() - 1,
                self.order() == old(self).order(),
                self@.len() == old(self)@.len(),
                self@.to_multiset() == old(self)@.to_multiset(),
                lawful::<T>() ==> sift_down(self@, self.order(), index as int) == sift_down(
                    old(self)@,
                    old(self).order(),
                    start,
                ),
            decreases last_index - index,
        {
            let left = self.left(index);
            let right = self.right(index);
            let child_to_compare = if left == last_index {
                left
            } else if self.compare(left, right) {
                left
            } else {
                right
            };
            assert(lawful::<T>() ==> child_to_compare == nearer_child(
                self@,
                self.order(),
                index as int,
            ));

            if self.compare(child_to_compare, index) {
                proof {
                    lemma_swapped_permutes(self@, index as int, child_to_compare as int);
                }
                self.nodes.swap(index, child_to_compare);
                index = child_to_compare;
            } else {
                return;
            }
        }
    }
}

} // verus!
