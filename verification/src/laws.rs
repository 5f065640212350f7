//! What holds of a heap over any history of insertions and extractions.

use crate::model::{lemma_popped, lemma_pushed, popped, pushed};
use crate::order::{lawful, precedes, HeapOrder};
use crate::shape::{is_heap, lemma_root_is_extreme};
use vstd::prelude::*;

verus! {

/// One call on a heap.
pub enum Op<T> {
    Push(T),
    Pop,
}

/// The layout of a heap that started empty and received the calls `ops` in turn.
pub open spec fn run<T: Ord>(ops: Seq<Op<T>>, order: HeapOrder) -> Seq<T>
    decreases ops.len(),
{
    if ops.len() == 0 {
        Seq::empty()
    } else {
        let before = run(ops.drop_last(), order);
        match ops.last() {
            Op::Push(elem) => pushed(before, order, elem),
            Op::Pop => popped(before, order),
        }
    }
}

/// The elements that the calls `ops` inserted, in call order.
pub open spec fn inserted<T>(ops: Seq<Op<T>>) -> Seq<T>
    decreases ops.len(),
{
    if ops.len() == 0 {
        Seq::empty()
    } else {
        match ops.last() {
            Op::Push(elem) => inserted(ops.drop_last()).push(elem),
            Op::Pop => inserted(ops.drop_last()),
        }
    }
}

/// The elements that the extractions among `ops` returned, in call order. An extraction
/// from an empty heap returns none.
pub open spec fn yielded<T: Ord>(ops: Seq<Op<T>>, order: HeapOrder) -> Seq<T>
    decreases ops.len(),
{
    if ops.len() == 0 {
        Seq::empty()
    } else {
        let before = run(ops.drop_last(), order);
        match ops.last() {
            Op::Push(_) => yielded(ops.drop_last(), order),
            Op::Pop => if before.len() == 0 {
                yielded(ops.drop_last(), order)
            } else {
                yielded(ops.drop_last(), order).push(before[0])
            },
        }
    }
}

/// The elements returned by up to `n` extractions in a row from the layout `s`, first
/// extraction first.
pub open spec fn drained<T: Ord>(s: Seq<T>, order: HeapOrder, n: nat) -> Seq<T>
    decreases n,
{
    if n == 0 || s.len() == 0 {
        Seq::empty()
    } else {
        seq![s[0]] + drained(popped(s, order), order, (n - 1) as nat)
    }
}

/// The layout after the elements of `elems` were inserted in turn into an empty heap.
pub open spec fn built<T: Ord>(elems: Seq<T>, order: HeapOrder) -> Seq<T>
    decreases elems.len(),
{
    if elems.len() == 0 {
        Seq::empty()
    } else {
        pushed(built(elems.drop_last(), order), order, elems.last())
    }
}

/// No later element of `out` precedes an earlier one: `out` is non-decreasing in minimum
/// mode and non-increasing in maximum mode.
pub open spec fn in_extraction_order<T: Ord>(out: Seq<T>, order: HeapOrder) -> bool {
    forall|i: int, j: int| 0 <= i < j < out.len() ==> !precedes(order, out[j], out[i])
}

/// Whatever calls were made, the layout has the heap property.
pub proof fn lemma_heap_property_invariant<T: Ord>(ops: Seq<Op<T>>, order: HeapOrder)
    requires
        lawful::<T>(),
    ensures
        is_heap(run(ops, order), order),
    decreases ops.len(),
{
    if ops.len() > 0 {
        let before = run(ops.drop_last(), order);
        lemma_heap_property_invariant(ops.drop_last(), order);
        match ops.last() {
            Op::Push(elem) => lemma_pushed(before, order, elem),
            Op::Pop => if before.len() > 0 {
                lemma_popped(before, order);
            },
        }
    }
}

/// Whatever calls were made, the elements held and the elements returned together are
/// the elements inserted; so the size is the number of insertions less the number of
/// extractions that returned an element.
pub proof fn lemma_size_accounting<T: Ord>(ops: Seq<Op<T>>, order: HeapOrder)
    ensures
        run(ops, order).to_multiset().add(yielded(ops, order).to_multiset()) == inserted(
            ops,
        ).to_multiset(),
        run(ops, order).len() == inserted(ops).len() - yielded(ops, order).len(),
    decreases ops.len(),
{
    broadcast use vstd::multiset::group_multiset_axioms;

    let held = run(ops, order).to_multiset();
    let out = yielded(ops, order).to_multiset();
    if ops.len() == 0 {
        vstd::seq_lib::to_multiset_len(Seq::<T>::empty());
        assert(held.add(out) =~= inserted(ops).to_multiset());
    } else {
        let before = run(ops.drop_last(), order);
        let out_before = yielded(ops.drop_last(), order);
        lemma_size_accounting(ops.drop_last(), order);
        match ops.last() {
            Op::Push(elem) => {
                lemma_pushed(before, order, elem);
                vstd::seq_lib::to_multiset_build(inserted(ops.drop_last()), elem);
                assert(held.add(out) =~= inserted(ops).to_multiset());
            },
            Op::Pop => if before.len() > 0 {
                lemma_popped(before, order);
                vstd::seq_lib::to_multiset_build(out_before, before[0]);
                vstd::seq_lib::to_multiset_contains(before, before[0]);
                assert(before.contains(before[0]));
                assert(held.add(out) =~= inserted(ops).to_multiset());
            },
        }
    }
}

/// An extraction from an empty heap returns nothing and changes nothing, however often
/// it is repeated.
pub proof fn lemma_empty_stays_empty<T: Ord>(ops: Seq<Op<T>>, order: HeapOrder, n: nat)
    requires
        run(ops, order).len() == 0,
    ensures
        run(ops + Seq::new(n, |i: int| Op::<T>::Pop), order) == run(ops, order),
        yielded(ops + Seq::new(n, |i: int| Op::<T>::Pop), order) == yielded(ops, order),
    decreases n,
{
    let more = ops + Seq::new(n, |i: int| Op::<T>::Pop);
    if n == 0 {
        assert(more =~= ops);
    } else {
        let fewer = ops + Seq::new((n - 1) as nat, |i: int| Op::<T>::Pop);
        lemma_empty_stays_empty(ops, order, (n - 1) as nat);
        assert(more.drop_last() =~= fewer);
        assert(more.last() == Op::<T>::Pop);
    }
}

/// Every element that successive extractions return was in the layout.
pub proof fn lemma_drained_from<T: Ord>(s: Seq<T>, order: HeapOrder, n: nat, k: int)
    requires
        0 <= k < drained(s, order, n).len(),
    ensures
        s.contains(drained(s, order, n)[k]),
    decreases n,
{
    if k > 0 {
        let rest = popped(s, order);
        let x = drained(rest, order, (n - 1) as nat)[k - 1];
        lemma_drained_from(rest, order, (n - 1) as nat, k - 1);
        lemma_popped(s, order);
        vstd::seq_lib::to_multiset_contains(rest, x);
        vstd::seq_lib::to_multiset_contains(s, x);
        broadcast use vstd::multiset::group_multiset_axioms;

    }
}

/// Successive extractions from a heap return elements in extraction order.
pub proof fn lemma_drained_in_order<T: Ord>(s: Seq<T>, order: HeapOrder, n: nat)
    requires
        lawful::<T>(),
        is_heap(s, order),
    ensures
        in_extraction_order(drained(s, order, n), order),
    decreases n,
{
    let out = drained(s, order, n);
    if n > 0 && s.len() > 0 {
        let rest = popped(s, order);
        let tail = drained(rest, order, (n - 1) as nat);
        lemma_popped(s, order);
        lemma_drained_in_order(rest, order, (n - 1) as nat);
        assert forall|i: int, j: int| 0 <= i < j < out.len() implies !precedes(
            order,
            out[j],
            out[i],
        ) by {
            if i == 0 {
                lemma_drained_from(s, order, n, j);
                let at = choose|at: int| 0 <= at < s.len() && s[at] == out[j];
                lemma_root_is_extreme(s, order, at);
            } else {
                assert(out[i] == tail[i - 1] && out[j] == tail[j - 1]);
            }
        }
    }
}

/// As many extractions as the layout has elements return exactly its elements.
pub proof fn lemma_drained_all<T: Ord>(s: Seq<T>, order: HeapOrder, n: nat)
    ensures
        drained(s, order, n).len() == if n <= s.len() { n } else { s.len() },
        n >= s.len() ==> drained(s, order, n).to_multiset() == s.to_multiset(),
    decreases n,
{
    broadcast use vstd::multiset::group_multiset_axioms;

    if n == 0 || s.len() == 0 {
        if s.len() == 0 {
            assert(s =~= drained(s, order, n));
        }
    } else {
        let rest = popped(s, order);
        let tail = drained(rest, order, (n - 1) as nat);
        lemma_popped(s, order);
        lemma_drained_all(rest, order, (n - 1) as nat);
        if n >= s.len() {
            vstd::seq_lib::to_multiset_insert(tail, 0, s[0]);
            assert(tail.insert(0, s[0]) =~= seq![s[0]] + tail);
            vstd::seq_lib::to_multiset_contains(s, s[0]);
            assert(s.contains(s[0]));
            assert(drained(s, order, n).to_multiset() =~= s.to_multiset());
        }
    }
}

/// Inserting the elements of `elems` one by one gives a heap of exactly those elements.
pub proof fn lemma_built<T: Ord>(elems: Seq<T>, order: HeapOrder)
    ensures
        built(elems, order).len() == elems.len(),
        built(elems, order).to_multiset() == elems.to_multiset(),
        lawful::<T>() ==> is_heap(built(elems, order), order),
    decreases elems.len(),
{
    if elems.len() == 0 {
        assert(built(elems, order) =~= elems);
    } else {
        lemma_built(elems.drop_last(), order);
        lemma_pushed(built(elems.drop_last(), order), order, elems.last());
        vstd::seq_lib::to_multiset_build(elems.drop_last(), elems.last());
        assert(elems.drop_last().push(elems.last()) =~= elems);
    }
}

/// After the elements of `elems` were inserted into an empty heap, as many extractions
/// return exactly those elements, non-decreasing in minimum mode and non-increasing in
/// maximum mode.
pub proof fn lemma_extraction_order<T: Ord>(elems: Seq<T>, order: HeapOrder)
    requires
        lawful::<T>(),
    ensures
        drained(built(elems, order), order, elems.len()).len() == elems.len(),
        drained(built(elems, order), order, elems.len()).to_multiset() == elems.to_multiset(),
        in_extraction_order(drained(built(elems, order), order, elems.len()), order),
{
    lemma_built(elems, order);
    lemma_drained_all(built(elems, order), order, elems.len());
    lemma_drained_in_order(built(elems, order), order, elems.len());
}

} // verus!
