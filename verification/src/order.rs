//! The ordering mode of a heap and the comparison that it selects.

use core::cmp::Ordering;
use vstd::prelude::*;
use vstd::std_specs::cmp::PartialOrdSpec;

verus! {

/// Which end of the element order a heap keeps at its root.
#[derive(Clone, Copy, Debug, PartialEq, Eq, Structural)]
pub enum HeapOrder {
    Min,
    Max,
}

/// The element type's `Ord` is specified to Verus and obeys the laws of a total order.
/// vstd proves this of the integer types and of tuples, options and references built
/// from lawful types (`vstd::laws_cmp::group_laws_cmp`).
pub open spec fn lawful<T: Ord>() -> bool {
    vstd::laws_cmp::obeys_cmp::<T>()
}

/// `a` belongs strictly nearer the root than `b`: `a < b` in minimum mode, `a > b` in
/// maximum mode.
pub open spec fn precedes<T: Ord>(order: HeapOrder, a: T, b: T) -> bool {
    match order {
        HeapOrder::Min => a.partial_cmp_spec(&b) == Some(Ordering::Less),
        HeapOrder::Max => a.partial_cmp_spec(&b) == Some(Ordering::Greater),
    }
}

/// A lawful element type answers `<` and `>` as its specification says.
pub proof fn lemma_lawful_operators<T: Ord>()
    requires
        lawful::<T>(),
    ensures
        T::obeys_partial_cmp_spec(),
{
    reveal(vstd::laws_cmp::obeys_cmp_partial_ord);
}

/// No element precedes itself.
pub proof fn lemma_precedes_irreflexive<T: Ord>(order: HeapOrder, a: T)
    requires
        lawful::<T>(),
    ensures
        !precedes(order, a, a),
{
    reveal(vstd::laws_cmp::obeys_partial_cmp_spec_properties);
}

/// Of two elements at most one precedes the other.
pub proof fn lemma_precedes_asymmetric<T: Ord>(order: HeapOrder, a: T, b: T)
    requires
        lawful::<T>(),
        precedes(order, a, b),
    ensures
        !precedes(order, b, a),
{
    reveal(vstd::laws_cmp::obeys_partial_cmp_spec_properties);
}

/// "Does not precede" is transitive: if `a` does not precede `b` and `b` does not precede
/// `c`, then `a` does not precede `c`.
pub proof fn lemma_not_precedes_transitive<T: Ord>(order: HeapOrder, a: T, b: T, c: T)
    requires
        lawful::<T>(),
        !precedes(order, a, b),
        !precedes(order, b, c),
    ensures
        !precedes(order, a, c),
{
    reveal(vstd::laws_cmp::obeys_partial_cmp_spec_properties);
    reveal(vstd::laws_cmp::obeys_cmp_partial_ord);
    reveal(vstd::laws_cmp::obeys_cmp_ord);
    reveal(vstd::laws_eq::obeys_eq_spec_properties);
}

/// If `a` precedes `b`, then whatever does not precede `b` does not precede `a` either.
pub proof fn lemma_precedes_then_not_preceded<T: Ord>(order: HeapOrder, a: T, b: T, c: T)
    requires
        lawful::<T>(),
        precedes(order, a, b),
        !precedes(order, c, b),
    ensures
        !precedes(order, c, a),
{
    lemma_precedes_asymmetric(order, a, b);
    lemma_not_precedes_transitive(order, c, b, a);
}

} // verus!
