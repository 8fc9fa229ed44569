//! The order that the containers read from `<` on their items.

use std::cmp::Ordering;
use vstd::prelude::*;
use vstd::std_specs::cmp::{OrdSpec, PartialEqSpec, PartialOrdSpec};

verus! {

/// `a` is strictly below `b`: what `a < b` means for `T`.
pub open spec fn less<T: PartialOrd>(a: T, b: T) -> bool {
    a.partial_cmp_spec(&b) == Some(Ordering::Less)
}

/// `b` is not strictly below `a`. This is the only sense of "`a <= b`" that
/// the containers use: it needs `<` alone, no equality on `T`.
pub open spec fn at_most<T: PartialOrd>(a: T, b: T) -> bool {
    !less(b, a)
}

/// The executable `<` on `T` computes `less`.
pub open spec fn compares<T: PartialOrd>() -> bool {
    T::obeys_partial_cmp_spec()
}

/// `<` on `T` is a strict weak order: the executable operator computes
/// `less`, no two items are each below the other, and `at_most` is
/// transitive. Then `at_most` is a total preorder, which is what the heap
/// property and sortedness need. Floats fail this (NaN), integers meet it.
pub open spec fn strict_weak_order<T: PartialOrd>() -> bool {
    &&& compares::<T>()
    &&& forall|a: T, b: T| #[trigger] less(a, b) ==> at_most(a, b)
    &&& forall|a: T, b: T, c: T| #[trigger]
        at_most(a, b) && #[trigger] at_most(b, c) ==> at_most(a, c)
}

/// Items that are each `at_most` the other are the same item. Orders on
/// integers have this; an order by one key of a record does not.
pub open spec fn separates<T: PartialOrd>() -> bool {
    forall|a: T, b: T| #[trigger] at_most(a, b) && #[trigger] at_most(b, a) ==> a == b
}

/// Every item is `at_most` itself.
pub proof fn lemma_at_most_refl<T: PartialOrd>(a: T)
    requires
        strict_weak_order::<T>(),
    ensures
        at_most(a, a),
{
    if less(a, a) {
        assert(at_most(a, a));
    }
}

/// Of two items, one is `at_most` the other.
pub proof fn lemma_at_most_total<T: PartialOrd>(a: T, b: T)
    requires
        strict_weak_order::<T>(),
    ensures
        at_most(a, b) || at_most(b, a),
{
    if less(b, a) {
        assert(at_most(b, a));
    }
}

/// `at_most` is transitive.
pub proof fn lemma_at_most_trans<T: PartialOrd>(a: T, b: T, c: T)
    requires
        strict_weak_order::<T>(),
        at_most(a, b),
        at_most(b, c),
    ensures
        at_most(a, c),
{
}

/// An item strictly below another is also `at_most` it.
pub proof fn lemma_less_at_most<T: PartialOrd>(a: T, b: T)
    requires
        strict_weak_order::<T>(),
        less(a, b),
    ensures
        at_most(a, b),
{
}

/// Where `T` has a total order that obeys vstd's laws of comparison, and its
/// `==` is equality of values, `<` is a strict weak order that separates
/// items. The integer types are such, and tuples of them.
pub proof fn lemma_total_order<T: Ord>()
    requires
        vstd::laws_cmp::obeys_cmp::<T>(),
        vstd::laws_eq::obeys_concrete_eq::<T>(),
    ensures
        strict_weak_order::<T>(),
        separates::<T>(),
{
    reveal(vstd::laws_cmp::obeys_partial_cmp_spec_properties);
    reveal(vstd::laws_cmp::obeys_cmp_partial_ord);
    reveal(vstd::laws_cmp::obeys_cmp_ord);
    reveal(vstd::laws_eq::obeys_concrete_eq);
    assert forall|a: T, b: T| #[trigger] less(a, b) implies at_most(a, b) by {
        assert(b.partial_cmp_spec(&a) == Some(Ordering::Greater));
    }
    assert forall|a: T, b: T| #[trigger] at_most(a, b) && #[trigger] at_most(b, a) implies a
        == b by {
        assert(a.partial_cmp_spec(&b) == Some(a.cmp_spec(&b)));
        assert(b.partial_cmp_spec(&a) == Some(b.cmp_spec(&a)));
        if a.partial_cmp_spec(&b) == Some(Ordering::Greater) {
            assert(b.partial_cmp_spec(&a) == Some(Ordering::Less));
        }
        assert(a.eq_spec(&b));
    }
    assert forall|a: T, b: T, c: T| #[trigger] at_most(a, b) && #[trigger] at_most(b, c) implies at_most(
        a,
        c,
    ) by {
        assert(b.partial_cmp_spec(&a) == Some(b.cmp_spec(&a)));
        assert(c.partial_cmp_spec(&b) == Some(c.cmp_spec(&b)));
        assert(c.partial_cmp_spec(&a) == Some(c.cmp_spec(&a)));
        if b.partial_cmp_spec(&a) == Some(Ordering::Equal) {
            assert(b.eq_spec(&a));
            assert(b == a);
        } else if c.partial_cmp_spec(&b) == Some(Ordering::Equal) {
            assert(c.eq_spec(&b));
            assert(c == b);
        } else {
            assert(b.partial_cmp_spec(&a) == Some(Ordering::Greater));
            assert(c.partial_cmp_spec(&b) == Some(Ordering::Greater));
            assert(c.partial_cmp_spec(&a) == Some(Ordering::Greater));
        }
    }
}

} // verus!
