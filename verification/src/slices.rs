//! What the library takes from std's slices.

use vstd::prelude::*;

verus! {

/// The sequence `s` with the items at positions `a` and `b` exchanged.
pub open spec fn swapped<T>(s: Seq<T>, a: int, b: int) -> Seq<T> {
    s.update(a, s[b]).update(b, s[a])
}

/// `<[E]>::swap` of std: exchanges the items at the two positions and leaves
/// every other item where it was. std panics when a position is outside the
/// slice, so both must lie inside it.
pub assume_specification<E>[ <[E]>::swap ](slice: &mut [E], a: usize, b: usize)
    requires
        a < old(slice)@.len(),
        b < old(slice)@.len(),
    ensures
        final(slice)@ == swapped(old(slice)@, a as int, b as int),
;

/// `<[E]>::reverse` of std: reverses the order of the items, in place.
pub assume_specification<E>[ <[E]>::reverse ](slice: &mut [E])
    ensures
        final(slice)@ == old(slice)@.reverse(),
;

/// Exchanging two items changes neither the length nor the multiset of items.
pub proof fn lemma_swapped_multiset<T>(s: Seq<T>, a: int, b: int)
    requires
        0 <= a < s.len(),
        0 <= b < s.len(),
    ensures
        swapped(s, a, b).len() == s.len(),
        swapped(s, a, b).to_multiset() == s.to_multiset(),
{
    broadcast use vstd::seq_lib::to_multiset_update;
    broadcast use vstd::multiset::group_multiset_axioms;
    broadcast use vstd::seq_lib::to_multiset_contains;

    let t = s.update(a, s[b]);
    assert(s.contains(s[a]));
    assert(s.contains(s[b]));
    assert(t.to_multiset() == s.to_multiset().insert(s[b]).remove(s[a]));
    assert(t[b] == s[b]);
    assert(swapped(s, a, b).to_multiset() == t.to_multiset().insert(s[a]).remove(t[b]));
    assert(swapped(s, a, b).to_multiset() =~= s.to_multiset());
}

} // verus!
