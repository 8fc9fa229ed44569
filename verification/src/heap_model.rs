//! The heap as mathematics: the heap property on a sequence, what sifting an
//! item down or up makes of a sequence, and why those restore the property.

use crate::order::{
    at_most, lemma_at_most_refl, lemma_at_most_total, lemma_at_most_trans, lemma_less_at_most,
    less, separates, strict_weak_order,
};
use crate::slices::{lemma_swapped_multiset, swapped};
use vstd::multiset::Multiset;
use vstd::prelude::*;

verus! {

/// The position above `i` in the tree that the sequence lays out.
pub open spec fn parent(i: int) -> int {
    (i - 1) / 2
}

/// The first of the two positions below `i`.
pub open spec fn left(i: int) -> int {
    2 * i + 1
}

/// Among the first `n` items of `s`, every item whose parent sits at `lo` or
/// later is not below that parent.
pub open spec fn heap_from<T: PartialOrd>(s: Seq<T>, lo: int, n: int) -> bool {
    forall|i: int| 0 < i < n && lo <= parent(i) ==> at_most(s[parent(i)], #[trigger] s[i])
}

/// The min-heap property: no item is below its parent.
pub open spec fn is_heap<T: PartialOrd>(s: Seq<T>) -> bool {
    heap_from(s, 0, s.len() as int)
}

/// The child of `i` that a sift-down compares with `i`, among the first `n`
/// items: the right one only where it is strictly below the left one.
pub open spec fn low_child<T: PartialOrd>(s: Seq<T>, i: int, n: int) -> int {
    if left(i) + 1 < n && less(s[left(i) + 1], s[left(i)]) {
        left(i) + 1
    } else {
        left(i)
    }
}

/// What sifting down from position `i` makes of `s`, where only the first `n`
/// items take part: while the lower child is strictly below the item, the two
/// change places.
pub open spec fn sift_down<T: PartialOrd>(s: Seq<T>, i: int, n: int) -> Seq<T>
    decreases n - i,
{
    if 0 <= i && left(i) < n <= s.len() && less(s[low_child(s, i, n)], s[i]) {
        sift_down(swapped(s, low_child(s, i, n), i), low_child(s, i, n), n)
    } else {
        s
    }
}

/// What sifting up from position `i` makes of `s`: while the item is strictly
/// below its parent, the two change places.
pub open spec fn sift_up<T: PartialOrd>(s: Seq<T>, i: int) -> Seq<T>
    decreases i,
{
    if 0 < i < s.len() && less(s[i], s[parent(i)]) {
        sift_up(swapped(s, i, parent(i)), parent(i))
    } else {
        s
    }
}

/// The heap property among the first `n` items for parents from `lo` on,
/// with a hole at `i`: the item at `i` may be above its children, and each
/// child of `i` is not below the parent of `i` where that parent counts.
pub open spec fn heap_hole<T: PartialOrd>(s: Seq<T>, lo: int, i: int, n: int) -> bool {
    &&& forall|j: int|
        0 < j < n && lo <= parent(j) && parent(j) != i ==> at_most(s[parent(j)], #[trigger] s[j])
    &&& i > lo ==> forall|j: int|
        0 < j < n && parent(j) == i ==> at_most(s[parent(i)], #[trigger] s[j])
}

/// The heap property with a hole at `i` that looks upward: the item at `i`
/// may be below its parent, and each child of `i` is not below that parent.
pub open spec fn heap_gap<T: PartialOrd>(s: Seq<T>, i: int) -> bool {
    &&& forall|j: int| 0 < j < s.len() && j != i ==> at_most(s[parent(j)], #[trigger] s[j])
    &&& i > 0 ==> forall|j: int|
        0 < j < s.len() && parent(j) == i ==> at_most(s[parent(i)], #[trigger] s[j])
}

/// Sifting down keeps the length, and moves no item before `i` or from `n` on.
pub proof fn lemma_sift_down_frame<T: PartialOrd>(s: Seq<T>, i: int, n: int)
    ensures
        sift_down(s, i, n).len() == s.len(),
        forall|j: int|
            0 <= j < s.len() && (j < i || n <= j) ==> #[trigger] sift_down(s, i, n)[j] == s[j],
    decreases n - i,
{
    if 0 <= i && left(i) < n <= s.len() && less(s[low_child(s, i, n)], s[i]) {
        let c = low_child(s, i, n);
        lemma_sift_down_frame(swapped(s, c, i), c, n);
    }
}

/// Sifting down from a hole closes it: with the heap property everywhere but
/// at `i`, the result has it everywhere.
pub proof fn lemma_sift_down_heap<T: PartialOrd>(s: Seq<T>, lo: int, i: int, n: int)
    requires
        strict_weak_order::<T>(),
        0 <= lo <= i < n <= s.len(),
        heap_hole(s, lo, i, n),
    ensures
        heap_from(sift_down(s, i, n), lo, n),
    decreases n - i,
{
    let l = left(i);
    if l < n {
        let c = low_child(s, i, n);
        if c == l + 1 {
            lemma_less_at_most(s[l + 1], s[l]);
        }
        if less(s[c], s[i]) {
            let t = swapped(s, c, i);
            lemma_less_at_most(s[c], s[i]);
            assert forall|j: int|
                0 < j < n && lo <= parent(j) && parent(j) != c implies at_most(
                t[parent(j)],
                #[trigger] t[j],
            ) by {
                if parent(j) == i {
                    if j != c {
                        assert(at_most(s[c], s[j]));
                    }
                } else if j == i {
                    assert(at_most(s[parent(i)], s[c]));
                } else {
                    assert(at_most(s[parent(j)], s[j]));
                }
            }
            assert forall|j: int| 0 < j < n && parent(j) == c implies at_most(
                t[parent(c)],
                #[trigger] t[j],
            ) by {
                assert(at_most(s[parent(j)], s[j]));
            }
            lemma_sift_down_heap(t, lo, c, n);
        } else {
            assert forall|j: int| 0 < j < n && lo <= parent(j) implies at_most(
                s[parent(j)],
                #[trigger] s[j],
            ) by {
                if parent(j) == i {
                    if j != c {
                        assert(at_most(s[c], s[j]));
                        lemma_at_most_trans(s[i], s[c], s[j]);
                    }
                } else {
                    assert(at_most(s[parent(j)], s[j]));
                }
            }
        }
    } else {
        assert forall|j: int| 0 < j < n && lo <= parent(j) implies at_most(
            s[parent(j)],
            #[trigger] s[j],
        ) by {
            assert(parent(j) != i);
        }
    }
}

/// Sifting up keeps the length.
pub proof fn lemma_sift_up_len<T: PartialOrd>(s: Seq<T>, i: int)
    ensures
        sift_up(s, i).len() == s.len(),
    decreases i,
{
    if 0 < i < s.len() && less(s[i], s[parent(i)]) {
        lemma_sift_up_len(swapped(s, i, parent(i)), parent(i));
    }
}

/// Sifting up from a hole closes it.
pub proof fn lemma_sift_up_heap<T: PartialOrd>(s: Seq<T>, i: int)
    requires
        strict_weak_order::<T>(),
        0 <= i < s.len(),
        heap_gap(s, i),
    ensures
        is_heap(sift_up(s, i)),
    decreases i,
{
    lemma_sift_up_len(s, i);
    if i > 0 && less(s[i], s[parent(i)]) {
        let p = parent(i);
        let t = swapped(s, i, p);
        lemma_less_at_most(s[i], s[p]);
        assert forall|j: int| 0 < j < t.len() && j != p implies at_most(
            t[parent(j)],
            #[trigger] t[j],
        ) by {
            if j == i {
            } else if parent(j) == p {
                assert(at_most(s[p], s[j]));
                lemma_at_most_trans(s[i], s[p], s[j]);
            } else if parent(j) == i {
                assert(at_most(s[parent(i)], s[j]));
            } else {
                assert(at_most(s[parent(j)], s[j]));
            }
        }
        if p > 0 {
            assert forall|j: int| 0 < j < t.len() && parent(j) == p implies at_most(
                t[parent(p)],
                #[trigger] t[j],
            ) by {
                assert(at_most(s[parent(p)], s[p]));
                if j != i {
                    assert(at_most(s[p], s[j]));
                    lemma_at_most_trans(s[parent(p)], s[p], s[j]);
                }
            }
        }
        lemma_sift_up_heap(t, p);
    } else {
        assert forall|j: int| 0 < j < s.len() implies at_most(s[parent(j)], #[trigger] s[j]) by {
            if j != i {
                assert(at_most(s[parent(j)], s[j]));
            }
        }
    }
}

/// `s` after a sift-down from each of the positions `k - 1`, `k - 2`, down
/// to 0, in that order.
pub open spec fn heapified<T: PartialOrd>(s: Seq<T>, k: int) -> Seq<T>
    decreases k,
{
    if k <= 0 {
        s
    } else {
        heapified(sift_down(s, k - 1, s.len() as int), k - 1)
    }
}

/// What building a heap makes of `s`: a sift-down from the last position
/// that has a child, then from each one before it, down to the root.
pub open spec fn built<T: PartialOrd>(s: Seq<T>) -> Seq<T> {
    heapified(s, s.len() as int / 2)
}

/// What pushing `v` makes of the heap `s`: `v` goes to the end and is sifted up.
pub open spec fn pushed<T: PartialOrd>(s: Seq<T>, v: T) -> Seq<T> {
    sift_up(s.push(v), s.len() as int)
}

/// What popping leaves of the heap `s`: the last item takes the root's place
/// and is sifted down.
pub open spec fn popped<T: PartialOrd>(s: Seq<T>) -> Seq<T> {
    if s.len() <= 1 {
        Seq::empty()
    } else {
        sift_down(swapped(s, 0, s.len() - 1).drop_last(), 0, s.len() - 1)
    }
}

/// `x` is not above any of the first `n` items of `s`.
pub open spec fn below_all<T: PartialOrd>(x: T, s: Seq<T>, n: int) -> bool {
    forall|j: int| 0 <= j < n ==> at_most(x, #[trigger] s[j])
}

/// `x` is a least item of `s`: not above any item of `s`.
pub open spec fn is_least<T: PartialOrd>(x: T, s: Seq<T>) -> bool {
    below_all(x, s, s.len() as int)
}

/// No item of `s` is below an earlier one.
pub open spec fn ascending<T: PartialOrd>(s: Seq<T>) -> bool {
    forall|i: int, j: int| 0 <= i < j < s.len() ==> at_most(#[trigger] s[i], #[trigger] s[j])
}

/// No item of `s` is above an earlier one.
pub open spec fn descending<T: PartialOrd>(s: Seq<T>) -> bool {
    forall|i: int, j: int| 0 <= i < j < s.len() ==> at_most(#[trigger] s[j], #[trigger] s[i])
}

/// The selection phase of heap sort on `s`, whose first `m` items are still a
/// heap: the root changes places with the last of them, the heap shrinks by
/// one and the new root is sifted down, until one item is left.
pub open spec fn selected<T: PartialOrd>(s: Seq<T>, m: int) -> Seq<T>
    decreases m,
{
    if 1 < m <= s.len() {
        selected(sift_down(swapped(s, 0, m - 1), 0, m - 1), m - 1)
    } else {
        s
    }
}

/// What heap sort makes of `s`: build, select, reverse.
pub open spec fn heap_sorted<T: PartialOrd>(s: Seq<T>) -> Seq<T> {
    selected(built(s), s.len() as int).reverse()
}

/// Building keeps the length.
pub proof fn lemma_heapified_len<T: PartialOrd>(s: Seq<T>, k: int)
    ensures
        heapified(s, k).len() == s.len(),
    decreases k,
{
    if k > 0 {
        lemma_sift_down_frame(s, k - 1, s.len() as int);
        lemma_heapified_len(sift_down(s, k - 1, s.len() as int), k - 1);
    }
}

/// With the heap property for parents from `k` on, the sift-downs from
/// `k - 1` down to the root give it everywhere.
pub proof fn lemma_heapified_heap<T: PartialOrd>(s: Seq<T>, k: int)
    requires
        strict_weak_order::<T>(),
        0 <= k <= s.len() / 2,
        heap_from(s, k, s.len() as int),
    ensures
        is_heap(heapified(s, k)),
    decreases k,
{
    lemma_heapified_len(s, k);
    if k > 0 {
        let n = s.len() as int;
        let t = sift_down(s, k - 1, n);
        assert(heap_hole(s, k - 1, k - 1, n)) by {
            assert forall|j: int|
                0 < j < n && k - 1 <= parent(j) && parent(j) != k - 1 implies at_most(
                s[parent(j)],
                #[trigger] s[j],
            ) by {
                assert(k <= parent(j));
            }
        }
        lemma_sift_down_heap(s, k - 1, k - 1, n);
        lemma_sift_down_frame(s, k - 1, n);
        lemma_heapified_heap(t, k - 1);
    }
}

/// Building a heap gives the heap property.
pub proof fn lemma_built_heap<T: PartialOrd>(s: Seq<T>)
    requires
        strict_weak_order::<T>(),
    ensures
        is_heap(built(s)),
        built(s).len() == s.len(),
{
    let n = s.len() as int;
    assert forall|j: int| 0 < j < n && n / 2 <= parent(j) implies at_most(
        s[parent(j)],
        #[trigger] s[j],
    ) by {
        assert(parent(j) < n / 2);
    }
    lemma_heapified_heap(s, n / 2);
    lemma_heapified_len(s, n / 2);
}

/// The root of a heap is a least item of it.
pub proof fn lemma_root_least<T: PartialOrd>(s: Seq<T>, n: int)
    requires
        strict_weak_order::<T>(),
        0 < n <= s.len(),
        heap_from(s, 0, n),
    ensures
        below_all(s[0], s, n),
{
    assert forall|j: int| 0 <= j < n implies at_most(s[0], #[trigger] s[j]) by {
        lemma_root_below(s, n, j);
    }
}

proof fn lemma_root_below<T: PartialOrd>(s: Seq<T>, n: int, j: int)
    requires
        strict_weak_order::<T>(),
        0 <= j < n <= s.len(),
        heap_from(s, 0, n),
    ensures
        at_most(s[0], s[j]),
    decreases j,
{
    if j == 0 {
        lemma_at_most_refl(s[0]);
    } else {
        lemma_root_below(s, n, parent(j));
        assert(at_most(s[parent(j)], s[j]));
        lemma_at_most_trans(s[0], s[parent(j)], s[j]);
    }
}

/// Pushing onto a heap gives a heap, one item longer.
pub proof fn lemma_pushed_heap<T: PartialOrd>(s: Seq<T>, v: T)
    requires
        strict_weak_order::<T>(),
        is_heap(s),
    ensures
        is_heap(pushed(s, v)),
        pushed(s, v).len() == s.len() + 1,
{
    let t = s.push(v);
    let i = s.len() as int;
    assert forall|j: int| 0 < j < t.len() && j != i implies at_most(
        t[parent(j)],
        #[trigger] t[j],
    ) by {
        assert(at_most(s[parent(j)], s[j]));
    }
    lemma_sift_up_heap(t, i);
    lemma_sift_up_len(t, i);
}

/// Popping from a heap leaves a heap, one item shorter.
pub proof fn lemma_popped_heap<T: PartialOrd>(s: Seq<T>)
    requires
        strict_weak_order::<T>(),
        is_heap(s),
        s.len() > 0,
    ensures
        is_heap(popped(s)),
        popped(s).len() == s.len() - 1,
{
    if s.len() > 1 {
        let n = s.len() - 1;
        let t = swapped(s, 0, n).drop_last();
        assert forall|j: int| 0 < j < n && 0 <= parent(j) && parent(j) != 0 implies at_most(
            t[parent(j)],
            #[trigger] t[j],
        ) by {
            assert(at_most(s[parent(j)], s[j]));
        }
        lemma_sift_down_heap(t, 0, 0, n);
        lemma_sift_down_frame(t, 0, n);
    }
}

/// Sifting down among the first `n` items leaves every lower bound of those
/// items a lower bound of them.
pub proof fn lemma_sift_down_below<T: PartialOrd>(s: Seq<T>, i: int, n: int, x: T)
    requires
        below_all(x, s, n),
    ensures
        below_all(x, sift_down(s, i, n), n),
    decreases n - i,
{
    if 0 <= i && left(i) < n <= s.len() && less(s[low_child(s, i, n)], s[i]) {
        let c = low_child(s, i, n);
        let t = swapped(s, c, i);
        assert forall|j: int| 0 <= j < n implies at_most(x, #[trigger] t[j]) by {
            assert(at_most(x, s[j]));
            assert(at_most(x, s[c]));
            assert(at_most(x, s[i]));
        }
        lemma_sift_down_below(t, c, n, x);
    }
}

/// The state of the selection phase with `m` items left in the heap: those
/// form a heap, the items behind them descend, and none of the items behind
/// is above an item of the heap.
pub open spec fn selecting<T: PartialOrd>(s: Seq<T>, m: int) -> bool {
    &&& 0 <= m <= s.len()
    &&& heap_from(s, 0, m)
    &&& forall|b: int| m <= b < s.len() ==> below_all(#[trigger] s[b], s, m)
    &&& forall|i: int, j: int|
        m <= i < j < s.len() ==> at_most(#[trigger] s[j], #[trigger] s[i])
}

/// The selection phase turns a heap into a descending sequence.
pub proof fn lemma_selected_descending<T: PartialOrd>(s: Seq<T>, m: int)
    requires
        strict_weak_order::<T>(),
        selecting(s, m),
    ensures
        descending(selected(s, m)),
        selected(s, m).len() == s.len(),
    decreases m,
{
    if 1 < m {
        let u = swapped(s, 0, m - 1);
        let t = sift_down(u, 0, m - 1);
        lemma_sift_down_frame(u, 0, m - 1);
        lemma_root_least(s, m);
        assert(heap_hole(u, 0, 0, m - 1)) by {
            assert forall|j: int|
                0 < j < m - 1 && 0 <= parent(j) && parent(j) != 0 implies at_most(
                u[parent(j)],
                #[trigger] u[j],
            ) by {
                assert(at_most(s[parent(j)], s[j]));
            }
        }
        lemma_sift_down_heap(u, 0, 0, m - 1);
        assert forall|b: int| m - 1 <= b < t.len() implies below_all(#[trigger] t[b], t, m - 1) by {
            assert(t[b] == u[b]);
            assert(below_all(u[b], u, m - 1)) by {
                assert forall|a: int| 0 <= a < m - 1 implies at_most(u[b], #[trigger] u[a]) by {
                    if b == m - 1 {
                        assert(at_most(s[0], s[a]));
                        assert(at_most(s[0], s[m - 1]));
                    } else {
                        assert(below_all(s[b], s, m));
                        assert(at_most(s[b], s[a]));
                        assert(at_most(s[b], s[m - 1]));
                    }
                }
            }
            lemma_sift_down_below(u, 0, m - 1, u[b]);
        }
        assert forall|i: int, j: int| m - 1 <= i < j < t.len() implies at_most(
            #[trigger] t[j],
            #[trigger] t[i],
        ) by {
            assert(t[i] == u[i]);
            assert(t[j] == u[j]);
            if i == m - 1 {
                assert(below_all(s[j], s, m));
                assert(at_most(s[j], s[0]));
            } else {
                assert(at_most(s[j], s[i]));
            }
        }
        lemma_selected_descending(t, m - 1);
    } else {
        assert forall|i: int, j: int| 0 <= i < j < s.len() implies at_most(
            #[trigger] s[j],
            #[trigger] s[i],
        ) by {
            if i < m {
                assert(below_all(s[j], s, m));
                assert(at_most(s[j], s[i]));
            }
        }
    }
}

/// Heap sort gives an ascending sequence of the same length.
pub proof fn lemma_heap_sorted_ascending<T: PartialOrd>(s: Seq<T>)
    requires
        strict_weak_order::<T>(),
    ensures
        ascending(heap_sorted(s)),
        heap_sorted(s).len() == s.len(),
{
    let b = built(s);
    lemma_built_heap(s);
    let d = selected(b, s.len() as int);
    lemma_selected_descending(b, s.len() as int);
    let r = d.reverse();
    assert forall|i: int, j: int| 0 <= i < j < r.len() implies at_most(
        #[trigger] r[i],
        #[trigger] r[j],
    ) by {
        assert(r[i] == d[d.len() - 1 - i]);
        assert(r[j] == d[d.len() - 1 - j]);
    }
}

/// Two ascending sequences of the same items are the same sequence, where
/// the order tells any two different items apart.
pub proof fn lemma_ascending_unique<T: PartialOrd>(s: Seq<T>, t: Seq<T>)
    requires
        strict_weak_order::<T>(),
        separates::<T>(),
        ascending(s),
        ascending(t),
        s.to_multiset() == t.to_multiset(),
    ensures
        s == t,
{
    let leq = |a: T, b: T| at_most(a, b);
    assert forall|x: T| #[trigger] leq(x, x) by {
        lemma_at_most_refl(x);
    }
    assert forall|x: T, y: T| #[trigger] leq(x, y) && #[trigger] leq(y, x) implies x == y by {
        assert(at_most(x, y) && at_most(y, x));
    }
    assert forall|x: T, y: T, z: T| #[trigger] leq(x, y) && #[trigger] leq(y, z) implies leq(
        x,
        z,
    ) by {
        lemma_at_most_trans(x, y, z);
    }
    assert forall|x: T, y: T| #[trigger] leq(x, y) || #[trigger] leq(y, x) by {
        lemma_at_most_total(x, y);
    }
    assert(vstd::relations::sorted_by(s, leq));
    assert(vstd::relations::sorted_by(t, leq));
    vstd::seq_lib::lemma_sorted_unique(s, t, leq);
}

/// Sifting down moves items and neither adds nor drops one.
pub proof fn lemma_sift_down_multiset<T: PartialOrd>(s: Seq<T>, i: int, n: int)
    ensures
        sift_down(s, i, n).to_multiset() == s.to_multiset(),
    decreases n - i,
{
    if 0 <= i && left(i) < n <= s.len() && less(s[low_child(s, i, n)], s[i]) {
        let c = low_child(s, i, n);
        lemma_swapped_multiset(s, c, i);
        lemma_sift_down_multiset(swapped(s, c, i), c, n);
    }
}

/// Popping drops the root from the items and nothing else.
pub proof fn lemma_popped_multiset<T: PartialOrd>(s: Seq<T>)
    requires
        s.len() > 0,
    ensures
        popped(s).to_multiset() == s.to_multiset().remove(s[0]),
{
    let n = s.len() - 1;
    let u = swapped(s, 0, n);
    lemma_swapped_multiset(s, 0, n);
    vstd::seq_lib::to_multiset_remove(u, n);
    assert(u.remove(n) == u.drop_last());
    if n > 0 {
        lemma_sift_down_multiset(u.drop_last(), 0, n);
    } else {
        assert(u.drop_last() == Seq::<T>::empty());
    }
}

/// The roots that popping the heap `s` until it is empty returns, in the
/// order in which they come.
pub open spec fn drained<T: PartialOrd>(s: Seq<T>) -> Seq<T>
    decreases s.len(),
    via drained_decreases::<T>
{
    if s.len() == 0 {
        Seq::empty()
    } else {
        seq![s[0]] + drained(popped(s))
    }
}

#[via_fn]
proof fn drained_decreases<T: PartialOrd>(s: Seq<T>) {
    if s.len() > 1 {
        lemma_sift_down_frame(swapped(s, 0, s.len() - 1).drop_last(), 0, s.len() - 1);
    }
}

/// Popping a heap until it is empty returns its items in ascending order:
/// every item once, none above a later one.
pub proof fn lemma_drained_ascending<T: PartialOrd>(s: Seq<T>)
    requires
        strict_weak_order::<T>(),
        is_heap(s),
    ensures
        drained(s).len() == s.len(),
        drained(s).to_multiset() == s.to_multiset(),
        ascending(drained(s)),
    decreases s.len(),
{
    broadcast use vstd::multiset::group_multiset_axioms;
    broadcast use vstd::seq_lib::to_multiset_contains;

    if s.len() == 0 {
        assert(drained(s).to_multiset() =~= s.to_multiset());
    } else {
        let p = popped(s);
        let d = drained(p);
        let out = seq![s[0]] + d;
        lemma_popped_heap(s);
        lemma_popped_multiset(s);
        lemma_drained_ascending(p);
        lemma_root_least(s, s.len() as int);
        vstd::seq_lib::lemma_multiset_commutative(seq![s[0]], d);
        assert(seq![s[0]].to_multiset() =~= Multiset::empty().insert(s[0])) by {
            vstd::seq_lib::to_multiset_build(Seq::<T>::empty(), s[0]);
            assert(Seq::<T>::empty().push(s[0]) == seq![s[0]]);
        }
        assert(s.contains(s[0]));
        assert(out.to_multiset() =~= s.to_multiset());
        assert forall|i: int, j: int| 0 <= i < j < out.len() implies at_most(
            #[trigger] out[i],
            #[trigger] out[j],
        ) by {
            if i == 0 {
                assert(d.contains(d[j - 1]));
                assert(p.to_multiset().count(d[j - 1]) > 0);
                assert(s.contains(d[j - 1]));
                let k = choose|k: int| 0 <= k < s.len() && s[k] == d[j - 1];
                assert(at_most(s[0], s[k]));
            } else {
                assert(at_most(d[i - 1], d[j - 1]));
            }
        }
    }
}

/// Building a heap of `v` and popping it until it is empty returns the items
/// of `v` sorted: every item once, in ascending order.
pub proof fn lemma_build_then_drain_sorts<T: PartialOrd>(v: Seq<T>)
    requires
        strict_weak_order::<T>(),
    ensures
        drained(built(v)).len() == v.len(),
        drained(built(v)).to_multiset() == v.to_multiset(),
        ascending(drained(built(v))),
{
    lemma_built_heap(v);
    lemma_heapified_multiset(v, v.len() as int / 2);
    lemma_drained_ascending(built(v));
}

/// Building moves items and neither adds nor drops one.
pub proof fn lemma_heapified_multiset<T: PartialOrd>(s: Seq<T>, k: int)
    ensures
        heapified(s, k).to_multiset() == s.to_multiset(),
    decreases k,
{
    if k > 0 {
        lemma_sift_down_multiset(s, k - 1, s.len() as int);
        lemma_heapified_multiset(sift_down(s, k - 1, s.len() as int), k - 1);
    }
}

/// Pushing onto an empty heap and popping at once returns the pushed item
/// and leaves the heap empty.
pub proof fn lemma_push_then_pop<T: PartialOrd>(v: T)
    ensures
        pushed(Seq::<T>::empty(), v) == seq![v],
        pushed(Seq::<T>::empty(), v)[0] == v,
        popped(pushed(Seq::<T>::empty(), v)) == Seq::<T>::empty(),
{
    assert(Seq::<T>::empty().push(v) == seq![v]);
}

/// A sequence of one item that holds `v` is `[v]`: whatever order `<` is,
/// a heap that was empty holds the pushed item at its root.
pub proof fn lemma_single_item<T>(s: Seq<T>, v: T)
    requires
        s.len() == 1,
        s.to_multiset().count(v) > 0,
    ensures
        s == seq![v],
{
    broadcast use vstd::seq_lib::to_multiset_contains;

    assert(s.contains(v));
    assert(s =~= seq![v]);
}

/// After a least item `x` of `s` has left, no item that stays is below `x`:
/// what a heap returns next is never below what it returned before.
pub proof fn lemma_least_then_rest<T: PartialOrd>(s: Seq<T>, x: T, t: Seq<T>, j: int)
    requires
        is_least(x, s),
        t.to_multiset() == s.to_multiset().remove(x),
        0 <= j < t.len(),
    ensures
        at_most(x, t[j]),
{
    broadcast use vstd::multiset::group_multiset_axioms;
    broadcast use vstd::seq_lib::to_multiset_contains;

    assert(t.contains(t[j]));
    assert(t.to_multiset().count(t[j]) > 0);
    assert(s.to_multiset().count(t[j]) > 0);
    assert(s.contains(t[j]));
    let k = choose|k: int| 0 <= k < s.len() && s[k] == t[j];
    assert(at_most(x, s[k]));
}

} // verus!
