//! A binary min-heap on a growable sequence, and heap sort on a slice.

use crate::heap_model::{
    ascending, built, heap_sorted, heapified, is_heap, is_least, left, lemma_ascending_unique,
    lemma_built_heap, lemma_heap_sorted_ascending, lemma_popped_heap, lemma_pushed_heap,
    lemma_root_least, lemma_single_item, parent, popped, pushed, selected, sift_down, sift_up,
};
use crate::order::{compares, separates, strict_weak_order};
use crate::slices::{lemma_swapped_multiset, swapped};
use vstd::prelude::*;

verus! {

/// The position of the left child of `parent`.
fn heap_left(parent: usize) -> (r: usize)
    requires
        2 * parent + 1 <= usize::MAX,
    ensures
        r == left(parent as int),
{
    parent * 2 + 1
}

/// The position of the parent of `child`. The root has none.
fn heap_parent(child: usize) -> (r: usize)
    requires
        child > 0,
    ensures
        r == parent(child as int),
        r < child,
{
    (child - 1) / 2
}

/// Sifts the item at `index` down among the first `n` items of `arr`.
fn down<T: PartialOrd>(arr: &mut [T], index: usize, n: usize)
    requires
        index < n <= old(arr)@.len(),
    ensures
        final(arr)@.len() == old(arr)@.len(),
        final(arr)@.to_multiset() == old(arr)@.to_multiset(),
        compares::<T>() ==> final(arr)@ == sift_down(old(arr)@, index as int, n as int),
{
    let mut idx = index;
    while idx < n / 2
        invariant_except_break
            compares::<T>() ==> sift_down(arr@, idx as int, n as int) == sift_down(
                old(arr)@,
                index as int,
                n as int,
            ),
        invariant
            index <= idx < n <= arr@.len(),
            arr@.len() == old(arr)@.len(),
            arr@.to_multiset() == old(arr)@.to_multiset(),
        ensures
            compares::<T>() ==> arr@ == sift_down(old(arr)@, index as int, n as int),
        decreases n - idx,
    {
        let mut c = heap_left(idx);
        let r = c + 1;
        if r < n && arr[r] < arr[c] {
            c = r;
        }
        if arr[c] < arr[idx] {
            proof {
                lemma_swapped_multiset(arr@, c as int, idx as int);
            }
            arr.swap(c, idx);
            idx = c;
        } else {
            break;
        }
    }
}

/// Sifts the item at `index` up towards the root.
fn up<T: PartialOrd>(arr: &mut [T], index: usize)
    requires
        index < old(arr)@.len(),
    ensures
        final(arr)@.len() == old(arr)@.len(),
        final(arr)@.to_multiset() == old(arr)@.to_multiset(),
        compares::<T>() ==> final(arr)@ == sift_up(old(arr)@, index as int),
{
    let mut idx = index;
    while idx > 0
        invariant_except_break
            compares::<T>() ==> sift_up(arr@, idx as int) == sift_up(
                old(arr)@,
                index as int,
            ),
        invariant
            idx < arr@.len(),
            arr@.len() == old(arr)@.len(),
            arr@.to_multiset() == old(arr)@.to_multiset(),
        ensures
            compares::<T>() ==> arr@ == sift_up(old(arr)@, index as int),
        decreases idx,
    {
        let parent = heap_parent(idx);
        if arr[idx] < arr[parent] {
            proof {
                lemma_swapped_multiset(arr@, idx as int, parent as int);
            }
            arr.swap(idx, parent);
            idx = parent;
        } else {
            break;
        }
    }
}

/// Rearranges `arr` into a min-heap, by a sift-down from the last position
/// that has a child and then from each one before it, down to the root.
pub fn heap_build<T: PartialOrd>(arr: &mut [T])
    ensures
        final(arr)@.len() == old(arr)@.len(),
        final(arr)@.to_multiset() == old(arr)@.to_multiset(),
        compares::<T>() ==> final(arr)@ == built(old(arr)@),
        strict_weak_order::<T>() ==> is_heap(final(arr)@),
{
    let n = arr.len();
    let mut index = n / 2;
    while index > 0
        invariant
            index <= n / 2,
            n == arr@.len(),
            arr@.len() == old(arr)@.len(),
            arr@.to_multiset() == old(arr)@.to_multiset(),
            compares::<T>() ==> heapified(arr@, index as int) == built(old(arr)@),
        decreases index,
    {
        index -= 1;
        down(arr, index, n);
    }
    proof {
        if strict_weak_order::<T>() {
            lemma_built_heap(old(arr)@);
        }
    }
}

/// A binary min-heap: a sequence in which no item is below its parent, the
/// parent of position `i` being position `(i - 1) / 2`.
pub struct Heap<T: PartialOrd> {
    arr: Vec<T>,
}

impl<T: PartialOrd> View for Heap<T> {
    type V = Seq<T>;

    /// The items in the order in which the heap stores them.
    closed spec fn view(&self) -> Seq<T> {
        self.arr@
    }
}

impl<T: PartialOrd> Heap<T> {
    /// Where `<` is a strict weak order, the stored sequence is a min-heap.
    #[verifier::type_invariant]
    spec fn heap_ordered(&self) -> bool {
        strict_weak_order::<T>() ==> is_heap(self.arr@)
    }

    /// An empty heap.
    pub fn new() -> (h: Self)
        ensures
            h@ == Seq::<T>::empty(),
    {
        Heap { arr: Vec::new() }
    }

    /// The heap that building makes of `vec`.
    pub fn from_vec(vec: Vec<T>) -> (h: Self)
        ensures
            h@.len() == vec@.len(),
            h@.to_multiset() == vec@.to_multiset(),
            compares::<T>() ==> h@ == built(vec@),
            strict_weak_order::<T>() ==> is_heap(h@),
    {
        let mut vec = vec;
        heap_build(vec.as_mut_slice());
        Heap { arr: vec }
    }

    /// The stored sequence as it stands: in heap order, not sorted.
    pub fn to_vec(self) -> (v: Vec<T>)
        ensures
            v@ == self@,
    {
        self.arr
    }

    /// Adds `val`: it goes to the end and is sifted up.
    pub fn push(&mut self, val: T)
        ensures
            final(self)@.len() == old(self)@.len() + 1,
            final(self)@.to_multiset() == old(self)@.to_multiset().insert(val),
            old(self)@.len() == 0 ==> final(self)@ == seq![val],
            compares::<T>() ==> final(self)@ == pushed(old(self)@, val),
            strict_weak_order::<T>() ==> is_heap(final(self)@),
    {
        proof {
            use_type_invariant(&*self);
            vstd::seq_lib::to_multiset_build(self.arr@, val);
            if strict_weak_order::<T>() {
                lemma_pushed_heap(self.arr@, val);
            }
        }
        let mut arr: Vec<T> = Vec::new();
        std::mem::swap(&mut arr, &mut self.arr);
        arr.push(val);
        let n = arr.len();
        up(arr.as_mut_slice(), n - 1);
        proof {
            if n == 1 {
                assert(arr@.to_multiset().count(val) > 0) by {
                    broadcast use vstd::multiset::group_multiset_axioms;

                }
                lemma_single_item(arr@, val);
            }
        }
        self.arr = arr;
    }

    /// Removes the root, a least item, and returns it; `None` on an empty
    /// heap. The last item takes the root's place and is sifted down.
    pub fn pop(&mut self) -> (r: Option<T>)
        ensures
            old(self)@.len() == 0 ==> r is None && final(self)@ == old(self)@,
            old(self)@.len() > 0 ==> r == Some(old(self)@[0]),
            old(self)@.len() > 0 ==> final(self)@.len() == old(self)@.len() - 1,
            old(self)@.len() > 0 ==> final(self)@.to_multiset() == old(self)@.to_multiset().remove(
                old(self)@[0],
            ),
            compares::<T>() ==> final(self)@ == popped(old(self)@),
            strict_weak_order::<T>() ==> is_heap(final(self)@),
            strict_weak_order::<T>() && old(self)@.len() > 0 ==> is_least(
                old(self)@[0],
                old(self)@,
            ),
    {
        proof {
            use_type_invariant(&*self);
            if strict_weak_order::<T>() && self.arr@.len() > 0 {
                lemma_popped_heap(self.arr@);
                lemma_root_least(self.arr@, self.arr@.len() as int);
            }
        }
        let mut arr: Vec<T> = Vec::new();
        std::mem::swap(&mut arr, &mut self.arr);
        let n = arr.len();
        let x = match n {
            0 => None,
            1 => {
                proof {
                    vstd::seq_lib::to_multiset_remove(arr@, 0);
                    assert(arr@.remove(0) == arr@.drop_last());
                }
                arr.pop()
            },
            _ => {
                proof {
                    let u = swapped(arr@, 0, n - 1);
                    lemma_swapped_multiset(arr@, 0, n - 1);
                    vstd::seq_lib::to_multiset_remove(u, n - 1);
                    assert(u.remove(n - 1) == u.drop_last());
                }
                arr.swap(0, n - 1);
                let x = arr.pop();
                down(arr.as_mut_slice(), 0, n - 1);
                x
            },
        };
        self.arr = arr;
        x
    }

    /// The root, a least item, left in place; `None` on an empty heap.
    pub fn peek(&self) -> (r: Option<&T>)
        ensures
            self@.len() == 0 ==> r is None,
            self@.len() > 0 ==> r == Some(&self@[0]),
            strict_weak_order::<T>() && self@.len() > 0 ==> is_least(self@[0], self@),
    {
        proof {
            use_type_invariant(self);
            if strict_weak_order::<T>() && self.arr@.len() > 0 {
                lemma_root_least(self.arr@, self.arr@.len() as int);
            }
        }
        self.arr.first()
    }
}

/// Sorts `arr` in place, ascending: builds a min-heap, then moves the root
/// behind the shrinking heap again and again, which leaves the items
/// descending, and reverses the whole.
pub fn heap_sort<T: PartialOrd>(arr: &mut [T])
    ensures
        final(arr)@.len() == old(arr)@.len(),
        final(arr)@.to_multiset() == old(arr)@.to_multiset(),
        compares::<T>() ==> final(arr)@ == heap_sorted(old(arr)@),
        strict_weak_order::<T>() ==> ascending(final(arr)@),
        strict_weak_order::<T>() && separates::<T>() && ascending(old(arr)@) ==> final(arr)@
            == old(arr)@,
{
    heap_build(arr);
    let mut n = arr.len();
    while n > 1
        invariant
            n <= arr@.len(),
            arr@.len() == old(arr)@.len(),
            arr@.to_multiset() == old(arr)@.to_multiset(),
            compares::<T>() ==> selected(arr@, n as int) == selected(
                built(old(arr)@),
                old(arr)@.len() as int,
            ),
        decreases n,
    {
        let i = n - 1;
        proof {
            lemma_swapped_multiset(arr@, 0, i as int);
        }
        arr.swap(0, i);
        n -= 1;
        down(arr, 0, n);
    }
    proof {
        arr@.lemma_reverse_to_multiset();
        if strict_weak_order::<T>() {
            lemma_heap_sorted_ascending(old(arr)@);
            if separates::<T>() && ascending(old(arr)@) {
                lemma_ascending_unique(heap_sorted(old(arr)@), old(arr)@);
            }
        }
    }
    arr.reverse();
}

} // verus!
