//! A singly linked list in which each node owns the next.

use crate::slist_model::{step, Step};
use vstd::prelude::*;

verus! {

/// What a list offers at its two ends. `step` says what each operation makes
/// of the items.
pub trait SList {
    type Item;

    /// The items, the head first.
    spec fn items(&self) -> Seq<Self::Item>;

    /// The list is consistent: its count is the number of its nodes.
    spec fn wf(&self) -> bool;

    /// Puts `x` before the head.
    fn push_head(&mut self, x: Self::Item)
        requires
            old(self).wf(),
            old(self).items().len() < usize::MAX,
        ensures
            final(self).wf(),
            final(self).items() == step(old(self).items(), Step::PushHead(x)),
    ;

    /// Puts `x` behind the last item.
    fn push_tail(&mut self, x: Self::Item)
        requires
            old(self).wf(),
            old(self).items().len() < usize::MAX,
        ensures
            final(self).wf(),
            final(self).items() == step(old(self).items(), Step::PushTail(x)),
    ;

    /// Takes the head off and returns it; `None` on an empty list.
    fn pop_head(&mut self) -> (r: Option<Self::Item>)
        requires
            old(self).wf(),
        ensures
            final(self).wf(),
            final(self).items() == step(old(self).items(), Step::PopHead),
            old(self).items().len() == 0 ==> r is None,
            old(self).items().len() > 0 ==> r == Some(old(self).items().first()),
    ;

    /// Takes the last item off and returns it; `None` on an empty list.
    fn pop_tail(&mut self) -> (r: Option<Self::Item>)
        requires
            old(self).wf(),
        ensures
            final(self).wf(),
            final(self).items() == step(old(self).items(), Step::PopTail),
            old(self).items().len() == 0 ==> r is None,
            old(self).items().len() > 0 ==> r == Some(old(self).items().last()),
    ;

    /// Whether the list holds nothing.
    fn empty(&self) -> (r: bool)
        requires
            self.wf(),
        ensures
            r == (self.items().len() == 0),
    ;

    /// The number of items.
    fn size(&self) -> (r: usize)
        requires
            self.wf(),
        ensures
            r == self.items().len(),
    ;
}

/// A node of the list: one item, and the node behind it.
pub struct SlistItem<T> {
    next: Option<Box<SlistItem<T>>>,
    val: T,
}

impl<T> View for SlistItem<T> {
    type V = Seq<T>;

    /// The items from this node on.
    closed spec fn view(&self) -> Seq<T> {
        seq![self.val] + chain(self.next)
    }
}

/// The values along the chain that starts at `link`, first node first.
spec fn chain<T>(link: Option<Box<SlistItem<T>>>) -> Seq<T>
    decreases link,
{
    match link {
        None => Seq::empty(),
        Some(node) => seq![node.val] + chain(node.next),
    }
}

impl<T> SlistItem<T> {
    fn new(val: T, next: Option<Box<SlistItem<T>>>) -> (item: Self)
        ensures
            item.val == val,
            item.next == next,
    {
        SlistItem { next: next, val: val }
    }
}

/// A singly linked list with a cached count of its nodes.
pub struct Slist<T> {
    head: Option<Box<SlistItem<T>>>,
    size: usize,
}

impl<T> View for Slist<T> {
    type V = Seq<T>;

    /// The items, the head first.
    closed spec fn view(&self) -> Seq<T> {
        chain(self.head)
    }
}

impl<T> Slist<T> {
    /// An empty list.
    pub fn new() -> (s: Slist<T>)
        ensures
            s.wf(),
            s@ == Seq::<T>::empty(),
    {
        Slist { head: None, size: 0 }
    }

    /// Empties the list, releasing the nodes one after the other from the
    /// head on.
    pub fn reset(&mut self)
        ensures
            final(self).wf(),
            final(self)@ == Seq::<T>::empty(),
        opens_invariants none
        no_unwind
    {
        let mut cur: Option<Box<SlistItem<T>>> = None;
        std::mem::swap(&mut cur, &mut self.head);
        self.size = 0;
        loop
            decreases chain(cur).len(),
        {
            match cur {
                Some(node) => {
                    cur = node.next;
                },
                None => {
                    break;
                },
            }
        }
    }

    /// A pass over the items from the head on, to read them.
    pub fn iter(&mut self) -> (it: Iter<'_, T>)
        ensures
            it@ == old(self)@,
            final(self)@ == old(self)@,
            old(self).wf() ==> final(self).wf(),
    {
        Iter { op: self.head.as_ref() }
    }

    /// A pass over the items from the head on, to overwrite them in place.
    /// What the list holds once the pass is over is what then lies from the
    /// pass's first cursor on; `IterMut::next` says how each step adds to it.
    /// A pass changes no node count, so the list then holds as many items
    /// as before, and with that it is consistent again.
    pub fn iter_mut(&mut self) -> (it: IterMut<'_, T>)
        ensures
            it@ == old(self)@,
            it.cursor() is Some <==> it@.len() > 0,
            final(self)@ == (match it.cursor() {
                Some(n) => final(n)@,
                None => Seq::empty(),
            }),
            old(self).wf() && final(self)@.len() == old(self)@.len() ==> final(self).wf(),
    {
        IterMut { op: self.head.as_mut() }
    }

    /// The head's item, to read or to overwrite in place; `None` on an empty
    /// list.
    pub fn first(&mut self) -> (r: Option<&mut T>)
        requires
            old(self).wf(),
        ensures
            final(self).wf(),
            old(self)@.len() == 0 ==> r is None && final(self)@ == old(self)@,
            old(self)@.len() > 0 ==> r is Some && *r.unwrap() == old(self)@.first() && final(self)@
                == old(self)@.update(0, *final(r.unwrap())),
    {
        match &mut self.head {
            Some(x) => {
                proof {
                    assert forall|v: T| #[trigger]
                        (seq![v] + chain(x.next)) == (seq![x.val] + chain(x.next)).update(0, v) by {
                        assert(seq![v] + chain(x.next) =~= (seq![x.val] + chain(x.next)).update(
                            0,
                            v,
                        ));
                    }
                }
                Some(&mut x.val)
            },
            None => None,
        }
    }

    /// The last item, to read or to overwrite in place; `None` on an empty
    /// list.
    pub fn last(&mut self) -> (r: Option<&mut T>)
        requires
            old(self).wf(),
        ensures
            final(self).wf(),
            old(self)@.len() == 0 ==> r is None && final(self)@ == old(self)@,
            old(self)@.len() > 0 ==> r is Some && *r.unwrap() == old(self)@.last() && final(self)@
                == old(self)@.update(old(self)@.len() - 1, *final(r.unwrap())),
    {
        let ghost mut seen: Seq<T> = Seq::empty();
        let mut l = &mut self.head;
        while l.is_some()
            invariant
                seen + chain(*l) == chain(old(self).head),
                chain(after_borrow(self.head)) == seen + chain(*final(l)),
                seen.len() > 0 ==> *l is Some,
                self.size == old(self).size,
                old(self).wf(),
            decreases chain(*l).len(),
        {
            if l.as_ref().unwrap().next.is_some() {
                proof {
                    let v = l.unwrap().val;
                    assert forall|c: Seq<T>| #[trigger] (seen + (seq![v] + c)) == seen.push(v) + c by {
                        assert(seen + (seq![v] + c) =~= seen.push(v) + c);
                    }
                    seen = seen.push(v);
                }
                l = &mut l.as_mut().unwrap().next;
            } else {
                proof {
                    let v0 = l.unwrap().val;
                    assert(chain::<T>(None) =~= Seq::empty());
                    assert(seen + seq![v0] =~= seen.push(v0));
                    assert forall|v: T| #[trigger] (seen + (seq![v] + Seq::<T>::empty())) == seen.push(
                        v0,
                    ).update(seen.len() as int, v) by {
                        assert(seen + (seq![v] + Seq::<T>::empty()) =~= seen.push(v0).update(
                            seen.len() as int,
                            v,
                        ));
                    }
                }
                return Some(&mut l.as_mut().unwrap().val);
            }
        }
        proof {
            assert(seen + Seq::<T>::empty() =~= seen);
        }
        None
    }
}

impl<T> Drop for Slist<T> {
    /// Releases the nodes one after the other, so that a long chain is given
    /// up without deep recursion.
    fn drop(&mut self)
        opens_invariants none
        no_unwind
    {
        self.reset();
    }
}

/// A pass over a list that hands out its items one by one, to read.
pub struct Iter<'a, T> {
    op: Option<&'a Box<SlistItem<T>>>,
}

impl<'a, T> View for Iter<'a, T> {
    type V = Seq<T>;

    /// The items that the pass has yet to hand out, the next one first.
    closed spec fn view(&self) -> Seq<T> {
        match self.op {
            Some(node) => chain(Some(*node)),
            None => Seq::empty(),
        }
    }
}

impl<'a, T> Iter<'a, T> {
    /// Hands out the next item and moves on; `None` once the end is reached.
    pub fn next(&mut self) -> (r: Option<&'a T>)
        ensures
            old(self)@.len() == 0 ==> r is None && final(self)@ == old(self)@,
            old(self)@.len() > 0 ==> r == Some(&old(self)@.first()) && final(self)@ == old(
                self,
            )@.drop_first(),
    {
        match self.op {
            Some(x) => {
                proof {
                    assert((seq![x.val] + chain(x.next)).drop_first() =~= chain(x.next));
                }
                self.op = x.next.as_ref();
                Some(&x.val)
            },
            None => None,
        }
    }
}

/// A pass over a list that hands out its items one by one, to overwrite.
pub struct IterMut<'a, T> {
    op: Option<&'a mut Box<SlistItem<T>>>,
}

impl<'a, T> View for IterMut<'a, T> {
    type V = Seq<T>;

    /// The items that the pass has yet to hand out, the next one first: the
    /// items from the cursor's node on, as they are now.
    open spec fn view(&self) -> Seq<T> {
        match self.cursor() {
            Some(node) => (*node)@,
            None => Seq::empty(),
        }
    }
}

impl<'a, T> IterMut<'a, T> {
    /// The node at which the pass stands, borrowed from the list; `None`
    /// once the end is reached.
    pub closed spec fn cursor(&self) -> Option<&'a mut Box<SlistItem<T>>> {
        self.op
    }

    /// A pass that is given up leaves the items that it has not handed out
    /// as they are.
    pub proof fn lemma_given_up(self)
        requires
            has_resolved(self),
        ensures
            self.cursor() matches Some(n) ==> final(n)@ == self@,
    {
    }

    /// Hands out the next item and moves on; `None` once the end is reached.
    /// What the list holds from the old cursor on, once all is over, is what
    /// the handed-out item then holds, followed by what the list then holds
    /// from the new cursor on.
    pub fn next(&mut self) -> (r: Option<&'a mut T>)
        ensures
            old(self).cursor() is Some <==> old(self)@.len() > 0,
            final(self).cursor() is Some <==> final(self)@.len() > 0,
            old(self)@.len() == 0 ==> r is None && final(self)@ == old(self)@,
            old(self)@.len() > 0 ==> r is Some && *r.unwrap() == old(self)@.first() && final(self)@
                == old(self)@.drop_first(),
            old(self)@.len() > 0 ==> final(old(self).cursor().unwrap())@ == seq![
                *final(r.unwrap()),
            ] + (match final(self).cursor() {
                Some(m) => final(m)@,
                None => Seq::empty(),
            }),
    {
        match self.op.take() {
            Some(x) => {
                proof {
                    assert((seq![x.val] + chain(x.next)).drop_first() =~= chain(x.next));
                }
                self.op = x.next.as_mut();
                Some(&mut x.val)
            },
            None => None,
        }
    }
}

impl<T> SList for Slist<T> {
    type Item = T;

    open spec fn items(&self) -> Seq<T> {
        self@
    }

    closed spec fn wf(&self) -> bool {
        self.size == chain(self.head).len()
    }

    fn size(&self) -> (r: usize) {
        self.size
    }

    fn empty(&self) -> (r: bool) {
        self.head.is_none()
    }

    fn push_head(&mut self, val: T) {
        self.head = Some(Box::new(SlistItem::new(val, self.head.take())));
        self.size += 1;
    }

    fn push_tail(&mut self, val: T) {
        let ghost mut seen: Seq<T> = Seq::empty();
        let mut op = &mut self.head;
        loop
            invariant
                seen + chain(*op) == chain(old(self).head),
                chain(after_borrow(self.head)) == seen + chain(*final(op)),
            ensures
                *op is None,
            decreases chain(*op).len(),
        {
            match op {
                Some(x) => {
                    proof {
                        assert forall|c: Seq<T>| #[trigger]
                            (seen + (seq![x.val] + c)) == seen.push(x.val) + c by {
                            assert(seen + (seq![x.val] + c) =~= seen.push(x.val) + c);
                        }
                        seen = seen.push(x.val);
                    }
                    op = &mut x.next;
                },
                None => {
                    break;
                },
            }
        }
        *op = Some(Box::new(SlistItem::new(val, None)));
        proof {
            assert(chain::<T>(None) =~= Seq::empty());
            assert(chain(*op) =~= seq![val]);
            assert(seen + seq![val] =~= seen.push(val));
            assert(seen + Seq::<T>::empty() =~= seen);
        }
        self.size += 1;
    }

    fn pop_head(&mut self) -> (r: Option<T>) {
        match self.head.take() {
            Some(x) => {
                self.head = x.next;
                self.size -= 1;
                Some(x.val)
            },
            None => None,
        }
    }

    fn pop_tail(&mut self) -> (r: Option<T>) {
        let ghost mut seen: Seq<T> = Seq::empty();
        let mut op = &mut self.head;
        while op.is_some()
            invariant
                seen + chain(*op) == chain(old(self).head),
                chain(after_borrow(self.head)) == seen + chain(*final(op)),
                seen.len() > 0 ==> *op is Some,
                self.size == old(self).size,
                old(self).wf(),
            decreases chain(*op).len(),
        {
            if op.as_ref().unwrap().next.is_some() {
                proof {
                    let v = op.unwrap().val;
                    assert forall|c: Seq<T>| #[trigger] (seen + (seq![v] + c)) == seen.push(v) + c by {
                        assert(seen + (seq![v] + c) =~= seen.push(v) + c);
                    }
                    seen = seen.push(v);
                }
                op = &mut op.as_mut().unwrap().next;
            } else {
                let node = op.take().unwrap();
                proof {
                    assert(chain::<T>(None) =~= Seq::empty());
                    assert(seen + seq![node.val] =~= seen.push(node.val));
                    assert(seen + Seq::<T>::empty() =~= seen);
                    assert(seen.push(node.val).drop_last() =~= seen);
                }
                self.size -= 1;
                return Some(node.val);
            }
        }
        proof {
            assert(seen + Seq::<T>::empty() =~= seen);
        }
        None
    }
}

} // verus!
