//! The list as mathematics: what each operation at an end makes of the
//! sequence of items, and what follows for runs of operations and for passes.

use vstd::prelude::*;

verus! {

/// One operation at an end of a list.
pub enum Step<T> {
    PushHead(T),
    PushTail(T),
    PopHead,
    PopTail,
}

/// What one operation makes of the items `s`. Popping from an empty list
/// leaves it as it is.
pub open spec fn step<T>(s: Seq<T>, op: Step<T>) -> Seq<T> {
    match op {
        Step::PushHead(x) => seq![x] + s,
        Step::PushTail(x) => s.push(x),
        Step::PopHead => if s.len() > 0 {
            s.drop_first()
        } else {
            s
        },
        Step::PopTail => if s.len() > 0 {
            s.drop_last()
        } else {
            s
        },
    }
}

/// What the operations `ops`, one after the other, make of the items `s`.
pub open spec fn run<T>(s: Seq<T>, ops: Seq<Step<T>>) -> Seq<T>
    decreases ops.len(),
{
    if ops.len() == 0 {
        s
    } else {
        step(run(s, ops.drop_last()), ops.last())
    }
}

/// The count that a list of `n` items has after `ops`: one more for each
/// push, one less for each pop, and a pop at count 0 leaves 0.
pub open spec fn net_count<T>(n: nat, ops: Seq<Step<T>>) -> nat
    decreases ops.len(),
{
    if ops.len() == 0 {
        n
    } else {
        let m = net_count(n, ops.drop_last());
        match ops.last() {
            Step::PushHead(_) => m + 1,
            Step::PushTail(_) => m + 1,
            Step::PopHead => if m > 0 {
                (m - 1) as nat
            } else {
                0
            },
            Step::PopTail => if m > 0 {
                (m - 1) as nat
            } else {
                0
            },
        }
    }
}

/// After any run of pushes and pops, the number of items is the number
/// before, plus the pushes, minus the pops that found an item.
pub proof fn lemma_size_is_net_count<T>(s: Seq<T>, ops: Seq<Step<T>>)
    ensures
        run(s, ops).len() == net_count(s.len(), ops),
    decreases ops.len(),
{
    if ops.len() > 0 {
        lemma_size_is_net_count(s, ops.drop_last());
    }
}

/// A push at the head followed by a pop at the head returns the pushed item
/// and leaves the list as it was.
pub proof fn lemma_push_head_pop_head<T>(s: Seq<T>, x: T)
    ensures
        step(s, Step::PushHead(x)).len() > 0,
        step(s, Step::PushHead(x)).first() == x,
        step(step(s, Step::PushHead(x)), Step::PopHead) == s,
{
    assert((seq![x] + s).drop_first() =~= s);
}

/// A push at the tail followed by a pop at the tail returns the pushed item
/// and leaves the list as it was.
pub proof fn lemma_push_tail_pop_tail<T>(s: Seq<T>, x: T)
    ensures
        step(s, Step::PushTail(x)).len() > 0,
        step(s, Step::PushTail(x)).last() == x,
        step(step(s, Step::PushTail(x)), Step::PopTail) == s,
{
    assert(s.push(x).drop_last() =~= s);
}

/// The pushes at the tail of the items `xs`, in their order.
pub open spec fn tail_pushes<T>(xs: Seq<T>) -> Seq<Step<T>> {
    Seq::new(xs.len(), |i: int| Step::PushTail(xs[i]))
}

/// The pushes at the head of the items `xs`, in their order.
pub open spec fn head_pushes<T>(xs: Seq<T>) -> Seq<Step<T>> {
    Seq::new(xs.len(), |i: int| Step::PushHead(xs[i]))
}

/// Items pushed at the tail stand behind the others in the order in which
/// they were pushed: the first pushed is the first met.
pub proof fn lemma_tail_pushes_keep_order<T>(s: Seq<T>, xs: Seq<T>)
    ensures
        run(s, tail_pushes(xs)) == s + xs,
    decreases xs.len(),
{
    if xs.len() == 0 {
        assert(s + xs =~= s);
    } else {
        lemma_tail_pushes_keep_order(s, xs.drop_last());
        assert(tail_pushes(xs).drop_last() =~= tail_pushes(xs.drop_last()));
        assert((s + xs.drop_last()).push(xs.last()) =~= s + xs);
    }
}

/// Items pushed at the head stand before the others in the reverse of the
/// order in which they were pushed: the last pushed is the first met.
pub proof fn lemma_head_pushes_reverse_order<T>(s: Seq<T>, xs: Seq<T>)
    ensures
        run(s, head_pushes(xs)) == xs.reverse() + s,
    decreases xs.len(),
{
    if xs.len() == 0 {
        assert(xs.reverse() + s =~= s);
    } else {
        lemma_head_pushes_reverse_order(s, xs.drop_last());
        assert(head_pushes(xs).drop_last() =~= head_pushes(xs.drop_last()));
        assert(seq![xs.last()] + (xs.drop_last().reverse() + s) =~= xs.reverse() + s);
    }
}

/// A pass that goes on to the end meets what the list holds, in its order.
/// `rests[k]` is what lies before the pass after `k` steps, and `met[k]` is
/// the item of step `k`: the first of `rests[k]`, with `rests[k + 1]` behind
/// it. For a pass that overwrites, `rests` and `met` are what the list holds
/// once the pass is over, so the list then holds the items written, in the
/// order of the steps.
pub proof fn lemma_pass_in_order<T>(rests: Seq<Seq<T>>, met: Seq<T>)
    requires
        rests.len() == met.len() + 1,
        forall|k: int| 0 <= k < met.len() ==> #[trigger] rests[k] == seq![met[k]] + rests[k + 1],
        rests.last() == Seq::<T>::empty(),
    ensures
        rests[0] == met,
    decreases met.len(),
{
    if met.len() == 0 {
        assert(rests[0] =~= met);
    } else {
        let r = rests.drop_first();
        let m = met.drop_first();
        assert forall|k: int| 0 <= k < m.len() implies #[trigger] r[k] == seq![m[k]] + r[k + 1] by {
            assert(rests[k + 1] == seq![met[k + 1]] + rests[k + 2]);
        }
        lemma_pass_in_order(r, m);
        assert(rests[0] == seq![met[0]] + rests[1]);
        assert(seq![met[0]] + m =~= met);
    }
}

} // verus!
