//! The combined single-context interface, and the buffer's laws.
//!
//! [`Rb`] bundles push, pop and clear on one handle for use from a single
//! context.  The module also carries the abstract one-step model of the
//! buffer ([`RbOp`], [`apply_op`], [`run_ops`]) and the two laws proved
//! over it: FIFO order and clamped element counting.

use crate::base::{RbRead, RbWrite};
use crate::storage::SharedRb;
use vstd::prelude::*;

verus! {

/// The combined interface over a ring buffer driven from one context.
pub trait Rb<T>: RbWrite<T> + RbRead<T> {
    /// Appends an element behind the newest one.  On failure the rejected
    /// element comes back unchanged in the `Err`.
    fn push(&mut self, elem: T) -> (r: Result<(), T>)
        requires
            old(self).inv(),
        ensures
            final(self).inv(),
            final(self).capacity() == old(self).capacity(),
            old(self).elems().len() < old(self).capacity() ==> r is Ok && final(self).elems()
                == old(self).elems().push(elem),
            old(self).elems().len() >= old(self).capacity() ==> r == Err::<(), T>(elem)
                && final(self).elems() == old(self).elems(),
    ;

    /// Removes and returns the oldest element, `None` when empty.
    fn pop(&mut self) -> (r: Option<T>)
        requires
            old(self).inv(),
        ensures
            final(self).inv(),
            final(self).capacity() == old(self).capacity(),
            old(self).elems().len() == 0 ==> r is None && final(self).elems() == old(self).elems(),
            old(self).elems().len() > 0 ==> r == Some(old(self).elems()[0]) && final(self).elems()
                == old(self).elems().skip(1),
    ;

    /// Removes every buffered element, dropping each in turn, and returns
    /// how many were removed.
    fn clear(&mut self) -> (r: usize)
        requires
            old(self).inv(),
        ensures
            final(self).inv(),
            final(self).capacity() == old(self).capacity(),
            final(self).elems().len() == 0,
            r == old(self).elems().len(),
    ;
}

impl<T> Rb<T> for SharedRb<T> {
    fn push(&mut self, elem: T) -> (r: Result<(), T>) {
        proof {
            self.lemma_view_bounded();
        }
        SharedRb::push(self, elem)
    }

    fn pop(&mut self) -> (r: Option<T>) {
        SharedRb::pop(self)
    }

    fn clear(&mut self) -> (r: usize) {
        let n = self.count();
        let mut i: usize = 0;
        while i < n
            invariant
                self.wf(),
                i <= n,
                self.cap_spec() == old(self).cap_spec(),
                n == old(self)@.len(),
                self@ == old(self)@.skip(i as int),
            decreases n - i,
        {
            let _ = SharedRb::pop(self);
            i += 1;
            proof {
                assert(self@ =~= old(self)@.skip(i as int));
            }
        }
        n
    }
}

/// One step a caller can take against the buffer: append a value, or
/// remove the oldest one.
pub enum RbOp<T> {
    Push(T),
    Pop,
}

/// The contents after one step: a push appends when there is room and is
/// rejected otherwise; a pop removes the oldest element when there is one
/// and does nothing otherwise.  These are exactly the transitions the
/// contracts of `push` and `pop` pin down.
pub open spec fn apply_op<T>(q: Seq<T>, cap: int, op: RbOp<T>) -> Seq<T> {
    match op {
        RbOp::Push(v) => if q.len() < cap {
            q.push(v)
        } else {
            q
        },
        RbOp::Pop => if q.len() > 0 {
            q.skip(1)
        } else {
            q
        },
    }
}

/// The contents after running `ops` in order, starting from `q0`.
pub open spec fn run_ops<T>(q0: Seq<T>, cap: int, ops: Seq<RbOp<T>>) -> Seq<T>
    decreases ops.len(),
{
    if ops.len() == 0 {
        q0
    } else {
        apply_op(run_ops(q0, cap, ops.drop_last()), cap, ops.last())
    }
}

/// Every pushed value in `ops`, in push order.
pub open spec fn pushed_values<T>(ops: Seq<RbOp<T>>) -> Seq<T>
    decreases ops.len(),
{
    if ops.len() == 0 {
        Seq::empty()
    } else {
        match ops.last() {
            RbOp::Push(v) => pushed_values(ops.drop_last()).push(v),
            RbOp::Pop => pushed_values(ops.drop_last()),
        }
    }
}

/// Every value a pop removed while running `ops` from `q0`, in pop order.
pub open spec fn popped_values<T>(q0: Seq<T>, cap: int, ops: Seq<RbOp<T>>) -> Seq<T>
    decreases ops.len(),
{
    if ops.len() == 0 {
        Seq::empty()
    } else {
        let prev = run_ops(q0, cap, ops.drop_last());
        let before = popped_values(q0, cap, ops.drop_last());
        match ops.last() {
            RbOp::Push(v) => before,
            RbOp::Pop => if prev.len() > 0 {
                before.push(prev[0])
            } else {
                before
            },
        }
    }
}

/// No push in `ops` ever meets a full buffer.
pub open spec fn never_exceeds_capacity<T>(q0: Seq<T>, cap: int, ops: Seq<RbOp<T>>) -> bool
    decreases ops.len(),
{
    if ops.len() == 0 {
        true
    } else {
        &&& never_exceeds_capacity(q0, cap, ops.drop_last())
        &&& (ops.last() is Push ==> run_ops(q0, cap, ops.drop_last()).len() < cap)
    }
}

/// FIFO order.  Over any interleaving of pushes and pops in which no push
/// ever meets a full buffer, the values the pops removed, followed by the
/// values still buffered, are exactly the initial contents followed by
/// the pushed values: elements leave in the order they arrived.
pub proof fn lemma_fifo_order<T>(q0: Seq<T>, cap: int, ops: Seq<RbOp<T>>)
    requires
        never_exceeds_capacity(q0, cap, ops),
    ensures
        popped_values(q0, cap, ops) + run_ops(q0, cap, ops) == q0 + pushed_values(ops),
    decreases ops.len(),
{
    if ops.len() == 0 {
        assert(popped_values(q0, cap, ops) + run_ops(q0, cap, ops) =~= q0 + pushed_values(ops));
    } else {
        let rest = ops.drop_last();
        lemma_fifo_order(q0, cap, rest);
        let prev = run_ops(q0, cap, rest);
        let before = popped_values(q0, cap, rest);
        match ops.last() {
            RbOp::Push(v) => {
                assert(before + prev.push(v) =~= (before + prev).push(v));
                assert(q0 + pushed_values(rest).push(v) =~= (q0 + pushed_values(rest)).push(v));
            },
            RbOp::Pop => {
                if prev.len() > 0 {
                    assert(before.push(prev[0]) + prev.skip(1) =~= before + prev);
                }
            },
        }
    }
}

/// Clamped counting: each push adds one element unless the buffer is at
/// capacity, each pop removes one unless it is empty, so the count never
/// leaves `[0, capacity]`.
pub open spec fn clamped_count<T>(n0: int, cap: int, ops: Seq<RbOp<T>>) -> int
    decreases ops.len(),
{
    if ops.len() == 0 {
        n0
    } else {
        let prev = clamped_count(n0, cap, ops.drop_last());
        match ops.last() {
            RbOp::Push(v) => if prev < cap {
                prev + 1
            } else {
                prev
            },
            RbOp::Pop => if prev > 0 {
                prev - 1
            } else {
                prev
            },
        }
    }
}

/// The element count always equals the number of accepted pushes minus
/// the number of effective pops, clamped within `[0, capacity]`: running
/// any operation sequence leaves exactly `clamped_count` elements
/// buffered.
pub proof fn lemma_count_tracks_operations<T>(q0: Seq<T>, cap: int, ops: Seq<RbOp<T>>)
    ensures
        run_ops(q0, cap, ops).len() == clamped_count(q0.len() as int, cap, ops),
    decreases ops.len(),
{
    if ops.len() > 0 {
        lemma_count_tracks_operations(q0, cap, ops.drop_last());
    }
}

} // verus!
