//! Capacity and occupancy arithmetic.
//!
//! Pure functions over `(capacity, head, tail, count)` that compute the
//! full/empty state, the free and occupied lengths, and the index ranges of
//! the occupied and vacant regions, together with the wraparound arithmetic
//! lemmas the storage engine is proved against.

use vstd::arithmetic::div_mod::{lemma_fundamental_div_mod_converse, lemma_small_mod};
use vstd::prelude::*;

verus! {

/// Failure reported by a byte-stream collaborator (a source or a sink).
/// The core propagates it to the caller unchanged and never retries.
#[derive(Clone, Copy, Debug, PartialEq, Eq, Structural)]
pub struct StreamError;

/// A half-open range `[start, end)` of slot indices in the backing buffer.
#[derive(Clone, Copy, Debug, PartialEq, Eq, Structural)]
pub struct IndexRange {
    pub start: usize,
    pub end: usize,
}

impl IndexRange {
    /// A range is well formed when it does not end before it starts.
    pub open spec fn wf(&self) -> bool {
        self.start <= self.end
    }

    pub open spec fn len_spec(&self) -> int {
        self.end - self.start
    }

    /// Number of slots the range covers.
    pub fn len(&self) -> (r: usize)
        requires
            self.wf(),
        ensures
            r == self.len_spec(),
    {
        self.end - self.start
    }

    /// True when the range covers no slot at all.
    pub fn is_empty(&self) -> (r: bool)
        requires
            self.wf(),
        ensures
            r == (self.len_spec() == 0),
    {
        self.start == self.end
    }
}

/// Builds an [`IndexRange`] from spec-level bounds.
pub open spec fn range(start: int, end: int) -> IndexRange {
    IndexRange { start: start as usize, end: end as usize }
}

/// The bookkeeping state of a ring buffer is consistent: every position is
/// inside the buffer, the occupied count fits, and the head sits exactly
/// `count` slots (modulo the capacity) past the tail.
pub open spec fn state_wf(cap: int, head: int, tail: int, count: int) -> bool {
    &&& 1 <= cap
    &&& 0 <= head < cap
    &&& 0 <= tail < cap
    &&& 0 <= count <= cap
    &&& head == wrap_index(tail, count, cap)
}

/// The buffer is full exactly when every slot is occupied.
pub open spec fn is_full_state(cap: int, count: int) -> bool {
    count == cap
}

/// The buffer is empty exactly when no slot is occupied.
pub open spec fn is_empty_state(count: int) -> bool {
    count == 0
}

/// Number of vacant slots.
pub open spec fn free_len_state(cap: int, count: int) -> int {
    cap - count
}

/// The buffer index `offset` slots past `base`, wrapping around at `cap`.
pub open spec fn wrap_index(base: int, offset: int, cap: int) -> int {
    (base + offset) % cap
}

/// The index ranges of the occupied region: a primary range and, when the
/// region wraps around the end of the buffer, a second range starting at
/// slot zero.  When nothing is occupied both ranges are empty; when the
/// head is past the tail the region is the single range `[tail, head)`;
/// otherwise it wraps and splits into `[tail, cap)` and `[0, head)`.
pub open spec fn occupied_ranges(cap: int, head: int, tail: int, count: int) -> (IndexRange,
    IndexRange) {
    if count == 0 {
        (range(0, 0), range(0, 0))
    } else if head > tail {
        (range(tail, head), range(0, 0))
    } else {
        (range(tail, cap), range(0, head))
    }
}

/// The index ranges of the vacant region, symmetric to [`occupied_ranges`].
/// An untouched buffer is the single range `[0, cap)`; a full buffer has
/// two empty ranges; when the head is at or past the tail the region splits
/// into `[head, cap)` and `[0, tail)`; otherwise it is the single range
/// `[head, tail)`.
pub open spec fn vacant_ranges(cap: int, head: int, tail: int, count: int) -> (IndexRange,
    IndexRange) {
    if count == 0 && head == 0 && tail == 0 {
        (range(0, cap), range(0, 0))
    } else if count == cap {
        (range(0, 0), range(0, 0))
    } else if head >= tail {
        (range(head, cap), range(0, tail))
    } else {
        (range(head, tail), range(0, 0))
    }
}

/// Moves `base` forward by `n` slots, wrapping around at `cap`, without
/// ever forming a sum that could overflow.
pub fn wrap_add(cap: usize, base: usize, n: usize) -> (r: usize)
    requires
        1 <= cap,
        base < cap,
        n <= cap,
    ensures
        r == wrap_index(base as int, n as int, cap as int),
        r < cap,
{
    let room = cap - base;
    let r = if n >= room {
        n - room
    } else {
        base + n
    };
    proof {
        lemma_wrap_unroll(base + n, cap as int);
    }
    r
}

/// The state every ring buffer exposes: capacity, positions, count and
/// the derived full/empty tests, stated over the buffered elements.
pub trait RbBase<T>: Sized {
    /// The buffered elements, oldest first.
    spec fn elems(&self) -> Seq<T>;

    /// Capacity fixed at construction.
    spec fn capacity(&self) -> int;

    /// Next write position.
    spec fn head_pos(&self) -> int;

    /// Next read position.
    spec fn tail_pos(&self) -> int;

    /// Structural invariant of the implementation.
    spec fn inv(&self) -> bool;

    /// Capacity of the buffer.
    fn cap(&self) -> (r: usize)
        ensures
            r == self.capacity(),
    ;

    /// Next write position.
    fn head(&self) -> (r: usize)
        ensures
            r == self.head_pos(),
    ;

    /// Next read position.
    fn tail(&self) -> (r: usize)
        ensures
            r == self.tail_pos(),
    ;

    /// Number of occupied slots.
    fn count(&self) -> (r: usize)
        ensures
            r == self.elems().len(),
    ;

    /// True exactly when every slot is occupied.
    fn is_full(&self) -> (r: bool)
        ensures
            r == (self.elems().len() == self.capacity()),
    ;

    /// True exactly when no slot is occupied.
    fn is_empty(&self) -> (r: bool)
        ensures
            r == (self.elems().len() == 0),
    ;

    /// Number of occupied slots.
    fn occupied_len(&self) -> (r: usize)
        ensures
            r == self.elems().len(),
    ;

    /// Number of vacant slots.
    fn free_len(&self) -> (r: usize)
        requires
            self.inv(),
        ensures
            r == self.capacity() - self.elems().len(),
    ;
}

/// The read side of a ring buffer: what a consumer may do.
pub trait RbRead<T>: RbBase<T> {
    /// Logically consumes `count` elements by moving the tail, or rejects
    /// a count past the occupied length without changing anything.
    fn advance_tail(&mut self, count: usize) -> (r: Result<(), String>)
        requires
            old(self).inv(),
        ensures
            final(self).inv(),
            final(self).capacity() == old(self).capacity(),
            count > old(self).elems().len() ==> r is Err && *final(self) == *old(self),
            count <= old(self).elems().len() ==> {
                &&& r is Ok
                &&& final(self).elems() == old(self).elems().skip(count as int)
                &&& final(self).head_pos() == old(self).head_pos()
                &&& final(self).tail_pos() == wrap_index(
                    old(self).tail_pos(),
                    count as int,
                    old(self).capacity(),
                )
            },
    ;

    /// The index ranges of the readable slots.
    fn occupied_range(&self) -> (r: (IndexRange, IndexRange))
        requires
            self.inv(),
        ensures
            r == occupied_ranges(
                self.capacity(),
                self.head_pos(),
                self.tail_pos(),
                self.elems().len() as int,
            ),
            r.0.wf() && r.1.wf(),
            r.0.len_spec() + r.1.len_spec() == self.elems().len(),
    ;
}

/// The write side of a ring buffer: what a producer may do.
pub trait RbWrite<T>: RbBase<T> {
    /// The elements sitting in the first `n` vacant slots past the head.
    spec fn staged(&self, n: int) -> Seq<T>;

    /// The first `n` vacant slots past the head have all been written.
    spec fn staged_ready(&self, n: int) -> bool;

    /// Publishes `count` freshly written elements by moving the head, or
    /// rejects a count past the free length without changing anything.
    fn advance_head(&mut self, count: usize) -> (r: Result<(), String>)
        requires
            old(self).inv(),
            count <= old(self).capacity() - old(self).elems().len() ==> old(self).staged_ready(
                count as int,
            ),
        ensures
            final(self).inv(),
            final(self).capacity() == old(self).capacity(),
            count > old(self).capacity() - old(self).elems().len() ==> r is Err && *final(self)
                == *old(self),
            count <= old(self).capacity() - old(self).elems().len() ==> {
                &&& r is Ok
                &&& final(self).elems() == old(self).elems() + old(self).staged(count as int)
                &&& final(self).tail_pos() == old(self).tail_pos()
                &&& final(self).head_pos() == wrap_index(
                    old(self).head_pos(),
                    count as int,
                    old(self).capacity(),
                )
            },
    ;

    /// The index ranges of the writable slots.
    fn vacant_range(&self) -> (r: (IndexRange, IndexRange))
        requires
            self.inv(),
        ensures
            r == vacant_ranges(
                self.capacity(),
                self.head_pos(),
                self.tail_pos(),
                self.elems().len() as int,
            ),
            r.0.wf() && r.1.wf(),
            r.0.len_spec() + r.1.len_spec() == self.capacity() - self.elems().len(),
    ;
}

/// A sum below twice the modulus wraps at most once, so the remainder is
/// either the sum itself or the sum less one modulus.
pub proof fn lemma_wrap_unroll(a: int, cap: int)
    requires
        0 < cap,
        0 <= a < 2 * cap,
    ensures
        a % cap == if a < cap {
            a
        } else {
            a - cap
        },
{
    if a < cap {
        lemma_small_mod(a as nat, cap as nat);
    } else {
        lemma_fundamental_div_mod_converse(a, cap, 1, a - cap);
    }
}

/// Wrapping twice is the same as wrapping the combined offset once.
pub proof fn lemma_wrap_assoc(base: int, m: int, i: int, cap: int)
    requires
        0 < cap,
        0 <= base,
        0 <= m,
        0 <= i,
    ensures
        wrap_index(wrap_index(base, m, cap), i, cap) == wrap_index(base, m + i, cap),
{
    let w = (base + m) % cap;
    let q = (base + m) / cap;
    vstd::arithmetic::div_mod::lemma_fundamental_div_mod(base + m, cap);
    assert(base + m == cap * q + w);
    assert(w + i == (base + m + i) - q * cap) by {
        vstd::arithmetic::mul::lemma_mul_is_commutative(cap, q);
    }
    vstd::arithmetic::div_mod::lemma_mod_multiples_vanish(q, w + i, cap);
    assert((w + i) % cap == (q * cap + (w + i)) % cap);
}

/// Distinct offsets below the capacity land on distinct buffer slots.
pub proof fn lemma_wrap_inj(base: int, i: int, j: int, cap: int)
    requires
        0 < cap,
        0 <= base < cap,
        0 <= i < cap,
        0 <= j < cap,
        wrap_index(base, i, cap) == wrap_index(base, j, cap),
    ensures
        i == j,
{
    lemma_wrap_unroll(base + i, cap);
    lemma_wrap_unroll(base + j, cap);
}

} // verus!
