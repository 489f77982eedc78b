//! The shared storage engine.
//!
//! [`SharedRb`] owns the backing buffer of `capacity` slots plus the
//! `head`/`tail`/`count` bookkeeping.  A slot is either vacant or holds one
//! buffered element; the occupied region `[tail, tail + count)` (modulo the
//! capacity) lists the buffered elements in arrival order, which is the
//! abstract view `self@` every contract is stated over.

use crate::base::{
    free_len_state, is_empty_state, is_full_state, lemma_wrap_assoc, lemma_wrap_inj,
    lemma_wrap_unroll, occupied_ranges, state_wf, vacant_ranges, wrap_add, wrap_index, IndexRange,
};
use crate::consumer::Consumer;
use crate::producer::Producer;
use vstd::prelude::*;

verus! {

/// Fixed-capacity ring buffer storage.
///
/// A vacant slot holds `None`; an occupied slot holds `Some` element.  The
/// capacity is the length of `buffer` and never changes after construction.
pub struct SharedRb<T> {
    buffer: Vec<Option<T>>,
    head: usize,
    tail: usize,
    count: usize,
}

impl<T> View for SharedRb<T> {
    type V = Seq<T>;

    /// The buffered elements, oldest first.
    closed spec fn view(&self) -> Seq<T> {
        Seq::new(self.count as nat, |i: int| self.slot_at(i)->0)
    }
}

impl<T> SharedRb<T> {
    /// Number of slots in the backing buffer.
    pub closed spec fn cap_spec(&self) -> int {
        self.buffer@.len() as int
    }

    /// Next write position.
    pub closed spec fn head_spec(&self) -> int {
        self.head as int
    }

    /// Next read position.
    pub closed spec fn tail_spec(&self) -> int {
        self.tail as int
    }

    /// Number of occupied slots.
    pub closed spec fn count_spec(&self) -> int {
        self.count as int
    }

    /// The slot `i` positions past the tail.
    spec fn slot_at(&self, i: int) -> Option<T> {
        self.buffer@[wrap_index(self.tail_spec(), i, self.cap_spec())]
    }

    /// The slot `i` positions past the head.
    spec fn vacant_at(&self, i: int) -> Option<T> {
        self.buffer@[wrap_index(self.head_spec(), i, self.cap_spec())]
    }

    /// Structural invariant: the bookkeeping is consistent and every
    /// occupied slot holds an element.
    pub closed spec fn wf(&self) -> bool {
        &&& state_wf(self.cap_spec(), self.head_spec(), self.tail_spec(), self.count_spec())
        &&& forall|i: int| 0 <= i < self.count_spec() ==> (#[trigger] self.slot_at(i)) is Some
    }

    /// The first `n` vacant slots past the head have all been written.
    pub closed spec fn staged_ready(&self, n: int) -> bool {
        forall|i: int| 0 <= i < n ==> (#[trigger] self.vacant_at(i)) is Some
    }

    /// The elements sitting in the first `n` vacant slots past the head,
    /// in slot order: what the next `advance_head(n)` would publish.
    pub closed spec fn staged(&self, n: int) -> Seq<T> {
        Seq::new(n as nat, |i: int| self.vacant_at(i)->0)
    }

    /// A well-formed buffer has a positive capacity and never holds more
    /// elements than it.
    pub proof fn lemma_view_bounded(&self)
        requires
            self.wf(),
        ensures
            self@.len() == self.count_spec(),
            self@.len() <= self.cap_spec(),
            1 <= self.cap_spec(),
    {
    }

    /// Creates storage for up to `cap` elements, all slots vacant.
    pub fn new(cap: usize) -> (r: SharedRb<T>)
        requires
            1 <= cap,
        ensures
            r.wf(),
            r@ == Seq::<T>::empty(),
            r.cap_spec() == cap,
            r.head_spec() == 0,
            r.tail_spec() == 0,
    {
        let mut buffer: Vec<Option<T>> = Vec::new();
        let mut i: usize = 0;
        while i < cap
            invariant
                i <= cap,
                buffer@.len() == i,
            decreases cap - i,
        {
            buffer.push(None);
            i += 1;
        }
        let r = SharedRb { buffer, head: 0, tail: 0, count: 0 };
        proof {
            lemma_wrap_unroll(0, cap as int);
            assert(r@ =~= Seq::<T>::empty());
        }
        r
    }

    /// Hands out the two role handles sharing this storage: one producer
    /// and one consumer.  Each role should be given out exactly once.
    pub fn split(&self) -> (Producer, Consumer) {
        (Producer::new(), Consumer::new())
    }

    /// Capacity fixed at construction.
    pub fn cap(&self) -> (r: usize)
        ensures
            r == self.cap_spec(),
    {
        self.buffer.len()
    }

    /// Next write position.
    pub fn head(&self) -> (r: usize)
        ensures
            r == self.head_spec(),
    {
        self.head
    }

    /// Next read position.
    pub fn tail(&self) -> (r: usize)
        ensures
            r == self.tail_spec(),
    {
        self.tail
    }

    /// Number of occupied slots, always the length of the view.
    pub fn count(&self) -> (r: usize)
        ensures
            r == self.count_spec(),
            r == self@.len(),
    {
        self.count
    }

    /// True exactly when every slot is occupied.
    pub fn is_full(&self) -> (r: bool)
        ensures
            r == is_full_state(self.cap_spec(), self.count_spec()),
            r == (self@.len() == self.cap_spec()),
    {
        self.count == self.buffer.len()
    }

    /// True exactly when no slot is occupied.
    pub fn is_empty(&self) -> (r: bool)
        ensures
            r == is_empty_state(self.count_spec()),
            r == (self@.len() == 0),
    {
        self.count == 0
    }

    /// Number of occupied slots.
    pub fn occupied_len(&self) -> (r: usize)
        ensures
            r == self@.len(),
    {
        self.count
    }

    /// Number of vacant slots.
    pub fn free_len(&self) -> (r: usize)
        requires
            self.wf(),
        ensures
            r == free_len_state(self.cap_spec(), self.count_spec()),
            r == self.cap_spec() - self@.len(),
    {
        self.buffer.len() - self.count
    }

    /// Logically consumes `count` elements: moves the tail forward and
    /// shrinks the occupied region, leaving the slot contents in place.
    /// Rejects a count larger than the occupied length without changing
    /// anything; that is a caller contract violation, not a transient
    /// condition.
    pub fn advance_tail(&mut self, count: usize) -> (r: Result<(), String>)
        requires
            old(self).wf(),
        ensures
            final(self).wf(),
            final(self).cap_spec() == old(self).cap_spec(),
            count > old(self)@.len() ==> r is Err && *final(self) == *old(self),
            count <= old(self)@.len() ==> {
                &&& r is Ok
                &&& final(self)@ == old(self)@.skip(count as int)
                &&& final(self).head_spec() == old(self).head_spec()
                &&& final(self).tail_spec() == wrap_index(
                    old(self).tail_spec(),
                    count as int,
                    old(self).cap_spec(),
                )
                &&& final(self).count_spec() == old(self).count_spec() - count
            },
    {
        if count > self.occupied_len() {
            return Err("cannot advance the tail past the occupied length".to_string());
        }
        let cap = self.buffer.len();
        let ghost old_self = *self;
        self.tail = wrap_add(cap, self.tail, count);
        self.count = self.count - count;
        proof {
            let c = old_self.cap_spec();
            let t = old_self.tail_spec();
            let n = count as int;
            assert forall|i: int| 0 <= i < self.count_spec() implies self.slot_at(i) == old_self.slot_at(
                n + i,
            ) by {
                lemma_wrap_assoc(t, n, i, c);
            }
            lemma_wrap_assoc(t, n, self.count_spec(), c);
            assert(self@ =~= old_self@.skip(n));
        }
        Ok(())
    }

    /// Publishes `count` freshly written elements: moves the head forward
    /// and grows the occupied region by the staged slots.  Rejects a count
    /// larger than the free length without changing anything.
    pub fn advance_head(&mut self, count: usize) -> (r: Result<(), String>)
        requires
            old(self).wf(),
            count <= old(self).cap_spec() - old(self)@.len() ==> old(self).staged_ready(
                count as int,
            ),
        ensures
            final(self).wf(),
            final(self).cap_spec() == old(self).cap_spec(),
            count > old(self).cap_spec() - old(self)@.len() ==> r is Err && *final(self) == *old(
                self,
            ),
            count <= old(self).cap_spec() - old(self)@.len() ==> {
                &&& r is Ok
                &&& final(self)@ == old(self)@ + old(self).staged(count as int)
                &&& final(self).tail_spec() == old(self).tail_spec()
                &&& final(self).head_spec() == wrap_index(
                    old(self).head_spec(),
                    count as int,
                    old(self).cap_spec(),
                )
                &&& final(self).count_spec() == old(self).count_spec() + count
            },
    {
        if count > self.free_len() {
            return Err("cannot advance the head past the free length".to_string());
        }
        let cap = self.buffer.len();
        let ghost old_self = *self;
        self.head = wrap_add(cap, self.head, count);
        self.count = self.count + count;
        proof {
            let c = old_self.cap_spec();
            let t = old_self.tail_spec();
            let k = old_self.count_spec();
            let n = count as int;
            lemma_wrap_assoc(t, k, n, c);
            assert(self.head_spec() == wrap_index(t, k + n, c));
            assert forall|i: int| k <= i < k + n implies self.slot_at(i) == old_self.vacant_at(
                i - k,
            ) by {
                lemma_wrap_assoc(t, k, i - k, c);
            }
            assert forall|i: int| 0 <= i < k + n implies (#[trigger] self.slot_at(i)) is Some by {
                if i < k {
                    assert(old_self.slot_at(i) is Some);
                } else {
                    assert(old_self.vacant_at(i - k) is Some);
                }
            }
            assert(self@ =~= old_self@ + old_self.staged(n));
        }
        Ok(())
    }

    /// Appends `value` behind the newest element.  When the buffer is full
    /// the value is handed back unchanged and nothing else happens.
    pub fn push(&mut self, value: T) -> (r: Result<(), T>)
        requires
            old(self).wf(),
        ensures
            final(self).wf(),
            final(self).cap_spec() == old(self).cap_spec(),
            old(self)@.len() < old(self).cap_spec() ==> {
                &&& r is Ok
                &&& final(self)@ == old(self)@.push(value)
                &&& final(self).tail_spec() == old(self).tail_spec()
            },
            old(self)@.len() == old(self).cap_spec() ==> r == Err::<(), T>(value) && *final(self)
                == *old(self),
    {
        if self.is_full() {
            return Err(value);
        }
        let ghost old_self = *self;
        let mut slot = Some(value);
        let head = self.head;
        self.buffer.set_and_swap(head, &mut slot);
        proof {
            let c = old_self.cap_spec();
            let t = old_self.tail_spec();
            let k = old_self.count_spec();
            assert forall|i: int| 0 <= i < k implies self.slot_at(i) == old_self.slot_at(i) by {
                if wrap_index(t, i, c) == old_self.head_spec() {
                    lemma_wrap_inj(t, i, k, c);
                }
            }
            assert(self@ =~= old_self@);
            assert forall|i: int| 0 <= i < self.count_spec() implies (#[trigger] self.slot_at(i))
                is Some by {
                assert(old_self.slot_at(i) is Some);
            }
            assert(self.wf());
            assert(self.vacant_at(0) == Some(value)) by {
                lemma_wrap_unroll(old_self.head_spec(), c);
            }
            assert(self.staged_ready(1));
        }
        let res = self.advance_head(1);
        proof {
            assert(res is Ok);
            assert(self@ =~= old_self@.push(value));
        }
        Ok(())
    }

    /// Removes and returns the oldest element, or `None` when the buffer
    /// is empty.
    pub fn pop(&mut self) -> (r: Option<T>)
        requires
            old(self).wf(),
        ensures
            final(self).wf(),
            final(self).cap_spec() == old(self).cap_spec(),
            old(self)@.len() == 0 ==> r is None && *final(self) == *old(self),
            old(self)@.len() > 0 ==> {
                &&& r == Some(old(self)@[0])
                &&& final(self)@ == old(self)@.skip(1)
                &&& final(self).head_spec() == old(self).head_spec()
            },
    {
        if self.is_empty() {
            return None;
        }
        let ghost old_self = *self;
        let mut slot: Option<T> = None;
        let tail = self.tail;
        self.buffer.set_and_swap(tail, &mut slot);
        let cap = self.buffer.len();
        self.tail = wrap_add(cap, tail, 1);
        self.count = self.count - 1;
        proof {
            let c = old_self.cap_spec();
            let t = old_self.tail_spec();
            let k = old_self.count_spec();
            lemma_wrap_unroll(t, c);
            assert(slot == Some(old_self@[0]));
            assert forall|i: int| 0 <= i < self.count_spec() implies self.slot_at(i)
                == old_self.slot_at(1 + i) by {
                lemma_wrap_assoc(t, 1, i, c);
                if wrap_index(t, 1 + i, c) == t {
                    lemma_wrap_inj(t, 1 + i, 0, c);
                }
            }
            lemma_wrap_assoc(t, 1, self.count_spec(), c);
            assert(self@ =~= old_self@.skip(1));
        }
        slot
    }

    /// The index ranges the occupied region covers right now.
    pub open spec fn occupied_range_spec(&self) -> (IndexRange, IndexRange) {
        occupied_ranges(self.cap_spec(), self.head_spec(), self.tail_spec(), self.count_spec())
    }

    /// The index ranges the vacant region covers right now.
    pub open spec fn vacant_range_spec(&self) -> (IndexRange, IndexRange) {
        vacant_ranges(self.cap_spec(), self.head_spec(), self.tail_spec(), self.count_spec())
    }

    /// Length of the primary occupied range: how many of the oldest
    /// elements sit in consecutive slots before the region wraps.
    pub open spec fn primary_occupied_len(&self) -> int {
        self.occupied_range_spec().0.len_spec()
    }

    /// Length of the primary vacant range: how many writes fit in
    /// consecutive slots before the vacant region wraps.
    pub open spec fn primary_vacant_len(&self) -> int {
        self.vacant_range_spec().0.len_spec()
    }

    /// Up to two non-overlapping index ranges describing the readable
    /// slots: the whole region `[tail, head)` when it does not wrap,
    /// otherwise `[tail, cap)` followed by `[0, head)`.
    pub fn occupied_range(&self) -> (r: (IndexRange, IndexRange))
        requires
            self.wf(),
        ensures
            r == self.occupied_range_spec(),
            r.0.wf() && r.1.wf(),
            r.0.end <= self.cap_spec() && r.1.end <= self.cap_spec(),
            r.0.len_spec() + r.1.len_spec() == self@.len(),
    {
        let head = self.head;
        let tail = self.tail;
        let count = self.count;
        let cap = self.buffer.len();
        proof {
            lemma_wrap_unroll(self.tail_spec() + self.count_spec(), self.cap_spec());
        }
        if count == 0 {
            (IndexRange { start: 0, end: 0 }, IndexRange { start: 0, end: 0 })
        } else if head > tail {
            (IndexRange { start: tail, end: head }, IndexRange { start: 0, end: 0 })
        } else {
            (IndexRange { start: tail, end: cap }, IndexRange { start: 0, end: head })
        }
    }

    /// Up to two non-overlapping index ranges describing the writable
    /// slots, symmetric to [`SharedRb::occupied_range`].
    pub fn vacant_range(&self) -> (r: (IndexRange, IndexRange))
        requires
            self.wf(),
        ensures
            r == self.vacant_range_spec(),
            r.0.wf() && r.1.wf(),
            r.0.end <= self.cap_spec() && r.1.end <= self.cap_spec(),
            r.0.len_spec() + r.1.len_spec() == self.cap_spec() - self@.len(),
    {
        let head = self.head;
        let tail = self.tail;
        let count = self.count;
        let cap = self.buffer.len();
        proof {
            lemma_wrap_unroll(self.tail_spec() + self.count_spec(), self.cap_spec());
        }
        if count == 0 && head == 0 && tail == 0 {
            (IndexRange { start: 0, end: cap }, IndexRange { start: 0, end: 0 })
        } else if count == cap {
            (IndexRange { start: 0, end: 0 }, IndexRange { start: 0, end: 0 })
        } else if head >= tail {
            (IndexRange { start: head, end: cap }, IndexRange { start: 0, end: tail })
        } else {
            (IndexRange { start: head, end: tail }, IndexRange { start: 0, end: 0 })
        }
    }
}

impl<T: Copy> SharedRb<T> {
    /// Copies as many leading elements of `elems` as fit into the vacant
    /// region and publishes them, returning how many were taken: a short
    /// write when the input does not fit, never an error.
    pub fn push_slice(&mut self, elems: &[T]) -> (r: usize)
        requires
            old(self).wf(),
        ensures
            final(self).wf(),
            final(self).cap_spec() == old(self).cap_spec(),
            final(self).tail_spec() == old(self).tail_spec(),
            r as int == if elems@.len() <= old(self).cap_spec() - old(self)@.len() {
                elems@.len() as int
            } else {
                old(self).cap_spec() - old(self)@.len()
            },
            final(self)@ == old(self)@ + elems@.take(r as int),
    {
        let free = self.free_len();
        let len = elems.len();
        let n = if len <= free {
            len
        } else {
            free
        };
        let cap = self.buffer.len();
        let mut i: usize = 0;
        while i < n
            invariant
                self.wf(),
                i <= n,
                n as int <= old(self).cap_spec() - old(self)@.len(),
                n <= elems@.len(),
                cap == self.cap_spec(),
                self.cap_spec() == old(self).cap_spec(),
                self.count_spec() + n <= self.cap_spec(),
                self.head_spec() == old(self).head_spec(),
                self.tail_spec() == old(self).tail_spec(),
                self.count_spec() == old(self).count_spec(),
                self@ == old(self)@,
                self.staged_ready(i as int),
                self.staged(i as int) == elems@.take(i as int),
            decreases n - i,
        {
            let ghost pre = *self;
            let idx = wrap_add(cap, self.head, i);
            let mut s = Some(elems[i]);
            self.buffer.set_and_swap(idx, &mut s);
            i += 1;
            proof {
                let c = pre.cap_spec();
                let t = pre.tail_spec();
                let h = pre.head_spec();
                let k = pre.count_spec();
                assert forall|j: int| 0 <= j < k implies self.slot_at(j) == pre.slot_at(j) by {
                    if wrap_index(t, j, c) == wrap_index(h, i - 1, c) {
                        lemma_wrap_assoc(t, k, i - 1, c);
                        lemma_wrap_inj(t, j, k + (i - 1), c);
                    }
                }
                assert forall|j: int| 0 <= j < i - 1 implies self.vacant_at(j) == pre.vacant_at(
                    j,
                ) by {
                    if wrap_index(h, j, c) == wrap_index(h, i - 1, c) {
                        lemma_wrap_inj(h, j, i - 1, c);
                    }
                }
                assert(self.vacant_at(i - 1) == Some(elems@[i - 1]));
                assert forall|j: int| 0 <= j < self.count_spec() implies (#[trigger] self.slot_at(
                    j,
                )) is Some by {
                    assert(pre.slot_at(j) is Some);
                }
                assert(self.wf());
                assert forall|j: int| 0 <= j < i implies (#[trigger] self.vacant_at(j))
                    is Some by {
                    if j < i - 1 {
                        assert(pre.vacant_at(j) is Some);
                    }
                }
                assert(self@ =~= old(self)@);
                assert(self.staged(i as int) =~= elems@.take(i as int));
            }
        }
        let res = self.advance_head(n);
        proof {
            assert(res is Ok);
            assert(self@ =~= old(self)@ + elems@.take(n as int));
        }
        n
    }

    /// Copies as many elements as fit, bounded by both the occupied length
    /// and the destination length, into the front of `elems`, consumes
    /// them, and returns how many were moved.  The rest of `elems` keeps
    /// its previous contents.
    pub fn pop_slice(&mut self, elems: &mut Vec<T>) -> (r: usize)
        requires
            old(self).wf(),
        ensures
            final(self).wf(),
            final(self).cap_spec() == old(self).cap_spec(),
            final(self).head_spec() == old(self).head_spec(),
            r as int == if old(self)@.len() <= old(elems)@.len() {
                old(self)@.len() as int
            } else {
                old(elems)@.len() as int
            },
            final(elems)@.len() == old(elems)@.len(),
            final(elems)@ == old(self)@.take(r as int) + old(elems)@.skip(r as int),
            final(self)@ == old(self)@.skip(r as int),
    {
        let occ = self.occupied_len();
        let dst = elems.len();
        let n = if occ <= dst {
            occ
        } else {
            dst
        };
        let cap = self.buffer.len();
        let mut i: usize = 0;
        while i < n
            invariant
                self.wf(),
                *self == *old(self),
                i <= n,
                n <= self@.len(),
                n <= old(elems)@.len(),
                cap == self.cap_spec(),
                elems@.len() == old(elems)@.len(),
                elems@ == old(self)@.take(i as int) + old(elems)@.skip(i as int),
            decreases n - i,
        {
            let idx = wrap_add(cap, self.tail, i);
            let s = self.buffer[idx];
            proof {
                assert(s == self.slot_at(i as int));
            }
            let v = s.unwrap();
            elems.set(i, v);
            i += 1;
            proof {
                assert(elems@ =~= old(self)@.take(i as int) + old(elems)@.skip(i as int));
            }
        }
        let res = self.advance_tail(n);
        proof {
            assert(res is Ok);
        }
        n
    }

    /// Copies the primary occupied range out of the storage: the oldest
    /// elements, up to where the occupied region wraps.
    pub fn copy_primary_occupied(&self) -> (r: Vec<T>)
        requires
            self.wf(),
        ensures
            r@.len() == self.primary_occupied_len(),
            r@.len() <= self@.len(),
            r@ == self@.take(self.primary_occupied_len()),
    {
        let (first, _) = self.occupied_range();
        let n = first.len();
        let tail = self.tail;
        let cap = self.buffer.len();
        let mut out: Vec<T> = Vec::new();
        proof {
            lemma_wrap_unroll(self.tail_spec() + self.count_spec(), self.cap_spec());
            assert(self.tail_spec() + n <= self.cap_spec());
        }
        let mut i: usize = 0;
        while i < n
            invariant
                self.wf(),
                i <= n,
                n <= self@.len(),
                tail == self.tail_spec(),
                cap == self.cap_spec(),
                self.tail_spec() + n <= self.cap_spec(),
                out@ == self@.take(i as int),
            decreases n - i,
        {
            let idx = tail + i;
            let s = self.buffer[idx];
            proof {
                lemma_wrap_unroll(self.tail_spec() + i, self.cap_spec());
                assert(s == self.slot_at(i as int));
            }
            let v = s.unwrap();
            out.push(v);
            i += 1;
            proof {
                assert(out@ =~= self@.take(i as int));
            }
        }
        out
    }
}

impl<T> crate::base::RbBase<T> for SharedRb<T> {
    open spec fn elems(&self) -> Seq<T> {
        self@
    }

    open spec fn capacity(&self) -> int {
        self.cap_spec()
    }

    open spec fn head_pos(&self) -> int {
        self.head_spec()
    }

    open spec fn tail_pos(&self) -> int {
        self.tail_spec()
    }

    open spec fn inv(&self) -> bool {
        self.wf()
    }

    fn cap(&self) -> (r: usize) {
        SharedRb::cap(self)
    }

    fn head(&self) -> (r: usize) {
        SharedRb::head(self)
    }

    fn tail(&self) -> (r: usize) {
        SharedRb::tail(self)
    }

    fn count(&self) -> (r: usize) {
        SharedRb::count(self)
    }

    fn is_full(&self) -> (r: bool) {
        SharedRb::is_full(self)
    }

    fn is_empty(&self) -> (r: bool) {
        SharedRb::is_empty(self)
    }

    fn occupied_len(&self) -> (r: usize) {
        SharedRb::occupied_len(self)
    }

    fn free_len(&self) -> (r: usize) {
        SharedRb::free_len(self)
    }
}

impl<T> crate::base::RbRead<T> for SharedRb<T> {
    fn advance_tail(&mut self, count: usize) -> (r: Result<(), String>) {
        SharedRb::advance_tail(self, count)
    }

    fn occupied_range(&self) -> (r: (IndexRange, IndexRange)) {
        SharedRb::occupied_range(self)
    }
}

impl<T> crate::base::RbWrite<T> for SharedRb<T> {
    open spec fn staged(&self, n: int) -> Seq<T> {
        SharedRb::staged(self, n)
    }

    open spec fn staged_ready(&self, n: int) -> bool {
        SharedRb::staged_ready(self, n)
    }

    fn advance_head(&mut self, count: usize) -> (r: Result<(), String>) {
        SharedRb::advance_head(self, count)
    }

    fn vacant_range(&self) -> (r: (IndexRange, IndexRange)) {
        SharedRb::vacant_range(self)
    }
}

} // verus!
