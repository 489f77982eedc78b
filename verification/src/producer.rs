//! The write-side handle.
//!
//! A [`Producer`] is the single-writer capability over a [`SharedRb`]: all
//! of its operations advance the head and grow the occupied region, so it
//! never disturbs what the consumer side is reading.  The storage is passed
//! to each call explicitly; keeping exactly one producer per storage keeps
//! the single-writer discipline.

use crate::base::{IndexRange, StreamError};
use crate::storage::SharedRb;
use vstd::prelude::*;

verus! {

/// A source capability: asked to fill a provided byte region, it reports
/// how many leading bytes it produced, or a failure of its own.  The core
/// consumes this interface; callers implement it.
pub trait ByteSource {
    /// Attempts to fill a prefix of `buf`, leaving its length unchanged,
    /// and returns the number of bytes obtained.
    fn fill(&mut self, buf: &mut Vec<u8>) -> (r: Result<usize, StreamError>)
        ensures
            final(buf)@.len() == old(buf)@.len(),
            r matches Ok(n) ==> n <= old(buf)@.len(),
    ;
}

/// The write-side handle of a ring buffer.  Exactly one producer should
/// exist per storage instance.
pub struct Producer;

impl Producer {
    /// Creates the write-side handle.
    pub fn new() -> Producer {
        Producer
    }

    /// Capacity of the storage.
    pub fn cap<T>(&self, rb: &SharedRb<T>) -> (r: usize)
        ensures
            r == rb.cap_spec(),
    {
        rb.cap()
    }

    /// Number of occupied slots.
    pub fn count<T>(&self, rb: &SharedRb<T>) -> (r: usize)
        ensures
            r == rb@.len(),
    {
        rb.count()
    }

    /// True exactly when no further element fits.
    pub fn is_full<T>(&self, rb: &SharedRb<T>) -> (r: bool)
        ensures
            r == (rb@.len() == rb.cap_spec()),
    {
        rb.is_full()
    }

    /// True exactly when nothing is buffered.
    pub fn is_empty<T>(&self, rb: &SharedRb<T>) -> (r: bool)
        ensures
            r == (rb@.len() == 0),
    {
        rb.is_empty()
    }

    /// Publishes `count` elements previously written into the vacant
    /// region; see [`SharedRb::advance_head`].
    pub fn advance<T>(&self, rb: &mut SharedRb<T>, count: usize) -> (r: Result<(), String>)
        requires
            old(rb).wf(),
            count <= old(rb).cap_spec() - old(rb)@.len() ==> old(rb).staged_ready(count as int),
        ensures
            final(rb).wf(),
            final(rb).cap_spec() == old(rb).cap_spec(),
            count > old(rb).cap_spec() - old(rb)@.len() ==> r is Err && *final(rb) == *old(rb),
            count <= old(rb).cap_spec() - old(rb)@.len() ==> r is Ok && final(rb)@ == old(rb)@
                + old(rb).staged(count as int),
    {
        rb.advance_head(count)
    }

    /// The index ranges of the writable region; see
    /// [`SharedRb::vacant_range`].
    pub fn vacant_slices<T>(&mut self, rb: &SharedRb<T>) -> (r: (IndexRange, IndexRange))
        requires
            rb.wf(),
        ensures
            r == rb.vacant_range_spec(),
            r.0.wf() && r.1.wf(),
            r.0.len_spec() + r.1.len_spec() == rb.cap_spec() - rb@.len(),
    {
        rb.vacant_range()
    }

    /// Appends `value` if the buffer is not full; otherwise hands the
    /// rejected value back unchanged.
    pub fn push<T>(&mut self, rb: &mut SharedRb<T>, value: T) -> (r: Result<(), T>)
        requires
            old(rb).wf(),
        ensures
            final(rb).wf(),
            final(rb).cap_spec() == old(rb).cap_spec(),
            old(rb)@.len() < old(rb).cap_spec() ==> r is Ok && final(rb)@ == old(rb)@.push(value),
            old(rb)@.len() == old(rb).cap_spec() ==> r == Err::<(), T>(value) && *final(rb) == *old(
                rb,
            ),
    {
        rb.push(value)
    }

    /// Copies as many leading elements of `elems` as fit and publishes
    /// them, returning the copied count: a short write, never an error.
    pub fn push_slice<T: Copy>(&mut self, rb: &mut SharedRb<T>, elems: &[T]) -> (r: usize)
        requires
            old(rb).wf(),
        ensures
            final(rb).wf(),
            final(rb).cap_spec() == old(rb).cap_spec(),
            r as int == if elems@.len() <= old(rb).cap_spec() - old(rb)@.len() {
                elems@.len() as int
            } else {
                old(rb).cap_spec() - old(rb)@.len()
            },
            final(rb)@ == old(rb)@ + elems@.take(r as int),
    {
        rb.push_slice(elems)
    }

    /// Pulls bytes from `source` into the primary vacant range and
    /// publishes however many the source produced, propagating the
    /// source's own failure unchanged.
    pub fn read_from<S: ByteSource>(&mut self, rb: &mut SharedRb<u8>, source: &mut S) -> (r: Result<
        usize,
        StreamError,
    >)
        requires
            old(rb).wf(),
        ensures
            final(rb).wf(),
            final(rb).cap_spec() == old(rb).cap_spec(),
            r matches Ok(n) ==> {
                &&& n <= old(rb).primary_vacant_len()
                &&& final(rb)@.len() == old(rb)@.len() + n
                &&& final(rb)@.take(old(rb)@.len() as int) == old(rb)@
            },
            r is Err ==> *final(rb) == *old(rb),
    {
        let (first, _) = rb.vacant_range();
        let avail = first.len();
        let mut buf: Vec<u8> = Vec::new();
        let mut i: usize = 0;
        while i < avail
            invariant
                i <= avail,
                buf@.len() == i,
            decreases avail - i,
        {
            buf.push(0u8);
            i += 1;
        }
        match source.fill(&mut buf) {
            Err(e) => Err(e),
            Ok(n) => {
                buf.truncate(n);
                let ghost before = *rb;
                let pushed = rb.push_slice(buf.as_slice());
                proof {
                    assert(pushed == n);
                    assert(rb@.take(before@.len() as int) =~= before@);
                }
                Ok(n)
            },
        }
    }
}

} // verus!
