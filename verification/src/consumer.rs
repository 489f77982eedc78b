//! The read-side handle.
//!
//! A [`Consumer`] is the single-reader capability over a [`SharedRb`]: all
//! of its operations advance the tail and shrink the occupied region, so
//! it never disturbs what the producer side is writing.  The storage is
//! passed to each call explicitly; keeping exactly one consumer per
//! storage keeps the single-reader discipline.

use crate::base::{IndexRange, StreamError};
use crate::storage::SharedRb;
use vstd::prelude::*;

verus! {

/// A sink capability: offered a byte region, it reports how many leading
/// bytes it accepted, or a failure of its own.  The core consumes this
/// interface; callers implement it.
pub trait ByteSink {
    /// Attempts to accept a prefix of `data` and returns the number of
    /// bytes taken.
    fn drain(&mut self, data: &[u8]) -> (r: Result<usize, StreamError>)
        ensures
            r matches Ok(n) ==> n <= data@.len(),
    ;
}

/// The read-side handle of a ring buffer.  Exactly one consumer should
/// exist per storage instance.
pub struct Consumer;

impl Consumer {
    /// Creates the read-side handle.
    pub fn new() -> Consumer {
        Consumer
    }

    /// Capacity of the storage.
    pub fn cap<T>(&self, rb: &SharedRb<T>) -> (r: usize)
        ensures
            r == rb.cap_spec(),
    {
        rb.cap()
    }

    /// True exactly when no further element fits.
    pub fn is_full<T>(&self, rb: &SharedRb<T>) -> (r: bool)
        ensures
            r == (rb@.len() == rb.cap_spec()),
    {
        rb.is_full()
    }

    /// True exactly when nothing is buffered.
    pub fn is_empty<T>(&self, rb: &SharedRb<T>) -> (r: bool)
        ensures
            r == (rb@.len() == 0),
    {
        rb.is_empty()
    }

    /// Logically consumes `count` elements; see
    /// [`SharedRb::advance_tail`].
    pub fn advance<T>(&self, rb: &mut SharedRb<T>, count: usize) -> (r: Result<(), String>)
        requires
            old(rb).wf(),
        ensures
            final(rb).wf(),
            final(rb).cap_spec() == old(rb).cap_spec(),
            count > old(rb)@.len() ==> r is Err && *final(rb) == *old(rb),
            count <= old(rb)@.len() ==> r is Ok && final(rb)@ == old(rb)@.skip(count as int),
    {
        rb.advance_tail(count)
    }

    /// The index ranges of the readable region; see
    /// [`SharedRb::occupied_range`].
    pub fn occupied_slices<T>(&self, rb: &SharedRb<T>) -> (r: (IndexRange, IndexRange))
        requires
            rb.wf(),
        ensures
            r == rb.occupied_range_spec(),
            r.0.wf() && r.1.wf(),
            r.0.len_spec() + r.1.len_spec() == rb@.len(),
    {
        rb.occupied_range()
    }

    /// Removes and returns the oldest element, or `None` when the buffer
    /// is empty.
    pub fn pop<T>(&self, rb: &mut SharedRb<T>) -> (r: Option<T>)
        requires
            old(rb).wf(),
        ensures
            final(rb).wf(),
            final(rb).cap_spec() == old(rb).cap_spec(),
            old(rb)@.len() == 0 ==> r is None && *final(rb) == *old(rb),
            old(rb)@.len() > 0 ==> r == Some(old(rb)@[0]) && final(rb)@ == old(rb)@.skip(1),
    {
        rb.pop()
    }

    /// Copies up to `elems.len()` of the oldest elements into the front
    /// of `elems`, consumes them, and returns the copied count.
    pub fn pop_slice<T: Copy>(&self, rb: &mut SharedRb<T>, elems: &mut Vec<T>) -> (r: usize)
        requires
            old(rb).wf(),
        ensures
            final(rb).wf(),
            final(rb).cap_spec() == old(rb).cap_spec(),
            r as int == if old(rb)@.len() <= old(elems)@.len() {
                old(rb)@.len() as int
            } else {
                old(elems)@.len() as int
            },
            final(elems)@.len() == old(elems)@.len(),
            final(elems)@ == old(rb)@.take(r as int) + old(elems)@.skip(r as int),
            final(rb)@ == old(rb)@.skip(r as int),
    {
        rb.pop_slice(elems)
    }

    /// Offers the primary occupied range to `sink` and consumes however
    /// many bytes the sink accepted, propagating the sink's own failure
    /// unchanged.
    pub fn write_into<S: ByteSink>(&self, rb: &mut SharedRb<u8>, sink: &mut S) -> (r: Result<
        usize,
        StreamError,
    >)
        requires
            old(rb).wf(),
        ensures
            final(rb).wf(),
            final(rb).cap_spec() == old(rb).cap_spec(),
            r matches Ok(n) ==> {
                &&& n <= old(rb).primary_occupied_len()
                &&& final(rb)@ == old(rb)@.skip(n as int)
            },
            r is Err ==> *final(rb) == *old(rb),
    {
        let bytes = rb.copy_primary_occupied();
        match sink.drain(bytes.as_slice()) {
            Err(e) => Err(e),
            Ok(n) => {
                let res = rb.advance_tail(n);
                proof {
                    assert(res is Ok);
                }
                Ok(n)
            },
        }
    }
}

} // verus!
