//! A fixed-capacity single-producer/single-consumer ring buffer.
//!
//! The storage engine keeps a backing buffer of `capacity` slots together
//! with a `head` (next write position), a `tail` (next read position) and a
//! `count` of occupied slots.  At every quiescent point the occupied region
//! `[tail, tail + count)` (taken modulo the capacity) holds the buffered
//! elements in arrival order, and the rest of the slots are vacant.
//!
//! The write side only ever advances `head` and grows `count`; the read side
//! only ever advances `tail` and shrinks `count`.  [`producer::Producer`] and
//! [`consumer::Consumer`] are the two role handles that expose exactly one of
//! those disciplines each over a [`storage::SharedRb`].  Each operation runs
//! at a quiescent point of the storage; driving the two handles from two
//! execution contexts at once takes outside synchronization of the storage
//! value itself, which stays out of this core.

pub mod base;
pub mod consumer;
pub mod producer;
pub mod rb;
pub mod storage;
