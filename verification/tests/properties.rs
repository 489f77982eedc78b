use spsc_ring::base::StreamError;
use spsc_ring::consumer::ByteSink;
use spsc_ring::producer::ByteSource;
use spsc_ring::rb::Rb;
use spsc_ring::storage::SharedRb;

/// A sink that accepts everything it is offered into an accumulator.
struct VecSink {
    received: Vec<u8>,
}

impl ByteSink for VecSink {
    fn drain(&mut self, data: &[u8]) -> Result<usize, StreamError> {
        self.received.extend_from_slice(data);
        Ok(data.len())
    }
}

/// A source that always fails.
struct FailingSource;

impl ByteSource for FailingSource {
    fn fill(&mut self, _buf: &mut Vec<u8>) -> Result<usize, StreamError> {
        Err(StreamError)
    }
}

/// A sink that always fails.
struct FailingSink;

impl ByteSink for FailingSink {
    fn drain(&mut self, _data: &[u8]) -> Result<usize, StreamError> {
        Err(StreamError)
    }
}

#[test]
fn test_full_rejects_then_pop_reopens() {
    let mut db = SharedRb::<u32>::new(4);
    let (mut pro, con) = db.split();
    for v in 0..4 {
        assert!(pro.push(&mut db, v).is_ok());
    }
    assert!(pro.is_full(&db));
    assert_eq!(pro.push(&mut db, 99), Err(99));
    assert_eq!(con.pop(&mut db), Some(0));
    assert!(!pro.is_full(&db));
    assert!(pro.push(&mut db, 99).is_ok());
    assert!(pro.is_full(&db));
}

#[test]
fn test_slice_round_trip_wraparound() {
    let mut db = SharedRb::<u8>::new(10);
    let (mut pro, con) = db.split();

    let first: Vec<u8> = vec![1, 2, 3, 4, 5, 6, 7, 8];
    assert_eq!(pro.push_slice(&mut db, &first), 8);
    let mut drained: Vec<u8> = vec![0; 8];
    assert_eq!(con.pop_slice(&mut db, &mut drained), 8);
    assert_eq!(drained, first);

    // The head now sits at slot 8 of 10, so these five wrap around.
    let second: Vec<u8> = vec![9, 10, 11, 12, 13];
    assert_eq!(pro.push_slice(&mut db, &second), 5);
    let mut out: Vec<u8> = vec![0; 6];
    assert_eq!(con.pop_slice(&mut db, &mut out), 5);
    assert_eq!(&out[..5], &second[..]);
    assert!(con.is_empty(&db));
}

#[test]
fn test_capacity_one() {
    let mut db = SharedRb::<u64>::new(1);
    let (mut pro, con) = db.split();
    assert!(pro.push(&mut db, 7).is_ok());
    assert!(pro.is_full(&db));
    assert!(!pro.is_empty(&db));
    assert_eq!(con.pop(&mut db), Some(7));
    assert_eq!(con.pop(&mut db), None);
    assert!(con.is_empty(&db));
}

#[test]
fn test_fifo_interleaving() {
    let mut db = SharedRb::<u32>::new(3);
    let (mut pro, con) = db.split();
    assert!(pro.push(&mut db, 1).is_ok());
    assert!(pro.push(&mut db, 2).is_ok());
    assert_eq!(con.pop(&mut db), Some(1));
    assert!(pro.push(&mut db, 3).is_ok());
    assert!(pro.push(&mut db, 4).is_ok());
    assert_eq!(con.pop(&mut db), Some(2));
    assert_eq!(con.pop(&mut db), Some(3));
    assert_eq!(con.pop(&mut db), Some(4));
    assert_eq!(con.pop(&mut db), None);
}

#[test]
fn test_count_stays_clamped() {
    let mut db = SharedRb::<u32>::new(2);
    let (mut pro, con) = db.split();
    assert_eq!(pro.count(&db), 0);
    let _ = con.pop(&mut db);
    assert_eq!(pro.count(&db), 0);
    let _ = pro.push(&mut db, 1);
    assert_eq!(pro.count(&db), 1);
    let _ = pro.push(&mut db, 2);
    assert_eq!(pro.count(&db), 2);
    let _ = pro.push(&mut db, 3);
    assert_eq!(pro.count(&db), 2);
    let _ = con.pop(&mut db);
    assert_eq!(pro.count(&db), 1);
    let _ = con.pop(&mut db);
    let _ = con.pop(&mut db);
    assert_eq!(pro.count(&db), 0);
}

#[test]
fn test_advance_past_occupied_fails() {
    let mut db = SharedRb::<u8>::new(4);
    let (mut pro, con) = db.split();
    let _ = pro.push(&mut db, 1);
    let r = con.advance(&mut db, 2);
    assert!(r.is_err());
    assert_eq!(pro.count(&db), 1);
    assert!(con.advance(&mut db, 1).is_ok());
    assert_eq!(pro.count(&db), 0);
}

#[test]
fn test_advance_past_free_fails() {
    let mut db = SharedRb::<u8>::new(4);
    let (mut pro, _con) = db.split();
    let _ = pro.push_slice(&mut db, &[1, 2, 3]);
    let r = pro.advance(&mut db, 2);
    assert!(r.is_err());
    assert_eq!(pro.count(&db), 3);
}

#[test]
fn test_short_write_on_push_slice() {
    let mut db = SharedRb::<u8>::new(4);
    let (mut pro, con) = db.split();
    let n = pro.push_slice(&mut db, &[1, 2, 3, 4, 5, 6]);
    assert_eq!(n, 4);
    let mut out: Vec<u8> = vec![0; 6];
    assert_eq!(con.pop_slice(&mut db, &mut out), 4);
    assert_eq!(out, vec![1, 2, 3, 4, 0, 0]);
}

#[test]
fn test_write_into_accumulates() {
    let mut db = SharedRb::<u8>::new(8);
    let (mut pro, con) = db.split();
    let _ = pro.push_slice(&mut db, &[10, 20, 30]);
    let mut sink = VecSink { received: Vec::new() };
    let n = con.write_into(&mut db, &mut sink).unwrap();
    assert_eq!(n, 3);
    assert_eq!(sink.received, vec![10, 20, 30]);
    assert!(con.is_empty(&db));
}

#[test]
fn test_source_failure_propagates() {
    let mut db = SharedRb::<u8>::new(8);
    let (mut pro, _con) = db.split();
    let _ = pro.push(&mut db, 1);
    let r = pro.read_from(&mut db, &mut FailingSource);
    assert_eq!(r, Err(StreamError));
    assert_eq!(pro.count(&db), 1);
}

#[test]
fn test_sink_failure_propagates() {
    let mut db = SharedRb::<u8>::new(8);
    let (mut pro, con) = db.split();
    let _ = pro.push(&mut db, 1);
    let r = con.write_into(&mut db, &mut FailingSink);
    assert_eq!(r, Err(StreamError));
    assert_eq!(pro.count(&db), 1);
}

#[test]
fn test_read_from_fills_primary_range() {
    let mut db = SharedRb::<u8>::new(10);
    let (mut pro, con) = db.split();
    let mut src = SeqSource { next: 1, remaining: 100 };
    let n = pro.read_from(&mut db, &mut src).unwrap();
    assert_eq!(n, 10);
    assert_eq!(con.pop(&mut db), Some(1));
    assert_eq!(con.pop(&mut db), Some(2));
}

/// A source producing consecutive bytes, up to a limit.
struct SeqSource {
    next: u8,
    remaining: usize,
}

impl ByteSource for SeqSource {
    fn fill(&mut self, buf: &mut Vec<u8>) -> Result<usize, StreamError> {
        let mut n: usize = 0;
        while n < buf.len() && self.remaining > 0 {
            buf[n] = self.next;
            self.next = self.next.wrapping_add(1);
            self.remaining -= 1;
            n += 1;
        }
        Ok(n)
    }
}

#[test]
fn test_rb_trait_combined_use() {
    let mut db = SharedRb::<u32>::new(3);
    assert!(Rb::push(&mut db, 5).is_ok());
    assert!(Rb::push(&mut db, 6).is_ok());
    assert_eq!(Rb::pop(&mut db), Some(5));
    assert!(Rb::push(&mut db, 7).is_ok());
    let removed = Rb::clear(&mut db);
    assert_eq!(removed, 2);
    assert!(db.is_empty());
    assert_eq!(Rb::pop(&mut db), None);
}

#[test]
fn test_storage_ranges_report_state() {
    let mut db = SharedRb::<u8>::new(6);
    let (mut pro, con) = db.split();
    assert_eq!(db.cap(), 6);
    assert_eq!(db.head(), 0);
    assert_eq!(db.tail(), 0);
    let _ = pro.push_slice(&mut db, &[1, 2, 3, 4]);
    let _ = con.pop(&mut db);
    let _ = con.pop(&mut db);
    assert_eq!(db.head(), 4);
    assert_eq!(db.tail(), 2);
    let occ = db.occupied_range();
    assert_eq!((occ.0.start, occ.0.end), (2, 4));
    assert!(occ.1.is_empty());
    let vac = db.vacant_range();
    assert_eq!((vac.0.start, vac.0.end), (4, 6));
    assert_eq!((vac.1.start, vac.1.end), (0, 2));
    assert_eq!(db.occupied_len(), 2);
    assert_eq!(db.free_len(), 4);
}

#[test]
fn test_interleaved_transfer_preserves_sequence() {
    // One side repeatedly pulls from a message source, the other
    // repeatedly drains into an accumulator, through a buffer much
    // smaller than the message, so the regions wrap around many times.
    let message = "The quick brown fox jumps over the lazy dog".as_bytes().to_vec();
    let mut db = SharedRb::<u8>::new(10);
    let (mut pro, con) = db.split();
    let mut src = ReplaySource { data: message.clone(), pos: 0 };
    let mut sink = VecSink { received: Vec::new() };
    let mut done_reading = false;
    while !done_reading || !con.is_empty(&db) {
        if !pro.is_full(&db) && !done_reading {
            let n = pro.read_from(&mut db, &mut src).unwrap();
            if n == 0 {
                done_reading = true;
            }
        }
        if !con.is_empty(&db) {
            con.write_into(&mut db, &mut sink).unwrap();
        }
    }
    assert_eq!(sink.received, message);
}

/// A byte source backed by an in-memory sequence, handing out its bytes
/// from the front, then reporting zero.
struct ReplaySource {
    data: Vec<u8>,
    pos: usize,
}

impl ByteSource for ReplaySource {
    fn fill(&mut self, buf: &mut Vec<u8>) -> Result<usize, StreamError> {
        let mut n: usize = 0;
        while n < buf.len() && self.pos < self.data.len() {
            buf[n] = self.data[self.pos];
            n += 1;
            self.pos += 1;
        }
        Ok(n)
    }
}
