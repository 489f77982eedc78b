use spsc_ring::base::StreamError;
use spsc_ring::producer::ByteSource;
use spsc_ring::storage::SharedRb;

/// A byte source backed by an in-memory sequence, handing out its bytes
/// from the front, then reporting zero.
struct SliceSource {
    data: Vec<u8>,
    pos: usize,
}

impl ByteSource for SliceSource {
    fn fill(&mut self, buf: &mut Vec<u8>) -> Result<usize, StreamError> {
        let mut n: usize = 0;
        while n < buf.len() && self.pos < self.data.len() {
            buf[n] = self.data[self.pos];
            n += 1;
            self.pos += 1;
        }
        Ok(n)
    }
}

#[test]
fn test_rb_base() {
    let mut db = SharedRb::<u32>::new(10);
    let (mut pro, con) = db.split();
    let _ = pro.push(&mut db, 34);
    let ele = con.pop(&mut db);
    assert_eq!(34, ele.unwrap())
}

#[test]
fn test_rb_base_empty() {
    let db = SharedRb::<u32>::new(10);
    assert_eq!(db.is_empty(), true);
}

#[test]
fn test_rb_base_full() {
    let mut db = SharedRb::<u32>::new(3);
    let (mut pro, _) = db.split();
    let _ = pro.push(&mut db, 1);
    let _ = pro.push(&mut db, 2);
    let _ = pro.push(&mut db, 3);

    assert_eq!(pro.is_full(&db), true);
}

#[test]
fn test_rb_base_full_push() {
    let mut db = SharedRb::<u32>::new(3);
    let (mut pro, con) = db.split();
    let _ = pro.push(&mut db, 1);
    let _ = pro.push(&mut db, 2);
    let result = pro.push(&mut db, 3);
    assert!(result.is_ok());
    let result = pro.push(&mut db, 4);
    assert!(result.is_err());

    con.pop(&mut db);
    assert!(!pro.is_full(&db));

    let result = pro.push(&mut db, 5);
    assert!(result.is_ok());
}

#[test]
fn test_rb_base_empty_pop() {
    let mut db = SharedRb::<u32>::new(3);
    let (mut pro, con) = db.split();
    let _ = pro.push(&mut db, 1);
    let _ = pro.push(&mut db, 2);

    let result = con.pop(&mut db);
    assert_eq!(1, result.unwrap());
    let result = con.pop(&mut db);
    assert_eq!(2, result.unwrap());

    let result = con.pop(&mut db);
    assert_eq!(None, result);

    let _ = pro.push(&mut db, 3);

    let result = con.pop(&mut db);
    assert_eq!(3, result.unwrap());
}

#[test]
fn test_rb_vacant_range() {
    let mut db = SharedRb::<u8>::new(5);
    let (mut pro, con) = db.split();

    assert_eq!(pro.cap(&db), 5);
    assert_eq!(pro.count(&db), 0);

    assert_eq!(pro.vacant_slices(&db).0.len(), 5);
    assert_eq!(pro.vacant_slices(&db).1.len(), 0);
    assert_eq!(con.occupied_slices(&db).0.len(), 0);
    assert_eq!(con.occupied_slices(&db).1.len(), 0);

    // [tail, head, 0, 0, 0]
    // [1, 5] [0, 0]
    // [0, 1] [0, 0]
    let _ = pro.push(&mut db, 1);
    assert_eq!(pro.vacant_slices(&db).0.len(), 4);
    assert_eq!(pro.vacant_slices(&db).1.len(), 0);
    assert_eq!(con.occupied_slices(&db).0.len(), 1);
    assert_eq!(con.occupied_slices(&db).1.len(), 0);

    // [tail, 0, head, 0, 0]
    // [2, 5] [0, 0]
    // [0,2] [0,0]
    let _ = pro.push(&mut db, 1);
    assert_eq!(pro.vacant_slices(&db).0.len(), 3);
    assert_eq!(pro.vacant_slices(&db).1.len(), 0);
    assert_eq!(con.occupied_slices(&db).0.len(), 2);
    assert_eq!(con.occupied_slices(&db).1.len(), 0);

    // [0, tail, head, 0, 0]
    // [2,5] [0,1]
    // [1,2] [0,0]
    con.pop(&mut db);
    assert_eq!(pro.vacant_slices(&db).0.len(), 3);
    assert_eq!(pro.vacant_slices(&db).1.len(), 1);
    assert_eq!(con.occupied_slices(&db).0.len(), 1);
    assert_eq!(con.occupied_slices(&db).1.len(), 0);

    // [0, 0, head-tail, 0, 0]
    // [2, 5] [0,2]
    // [0,0] [0,0]
    con.pop(&mut db);
    assert_eq!(pro.vacant_slices(&db).0.len(), 3);
    assert_eq!(pro.vacant_slices(&db).1.len(), 2);
    assert_eq!(con.occupied_slices(&db).0.len(), 0);
    assert_eq!(con.occupied_slices(&db).1.len(), 0);

    // [0, 0, tail, head, 0]
    // [3, 5] [0,2]
    // [2, 3] [0,0]
    let _ = pro.push(&mut db, 1);
    assert_eq!(pro.vacant_slices(&db).0.len(), 2);
    assert_eq!(pro.vacant_slices(&db).1.len(), 2);
    assert_eq!(con.occupied_slices(&db).0.len(), 1);
    assert_eq!(con.occupied_slices(&db).1.len(), 0);

    // [0, 0, tail, 0, head]
    // [4, 5] [0,2]
    // [2,4] [0,0]
    let _ = pro.push(&mut db, 1);
    assert_eq!(pro.vacant_slices(&db).0.len(), 1);
    assert_eq!(pro.vacant_slices(&db).1.len(), 2);
    assert_eq!(con.occupied_slices(&db).0.len(), 2);
    assert_eq!(con.occupied_slices(&db).1.len(), 0);

    println!("is_full:{}", pro.is_full(&db));

    // [head, 0, tail, 0, 0]
    // [0, 2] [0, 0]
    // [2, 5]
    let _ = pro.push(&mut db, 1);
    assert_eq!(pro.vacant_slices(&db).0.len(), 2);
    assert_eq!(pro.vacant_slices(&db).1.len(), 0);
    assert_eq!(con.occupied_slices(&db).0.len(), 3);
    assert_eq!(con.occupied_slices(&db).1.len(), 0);
}

#[test]
fn test_rb_slice_op() {
    let mut db = SharedRb::<u8>::new(10);
    let (mut pro, con) = db.split();

    let v1 = vec![0, 1, 2, 3, 4];
    pro.push_slice(&mut db, &v1);

    let mut v2: Vec<u8> = vec![0; 3];
    con.pop_slice(&mut db, &mut v2);

    assert_eq!(vec![0, 1, 2], v2)
}

#[test]
fn test_rb_slice_op2() {
    let mut db = SharedRb::<u8>::new(10);
    let (mut pro, con) = db.split();

    let v1 = vec![0, 1, 2, 3, 4];
    pro.push_slice(&mut db, &v1);

    let mut v2: Vec<u8> = vec![0; 6];
    con.pop_slice(&mut db, &mut v2);

    println!("{:?}", v2)
}

#[test]
fn test_rb_slice_op3() {
    let mut db = SharedRb::<u8>::new(10);
    let (mut pro, con) = db.split();

    let _ = pro.push(&mut db, 1);
    let _ = pro.push(&mut db, 1);
    let _ = pro.push(&mut db, 1);
    let _ = pro.push(&mut db, 1);
    let _ = pro.push(&mut db, 1);
    let _ = pro.push(&mut db, 1);
    let _ = pro.push(&mut db, 1);
    let _ = pro.push(&mut db, 1);

    con.pop(&mut db);
    con.pop(&mut db);
    con.pop(&mut db);
    con.pop(&mut db);
    con.pop(&mut db);
    con.pop(&mut db);
    con.pop(&mut db);
    con.pop(&mut db);

    let v1 = vec![0, 1, 2, 3, 4];
    pro.push_slice(&mut db, &v1);

    let mut v2: Vec<u8> = vec![0; 6];
    con.pop_slice(&mut db, &mut v2);

    println!("{:?}", v2)
}

#[test]
fn test_rb_read_and_write() {
    let mut db = SharedRb::<u8>::new(1024);
    let (mut pro, _con) = db.split();
    let smsg = "The quick brown fox jumps over the lazy dog";
    let mut data = smsg.as_bytes().to_vec();
    data.push(0);
    let mut bytes = SliceSource { data, pos: 0 };
    let n = pro.read_from(&mut db, &mut bytes).unwrap();

    println!("{}", n)
}
