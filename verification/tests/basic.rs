use std::cell::RefCell;

use typedb::{Either, Op, Reply, Request, KV};

/// A backing file held in memory, that never fails.
struct Disk {
    content: RefCell<Vec<u8>>,
}

impl Disk {
    fn new() -> Disk {
        Disk { content: RefCell::new(Vec::new()) }
    }

    fn serve(&self, request: Request) -> Reply {
        match request.op {
            Op::Read => Reply::Data(self.content.borrow().clone()),
            Op::Write => {
                *self.content.borrow_mut() = request.bytes;
                Reply::Done
            }
            _ => Reply::Done,
        }
    }
}

/// A key that is a string or a number.
type MyKey = Either<String, i32>;

/// A value that is a string or a number.
type MyValue = Either<String, i32>;

#[test]
fn test_macro_key() {
    let disk = Disk::new();
    let io = |request: Request| disk.serve(request);
    let mut store = KV::<MyKey, i32>::new(&io).unwrap();

    assert!(store.insert(MyKey::Second(1i32), 10, &io).is_ok());
    assert!(store.insert(MyKey::First("one".to_string()), 11, &io).is_ok());

    assert_eq!(store.get(&MyKey::Second(1i32), &io).unwrap(), Some(10));
    assert_eq!(store.get(&MyKey::First("one".to_string()), &io).unwrap(), Some(11));
    assert_eq!(store.get(&MyKey::Second(2i32), &io).unwrap(), None);
}

#[test]
fn test_macro_value() {
    let disk = Disk::new();
    let io = |request: Request| disk.serve(request);
    let mut store = KV::<MyKey, MyValue>::new(&io).unwrap();

    assert!(store
        .insert(MyKey::Second(1i32), MyValue::First("value".to_string()), &io)
        .is_ok());
    assert_eq!(
        store.get(&MyKey::Second(1i32), &io).unwrap(),
        Some(MyValue::First("value".to_string()))
    );
    assert!(store.insert(MyKey::Second(1i32), MyValue::Second(7), &io).is_ok());
    assert_eq!(store.get(&MyKey::Second(1i32), &io).unwrap(), Some(MyValue::Second(7)));
    assert!(store.remove(&MyKey::Second(1i32), &io).is_ok());
    assert_eq!(store.get(&MyKey::Second(1i32), &io).unwrap(), None);
}

#[test]
fn test_main() {
    let disk = Disk::new();
    let io = |request: Request| disk.serve(request);
    let mut test_store = KV::<String, String>::new(&io).unwrap();

    let _ = test_store.insert("key".to_string(), "value".to_string(), &io);
    let _ = test_store.get(&"key".to_string(), &io);
    let _ = test_store.remove(&"key".to_string(), &io);
}

#[test]
fn db_test_create() {
    let disk = Disk::new();
    let io = |request: Request| disk.serve(request);
    let _ = KV::<String, String>::new(&io);
}

#[test]
fn test_insert() {
    let disk = Disk::new();
    let io = |request: Request| disk.serve(request);
    let mut test_store = KV::<String, String>::new(&io).unwrap();

    let res = test_store.insert("key".to_string(), "value".to_string(), &io);
    assert_eq!(res, Ok(()));
}

#[test]
fn test_get() {
    let disk = Disk::new();
    let io = |request: Request| disk.serve(request);
    let mut test_store = KV::<String, String>::new(&io).unwrap();

    let res = test_store.insert("key".to_string(), "value".to_string(), &io);
    assert_eq!(res, Ok(()));

    assert_eq!(test_store.get(&"key".to_string(), &io), Ok(Some("value".to_string())));
}

#[test]
fn db_test_get_none() {
    let disk = Disk::new();
    let io = |request: Request| disk.serve(request);
    let mut test_store = KV::<String, String>::new(&io).unwrap();

    assert_eq!(test_store.get(&"key".to_string(), &io), Ok(None));
}

#[test]
fn db_test_remove() {
    let disk = Disk::new();
    let io = |request: Request| disk.serve(request);
    let mut test_store = KV::<String, String>::new(&io).unwrap();

    let res = test_store.insert("key".to_string(), "value".to_string(), &io);
    assert_eq!(res, Ok(()));

    let res = test_store.remove(&"key".to_string(), &io);
    assert_eq!(res, Ok(()));
}

#[test]
fn db_test_remove_none() {
    let disk = Disk::new();
    let io = |request: Request| disk.serve(request);
    let mut test_store = KV::<String, String>::new(&io).unwrap();

    let res = test_store.remove(&"key".to_string(), &io);
    assert_eq!(res, Ok(()));
}

#[test]
fn db_test_kv_all() {
    let disk = Disk::new();
    let io = |request: Request| disk.serve(request);
    let mut test_store = KV::<String, String>::new(&io).unwrap();

    let _ = test_store.insert("key".to_string(), "value".to_string(), &io);
    let _ = test_store.get(&"key".to_string(), &io);
    let _ = test_store.remove(&"key".to_string(), &io);
}
