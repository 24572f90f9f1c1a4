use std::cell::RefCell;

use typedb::{Op, Reply, Request, Value, KV};

/// A backing file held in memory, that never fails.
struct Disk {
    content: RefCell<Vec<u8>>,
}

impl Disk {
    fn new() -> Disk {
        Disk { content: RefCell::new(Vec::new()) }
    }

    fn serve(&self, request: Request) -> Reply {
        match request.op {
            Op::Read => Reply::Data(self.content.borrow().clone()),
            Op::Write => {
                *self.content.borrow_mut() = request.bytes;
                Reply::Done
            }
            _ => Reply::Done,
        }
    }
}

#[test]
fn tests_test_create() {
    let disk = Disk::new();
    let io = |request: Request| disk.serve(request);

    assert!(KV::<String, Value>::new(&io).is_ok());
}

#[test]
fn test_create_wrong_type() {
    let disk = Disk::new();
    let io = |request: Request| disk.serve(request);

    let mut test_store = KV::<String, Value>::new(&io).unwrap();
    assert!(test_store
        .insert("key".to_string(), Value::String("value".to_string()), &io)
        .is_ok());

    assert!(KV::<i32, Value>::new(&io).is_err());
}

#[test]
fn test_insert_string() {
    let disk = Disk::new();
    let io = |request: Request| disk.serve(request);
    let mut test_store = KV::<String, Value>::new(&io).unwrap();

    assert!(test_store
        .insert("key".to_string(), Value::String("value".to_string()), &io)
        .is_ok());
}

#[test]
fn test_insert_int() {
    let disk = Disk::new();
    let io = |request: Request| disk.serve(request);
    let mut test_store = KV::<String, Value>::new(&io).unwrap();

    assert!(test_store.insert("key".to_string(), Value::Int(0i32), &io).is_ok());
}

#[test]
fn test_insert_float() {
    let disk = Disk::new();
    let io = |request: Request| disk.serve(request);
    let mut test_store = KV::<String, Value>::new(&io).unwrap();

    assert!(test_store
        .insert("key".to_string(), Value::Float(0f32.to_bits()), &io)
        .is_ok());
}

#[test]
fn test_get_string() {
    let disk = Disk::new();
    let io = |request: Request| disk.serve(request);
    let mut test_store = KV::<String, Value>::new(&io).unwrap();

    assert!(test_store
        .insert("key".to_string(), Value::String("value".to_string()), &io)
        .is_ok());

    assert_eq!(
        test_store.get(&"key".to_string(), &io).unwrap(),
        Some(Value::String("value".to_string()))
    );
}

#[test]
fn test_get_int() {
    let disk = Disk::new();
    let io = |request: Request| disk.serve(request);
    let mut test_store = KV::<String, Value>::new(&io).unwrap();

    assert!(test_store.insert("key".to_string(), Value::Int(0i32), &io).is_ok());

    assert_eq!(test_store.get(&"key".to_string(), &io).unwrap(), Some(Value::Int(0i32)));
}

#[test]
fn test_get_float() {
    let disk = Disk::new();
    let io = |request: Request| disk.serve(request);
    let mut test_store = KV::<String, Value>::new(&io).unwrap();

    assert!(test_store
        .insert("key".to_string(), Value::Float(0f32.to_bits()), &io)
        .is_ok());

    assert_eq!(
        test_store.get(&"key".to_string(), &io).unwrap(),
        Some(Value::Float(0f32.to_bits()))
    );
}

#[test]
fn tests_test_get_none() {
    let disk = Disk::new();
    let io = |request: Request| disk.serve(request);
    let mut test_store = KV::<String, Value>::new(&io).unwrap();

    assert_eq!(test_store.get(&"none".to_string(), &io).unwrap(), None);
}

#[test]
fn tests_test_remove() {
    let disk = Disk::new();
    let io = |request: Request| disk.serve(request);
    let mut test_store = KV::<String, Value>::new(&io).unwrap();

    assert!(test_store
        .insert("key".to_string(), Value::String("value".to_string()), &io)
        .is_ok());

    assert!(test_store.remove(&"key".to_string(), &io).is_ok());
}

#[test]
fn tests_test_remove_none() {
    let disk = Disk::new();
    let io = |request: Request| disk.serve(request);
    let mut test_store = KV::<String, Value>::new(&io).unwrap();

    assert!(test_store.remove(&"key".to_string(), &io).is_ok());
}

#[test]
fn test_keys() {
    let disk = Disk::new();
    let io = |request: Request| disk.serve(request);
    let mut test_store = KV::<String, Value>::new(&io).unwrap();

    assert!(test_store
        .insert("key".to_string(), Value::String("value".to_string()), &io)
        .is_ok());
    assert!(test_store
        .insert("key2".to_string(), Value::String("value2".to_string()), &io)
        .is_ok());

    assert!(test_store.get(&"key".to_string(), &io).unwrap().is_some());
    assert!(test_store.get(&"key2".to_string(), &io).unwrap().is_some());

    assert_eq!(test_store.keys(&io).unwrap().len(), 2);
    assert!(test_store.remove(&"key".to_string(), &io).is_ok());
    assert_eq!(test_store.keys(&io).unwrap().len(), 1);
    assert!(test_store.remove(&"key2".to_string(), &io).is_ok());
    assert_eq!(test_store.keys(&io).unwrap().len(), 0);
}

#[test]
fn tests_test_kv_all() {
    let disk = Disk::new();
    let io = |request: Request| disk.serve(request);
    let mut test_store = KV::<String, Value>::new(&io).unwrap();

    assert!(test_store
        .insert("key".to_string(), Value::String("value".to_string()), &io)
        .is_ok());
    assert!(test_store.get(&"key".to_string(), &io).unwrap().is_some());
    assert!(test_store.remove(&"key".to_string(), &io).is_ok());
}

#[test]
fn test_multi_instance() {
    let disk = Disk::new();
    let io = |request: Request| disk.serve(request);

    {
        let mut test_store = KV::<String, Value>::new(&io).unwrap();
        assert!(test_store
            .insert("key".to_string(), Value::String("value".to_string()), &io)
            .is_ok());
    }
    {
        let mut test_store = KV::<String, Value>::new(&io).unwrap();
        assert_eq!(
            test_store.get(&"key".to_string(), &io).unwrap(),
            Some(Value::String("value".to_string()))
        );
        assert!(test_store.remove(&"key".to_string(), &io).is_ok());
    }
}
