use std::cell::{Cell, RefCell};

use typedb::{Answer, Op, Progress, Reply, Request, Table, Task, Value, KV};

/// A file in memory with advisory locks, shared by several handles. It
/// grants locks as a file system does, and panics when a handle touches the
/// content without the lock that covers it. A write leaves the file torn
/// until it is flushed.
struct SharedFile {
    content: RefCell<Vec<u8>>,
    torn: Cell<bool>,
    shared: RefCell<Vec<usize>>,
    exclusive: Cell<Option<usize>>,
    pending: RefCell<Vec<u8>>,
}

impl SharedFile {
    fn new() -> SharedFile {
        SharedFile {
            content: RefCell::new(Vec::new()),
            torn: Cell::new(false),
            shared: RefCell::new(Vec::new()),
            exclusive: Cell::new(None),
            pending: RefCell::new(Vec::new()),
        }
    }

    fn holds_any(&self, who: usize) -> bool {
        self.exclusive.get() == Some(who) || self.shared.borrow().contains(&who)
    }

    fn release(&self, who: usize) {
        self.shared.borrow_mut().retain(|h| *h != who);
        if self.exclusive.get() == Some(who) {
            self.exclusive.set(None);
        }
    }

    fn serve(&self, who: usize, request: Request) -> Reply {
        match request.op {
            Op::Open | Op::Pause => Reply::Done,
            Op::LockShared => match self.exclusive.get() {
                Some(other) if other != who => Reply::Failed,
                _ => {
                    self.release(who);
                    self.shared.borrow_mut().push(who);
                    Reply::Done
                }
            },
            Op::LockExclusive => {
                let others = self.shared.borrow().iter().any(|h| *h != who)
                    || matches!(self.exclusive.get(), Some(other) if other != who);
                if others {
                    self.release(who);
                    Reply::Failed
                } else {
                    self.release(who);
                    self.exclusive.set(Some(who));
                    Reply::Done
                }
            }
            Op::Unlock => {
                self.release(who);
                Reply::Done
            }
            Op::Seek => {
                assert!(self.holds_any(who), "seek without a lock");
                Reply::Done
            }
            Op::Read => {
                assert!(self.holds_any(who), "read without a lock");
                assert!(!self.torn.get(), "read of a torn file");
                Reply::Data(self.content.borrow().clone())
            }
            Op::Write => {
                assert_eq!(self.exclusive.get(), Some(who), "write without the exclusive lock");
                let half = request.bytes.len() / 2;
                *self.content.borrow_mut() = request.bytes[..half].to_vec();
                *self.pending.borrow_mut() = request.bytes;
                self.torn.set(true);
                Reply::Done
            }
            Op::Flush => {
                assert_eq!(self.exclusive.get(), Some(who), "flush without the exclusive lock");
                *self.content.borrow_mut() = self.pending.borrow().clone();
                self.torn.set(false);
                Reply::Done
            }
        }
    }
}

#[test]
fn scenario_insert_keys_remove_get() {
    let file = SharedFile::new();
    let io = |request: Request| file.serve(0, request);
    let mut store = KV::<String, Value>::new(&io).unwrap();

    store.insert("a".to_string(), Value::Int(1), &io).unwrap();
    store.insert("b".to_string(), Value::Int(2), &io).unwrap();
    let mut keys = store.keys(&io).unwrap();
    keys.sort();
    assert_eq!(keys, vec!["a".to_string(), "b".to_string()]);

    store.remove(&"a".to_string(), &io).unwrap();
    assert_eq!(store.keys(&io).unwrap(), vec!["b".to_string()]);
    assert_eq!(store.get(&"a".to_string(), &io).unwrap(), None);
    assert_eq!(store.get(&"b".to_string(), &io).unwrap(), Some(Value::Int(2)));
}

#[test]
fn removing_what_is_not_there_changes_nothing() {
    let file = SharedFile::new();
    let io = |request: Request| file.serve(0, request);
    let mut store = KV::<String, i32>::new(&io).unwrap();
    store.insert("a".to_string(), 1, &io).unwrap();
    let before = file.content.borrow().clone();

    assert_eq!(store.remove(&"b".to_string(), &io), Ok(()));
    assert_eq!(*file.content.borrow(), before);
    assert_eq!(store.keys(&io).unwrap(), vec!["a".to_string()]);
    assert_eq!(store.remove(&"b".to_string(), &io), Ok(()));
    assert_eq!(*file.content.borrow(), before);
}

#[test]
fn a_store_reads_its_own_writes() {
    let file = SharedFile::new();
    let io = |request: Request| file.serve(0, request);
    let mut store = KV::<i32, Value>::new(&io).unwrap();
    for i in 0..50 {
        store.insert(i, Value::Int(i), &io).unwrap();
        assert_eq!(store.get(&i, &io).unwrap(), Some(Value::Int(i)));
    }
    store.insert(7, Value::String("seven".to_string()), &io).unwrap();
    assert_eq!(store.get(&7, &io).unwrap(), Some(Value::String("seven".to_string())));
    assert_eq!(store.keys(&io).unwrap().len(), 50);
}

#[test]
fn what_one_handle_writes_the_next_one_sees() {
    let file = SharedFile::new();
    {
        let io = |request: Request| file.serve(1, request);
        let mut writer = KV::<String, Value>::new(&io).unwrap();
        writer.insert("key".to_string(), Value::String("value".to_string()), &io).unwrap();
    }
    {
        let io = |request: Request| file.serve(2, request);
        let mut reader = KV::<String, Value>::new(&io).unwrap();
        assert_eq!(
            reader.get(&"key".to_string(), &io).unwrap(),
            Some(Value::String("value".to_string()))
        );
    }
}

#[test]
fn an_empty_file_opens_and_garbage_does_not() {
    let file = SharedFile::new();
    let io = |request: Request| file.serve(0, request);
    let mut store = KV::<String, Value>::new(&io).unwrap();
    assert_eq!(store.cached().len(), 0);
    assert_eq!(store.keys(&io).unwrap(), Vec::<String>::new());

    *file.content.borrow_mut() = vec![0x42; 5];
    assert!(KV::<String, Value>::new(&io).is_err());
    assert!(store.keys(&io).is_err());
}

#[test]
fn test_multithread_instance() {
    let file = SharedFile::new();
    let first = |request: Request| file.serve(1, request);
    let second = |request: Request| file.serve(2, request);
    let mut one = KV::<String, Value>::new(&first).unwrap();
    let mut two = KV::<String, Value>::new(&second).unwrap();

    assert!(one.insert("key".to_string(), Value::String("value".to_string()), &first).is_ok());

    assert!(two.get(&"key".to_string(), &second).unwrap().is_some());
    assert!(two.remove(&"key".to_string(), &second).is_ok());
}

#[test]
fn test_multithread_instance_read_between() {
    let file = SharedFile::new();
    let first = |request: Request| file.serve(1, request);
    let second = |request: Request| file.serve(2, request);
    let mut one = KV::<String, Value>::new(&first).unwrap();
    let mut two = KV::<String, Value>::new(&second).unwrap();

    assert!(one.insert("key".to_string(), Value::String("value".to_string()), &first).is_ok());

    assert_eq!(
        two.get(&"key".to_string(), &second).unwrap().unwrap(),
        Value::String("value".to_string())
    );
    assert!(two.remove(&"key".to_string(), &second).is_ok());
    assert_eq!(one.get(&"key".to_string(), &first).unwrap(), None);
}

#[test]
fn test_multithread_instance_insert() {
    let file = SharedFile::new();
    let first = |request: Request| file.serve(1, request);
    let second = |request: Request| file.serve(2, request);
    let mut one = KV::<i32, Value>::new(&first).unwrap();
    let mut two = KV::<i32, Value>::new(&second).unwrap();

    for i in 0..100 {
        assert!(one.insert(i, Value::Int(i), &first).is_ok());
        assert!(one.get(&i, &first).unwrap().is_some());
        let j = i + 100;
        assert!(two.insert(j, Value::Int(j), &second).is_ok());
        assert!(two.get(&j, &second).unwrap().is_some());
    }
    assert_eq!(one.keys(&first).unwrap().len(), 200);
}

#[test]
fn test_multithread_many_instance_insert() {
    let file = SharedFile::new();
    let shared = &file;
    let ios: Vec<Box<dyn Fn(Request) -> Reply + '_>> = (0..4)
        .map(|who| {
            Box::new(move |request: Request| shared.serve(who, request))
                as Box<dyn Fn(Request) -> Reply + '_>
        })
        .collect();
    let mut stores: Vec<KV<i32, Value>> =
        ios.iter().map(|io| KV::<i32, Value>::new(io).unwrap()).collect();

    for step in 0..100 {
        for (who, store) in stores.iter_mut().enumerate() {
            let i = step + if who < 2 { 0 } else { 100 };
            assert!(store.insert(i, Value::Int(i), &ios[who]).is_ok());
        }
    }

    let mut sorted_keys = stores[0].keys(&ios[0]).unwrap();
    sorted_keys.sort();
    println!("key_count:{}\nkeys:{:?}", sorted_keys.len(), sorted_keys);

    for i in 0..20 {
        assert_eq!(stores[0].get(&i, &ios[0]).unwrap(), Some(Value::Int(i)));
    }
}

/// Runs two inserts of different keys on two handles, a step of one or the
/// other at a time as `pick` says, and gives the keys that the file holds in
/// the end.
fn race(mut pick: impl FnMut() -> bool) -> Vec<i32> {
    let file = SharedFile::new();
    let mut stores: Vec<KV<i32, i32>> = vec![KV::with_limit(10), KV::with_limit(10)];
    let mut due: Vec<Option<Request>> =
        vec![Some(stores[0].begin(Task::Insert(1, 10))), Some(stores[1].begin(Task::Insert(2, 20)))];
    while due[0].is_some() || due[1].is_some() {
        let mut who = if pick() { 0 } else { 1 };
        if due[who].is_none() {
            who = 1 - who;
        }
        let request = due[who].take().unwrap();
        match stores[who].advance(file.serve(who, request)) {
            Progress::Next(next) => due[who] = Some(next),
            Progress::Finished(result) => {
                assert!(matches!(result, Ok(Answer::Nothing)), "handle {} failed", who);
            }
        }
    }
    assert!(!file.torn.get());
    assert!(file.shared.borrow().is_empty());
    assert_eq!(file.exclusive.get(), None);

    // a third handle loads what the two have left
    let io = |request: Request| file.serve(3, request);
    let mut third = KV::<i32, i32>::new(&io).unwrap();
    let keys = third.keys(&io).unwrap();
    let table = Table::<i32, i32>::decode(&file.content.borrow()).unwrap();
    assert_eq!(table.len(), keys.len());
    keys
}

#[test]
fn two_writers_at_once_leave_a_whole_snapshot() {
    let mut seed: u32 = 12345;
    for _ in 0..500 {
        let keys = race(|| {
            seed = seed.wrapping_mul(1664525).wrapping_add(1013904223);
            (seed >> 16) & 1 == 0
        });
        assert!(keys.contains(&1) || keys.contains(&2));
        assert!(keys.iter().all(|k| *k == 1 || *k == 2));
    }
}

#[test]
fn one_writer_after_the_other_loses_nothing() {
    let mut turn = 0;
    // the first handle runs to its end before the second makes a step
    let mut keys = race(|| {
        turn += 1;
        turn <= 9
    });
    keys.sort();
    assert_eq!(keys, vec![1, 2]);
}

#[test]
fn the_last_writer_wins() {
    // both load before either stores: the second store replaces the first
    let mut turn = 0;
    let keys = race(|| {
        turn += 1;
        // four steps of the first handle, then the whole second, then the rest of the first
        turn <= 4
    });
    assert_eq!(keys, vec![1]);
}
