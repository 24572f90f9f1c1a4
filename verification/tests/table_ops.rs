use typedb::{Table, Value};

#[test]
fn a_new_table_is_empty() {
    let table: Table<String, Value> = Table::new();
    assert_eq!(table.len(), 0);
    assert_eq!(table.get(&"a".to_string()), None);
    assert!(table.keys().is_empty());
}

#[test]
fn insert_then_get() {
    let mut table: Table<String, i32> = Table::new();
    table.insert("a".to_string(), 1);
    table.insert("b".to_string(), 2);
    assert_eq!(table.len(), 2);
    assert_eq!(table.get(&"a".to_string()), Some(1));
    assert_eq!(table.get(&"b".to_string()), Some(2));
    assert_eq!(table.get(&"c".to_string()), None);
}

#[test]
fn insert_replaces() {
    let mut table: Table<String, i32> = Table::new();
    table.insert("a".to_string(), 1);
    table.insert("b".to_string(), 2);
    table.insert("a".to_string(), 3);
    assert_eq!(table.len(), 2);
    assert_eq!(table.get(&"a".to_string()), Some(3));
    assert_eq!(table.get(&"b".to_string()), Some(2));
}

#[test]
fn remove_says_whether_the_key_was_there() {
    let mut table: Table<i32, i32> = Table::new();
    table.insert(1, 10);
    table.insert(2, 20);
    table.insert(3, 30);
    assert!(table.remove(&2));
    assert_eq!(table.len(), 2);
    assert_eq!(table.get(&2), None);
    assert_eq!(table.get(&1), Some(10));
    assert_eq!(table.get(&3), Some(30));
    assert!(!table.remove(&2));
    assert_eq!(table.len(), 2);
}

#[test]
fn keys_lists_each_key_once() {
    let mut table: Table<i32, i32> = Table::new();
    for i in 0..10 {
        table.insert(i, i);
        table.insert(i, i + 1);
    }
    let mut keys = table.keys();
    keys.sort();
    assert_eq!(keys, (0..10).collect::<Vec<i32>>());
}
