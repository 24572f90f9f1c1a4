use std::collections::HashMap;

use typedb::codec::appended;
use typedb::{Codec, DecodeFailed, Either, EncodeFailed, Key, Table, Value};

fn bytes_of<T: Codec>(value: &T) -> Vec<u8> {
    let mut out = Vec::new();
    value.encode(&mut out).unwrap();
    out
}

#[test]
fn u64_is_eight_bytes_least_significant_first() {
    assert_eq!(bytes_of(&0x0102030405060708u64), vec![8, 7, 6, 5, 4, 3, 2, 1]);
    assert_eq!(bytes_of(&0u64), vec![0; 8]);
    assert_eq!(bytes_of(&u64::MAX), vec![0xff; 8]);
}

#[test]
fn u32_is_four_bytes_least_significant_first() {
    assert_eq!(bytes_of(&0x01020304u32), vec![4, 3, 2, 1]);
    assert_eq!(bytes_of(&u32::MAX), vec![0xff; 4]);
}

#[test]
fn i32_is_its_bit_pattern() {
    assert_eq!(bytes_of(&1i32), vec![1, 0, 0, 0]);
    assert_eq!(bytes_of(&-2i32), vec![0xfe, 0xff, 0xff, 0xff]);
    assert_eq!(bytes_of(&i32::MIN), vec![0, 0, 0, 0x80]);
}

#[test]
fn string_is_length_then_text() {
    assert_eq!(bytes_of(&"key".to_string()), vec![3, 0, 0, 0, 0, 0, 0, 0, b'k', b'e', b'y']);
    assert_eq!(bytes_of(&String::new()), vec![0; 8]);
    // two bytes of UTF-8 for one character
    assert_eq!(bytes_of(&"é".to_string()), vec![2, 0, 0, 0, 0, 0, 0, 0, 0xc3, 0xa9]);
}

#[test]
fn encode_appends() {
    let mut out = vec![9u8, 9];
    7u32.encode(&mut out).unwrap();
    "a".to_string().encode(&mut out).unwrap();
    assert_eq!(out, vec![9, 9, 7, 0, 0, 0, 1, 0, 0, 0, 0, 0, 0, 0, b'a']);
}

#[test]
fn what_the_serializer_returned_is_taken_in() {
    let mut out = vec![1u8];
    assert_eq!(appended(&mut out, Ok(vec![2, 3])), Ok(()));
    assert_eq!(out, vec![1, 2, 3]);
    assert_eq!(appended(&mut out, Ok(vec![])), Ok(()));
    assert_eq!(out, vec![1, 2, 3]);
    let refused = Err(Box::new(bincode::ErrorKind::SizeLimit));
    assert_eq!(appended(&mut out, refused), Err(EncodeFailed));
    assert_eq!(out, vec![1, 2, 3]);
}

#[test]
fn scalars_are_read_back() {
    assert_eq!(u64::decode(&[8, 7, 6, 5, 4, 3, 2, 1], 0), Some((0x0102030405060708u64, 8)));
    assert_eq!(u32::decode(&[4, 3, 2, 1], 0), Some((0x01020304u32, 4)));
    assert_eq!(i32::decode(&[0xfe, 0xff, 0xff, 0xff], 0), Some((-2i32, 4)));
    assert_eq!(
        String::decode(&[3, 0, 0, 0, 0, 0, 0, 0, b'k', b'e', b'y'], 0),
        Some(("key".to_string(), 11))
    );
}

#[test]
fn decode_starts_where_it_is_told_and_ignores_what_follows() {
    let bytes = [0xaa, 0xbb, 5, 0, 0, 0, 0xcc];
    assert_eq!(u32::decode(&bytes, 2), Some((5u32, 6)));
    let text = [0xaa, 1, 0, 0, 0, 0, 0, 0, 0, b'x', b'y'];
    assert_eq!(String::decode(&text, 1), Some(("x".to_string(), 10)));
}

#[test]
fn short_input_is_refused() {
    assert_eq!(u64::decode(&[1, 2, 3, 4, 5, 6, 7], 0), None);
    assert_eq!(u32::decode(&[1, 2, 3], 0), None);
    assert_eq!(i32::decode(&[], 0), None);
    assert_eq!(u32::decode(&[1, 2, 3, 4], 1), None);
    assert_eq!(u32::decode(&[1, 2, 3, 4], 4), None);
    // there is nothing beyond the end
    assert_eq!(u32::decode(&[1, 2, 3, 4], 5), None);
    assert_eq!(String::decode(&[], 1), None);
    assert_eq!(Value::decode(&[1, 0, 0, 0, 1, 0, 0, 0], 9), None);
    assert_eq!(Either::<i32, i32>::decode(&[0, 0, 0, 0], usize::MAX), None);
    // a length that reaches beyond the end
    assert_eq!(String::decode(&[3, 0, 0, 0, 0, 0, 0, 0, b'k', b'e'], 0), None);
    assert_eq!(String::decode(&[0xff; 8], 0), None);
}

#[test]
fn text_that_is_not_utf8_is_refused() {
    assert_eq!(String::decode(&[1, 0, 0, 0, 0, 0, 0, 0, 0xff], 0), None);
    assert_eq!(String::decode(&[2, 0, 0, 0, 0, 0, 0, 0, 0xc3, 0x28], 0), None);
}

#[test]
fn scalars_agree_with_bincode() {
    assert_eq!(bytes_of(&77u64), bincode::serialize(&77u64).unwrap());
    assert_eq!(bytes_of(&77u32), bincode::serialize(&77u32).unwrap());
    assert_eq!(bytes_of(&-77i32), bincode::serialize(&-77i32).unwrap());
    assert_eq!(
        bytes_of(&"grüße".to_string()),
        bincode::serialize(&"grüße".to_string()).unwrap()
    );
}

#[test]
fn keys_are_told_apart() {
    assert!(1i32.same(&1));
    assert!(!1i32.same(&2));
    assert!("a".to_string().same(&"a".to_string()));
    assert!(!"a".to_string().same(&"b".to_string()));
    assert!(5u64.same(&5));
    assert!(!5u32.same(&6));
}

#[test]
fn value_variants_are_tagged_in_order() {
    assert_eq!(
        bytes_of(&Value::String("a".to_string())),
        vec![0, 0, 0, 0, 1, 0, 0, 0, 0, 0, 0, 0, b'a']
    );
    assert_eq!(bytes_of(&Value::Int(1)), vec![1, 0, 0, 0, 1, 0, 0, 0]);
    assert_eq!(bytes_of(&Value::Float(1.0f32.to_bits())), vec![2, 0, 0, 0, 0, 0, 0x80, 0x3f]);
    assert_eq!(
        bytes_of(&Value::Dict(vec![("k".to_string(), Value::Int(2))])),
        vec![3, 0, 0, 0, 1, 0, 0, 0, 0, 0, 0, 0, 1, 0, 0, 0, 0, 0, 0, 0, b'k', 1, 0, 0, 0, 2, 0, 0, 0]
    );
    assert_eq!(
        bytes_of(&Value::List(vec![Value::Int(3), Value::Int(4)])),
        vec![4, 0, 0, 0, 2, 0, 0, 0, 0, 0, 0, 0, 1, 0, 0, 0, 3, 0, 0, 0, 1, 0, 0, 0, 4, 0, 0, 0]
    );
    assert_eq!(bytes_of(&Value::List(vec![])), vec![4, 0, 0, 0, 0, 0, 0, 0, 0, 0, 0, 0]);
}

#[test]
fn value_agrees_with_bincode_on_the_same_shape() {
    // an enum variant is its index as a u32, then what it holds
    assert_eq!(bytes_of(&Value::Int(-5)), bincode::serialize(&(1u32, -5i32)).unwrap());
    assert_eq!(
        bytes_of(&Value::String("value".to_string())),
        bincode::serialize(&(0u32, "value".to_string())).unwrap()
    );
    assert_eq!(
        bytes_of(&Value::Float(2.5f32.to_bits())),
        bincode::serialize(&(2u32, 2.5f32)).unwrap()
    );
    assert_eq!(
        bytes_of(&Value::List(vec![Value::Int(1), Value::Int(2)])),
        bincode::serialize(&(4u32, vec![(1u32, 1i32), (1u32, 2i32)])).unwrap()
    );
    let mut map = HashMap::new();
    map.insert("k".to_string(), (1u32, 9i32));
    assert_eq!(
        bytes_of(&Value::Dict(vec![("k".to_string(), Value::Int(9))])),
        bincode::serialize(&(3u32, map)).unwrap()
    );
}

fn nested() -> Value {
    Value::List(vec![
        Value::Dict(vec![
            ("name".to_string(), Value::String("x".to_string())),
            ("tags".to_string(), Value::List(vec![Value::Int(1), Value::Float(7)])),
        ]),
        Value::List(vec![Value::List(vec![Value::List(vec![])])]),
        Value::Int(i32::MIN),
    ])
}

#[test]
fn value_round_trip() {
    let value = nested();
    let bytes = bytes_of(&value);
    assert_eq!(Value::decode(&bytes, 0), Some((value, bytes.len())));
}

#[test]
fn value_round_trip_with_bytes_around() {
    let value = nested();
    let mut bytes = vec![1u8, 2, 3];
    value.encode(&mut bytes).unwrap();
    let end = bytes.len();
    bytes.extend_from_slice(&[4, 5, 6]);
    assert_eq!(Value::read_from(&bytes, 3), Some((value, end)));
}

#[test]
fn value_with_unknown_tag_is_refused() {
    assert_eq!(Value::decode(&[5, 0, 0, 0, 1, 0, 0, 0], 0), None);
    assert_eq!(Value::decode(&[0xff, 0xff, 0xff, 0xff, 0, 0, 0, 0], 0), None);
}

#[test]
fn value_cut_short_is_refused() {
    let bytes = bytes_of(&nested());
    for cut in 0..bytes.len() {
        assert_eq!(Value::decode(&bytes[..cut], 0), None, "cut at {}", cut);
    }
}

#[test]
fn list_that_promises_more_than_it_holds_is_refused() {
    // a list of three with two values
    let bytes = [4, 0, 0, 0, 3, 0, 0, 0, 0, 0, 0, 0, 1, 0, 0, 0, 3, 0, 0, 0, 1, 0, 0, 0, 4, 0, 0, 0];
    assert_eq!(Value::decode(&bytes, 0), None);
    // a list of very many with none
    let many = [4, 0, 0, 0, 0xff, 0xff, 0xff, 0xff, 0xff, 0xff, 0xff, 0xff];
    assert_eq!(Value::decode(&many, 0), None);
}

#[test]
fn value_copies_are_equal() {
    let value = nested();
    assert_eq!(value.copy(), value);
    assert_eq!(value.clone(), value);
    assert_eq!(value.duplicate(), value);
}

#[test]
fn either_is_tag_then_content() {
    let first: Either<String, i32> = Either::First("a".to_string());
    let second: Either<String, i32> = Either::Second(-1);
    assert_eq!(bytes_of(&first), vec![0, 0, 0, 0, 1, 0, 0, 0, 0, 0, 0, 0, b'a']);
    assert_eq!(bytes_of(&second), vec![1, 0, 0, 0, 0xff, 0xff, 0xff, 0xff]);
    assert_eq!(Either::<String, i32>::decode(&bytes_of(&first), 0), Some((first, 13)));
    assert_eq!(Either::<String, i32>::decode(&bytes_of(&second), 0), Some((second, 8)));
    assert_eq!(Either::<String, i32>::decode(&[2, 0, 0, 0, 0, 0, 0, 0], 0), None);
}

#[test]
fn either_keys_are_told_apart() {
    let a: Either<String, i32> = Either::First("1".to_string());
    let b: Either<String, i32> = Either::Second(1);
    assert!(a.same(&Either::First("1".to_string())));
    assert!(!a.same(&b));
    assert!(b.same(&Either::Second(1)));
    assert!(!b.same(&Either::Second(2)));
    assert_eq!(a.duplicate(), a);
}

#[test]
fn snapshot_is_count_then_entries() {
    let mut table: Table<String, i32> = Table::new();
    assert_eq!(table.encode().unwrap(), vec![0; 8]);
    table.insert("a".to_string(), 1);
    table.insert("b".to_string(), 2);
    assert_eq!(
        table.encode().unwrap(),
        vec![
            2, 0, 0, 0, 0, 0, 0, 0, //
            1, 0, 0, 0, 0, 0, 0, 0, b'a', 1, 0, 0, 0, //
            1, 0, 0, 0, 0, 0, 0, 0, b'b', 2, 0, 0, 0,
        ]
    );
}

#[test]
fn snapshot_agrees_with_bincode() {
    let mut table: Table<String, Value> = Table::new();
    table.insert("key".to_string(), Value::Int(5));
    let mut map = HashMap::new();
    map.insert("key".to_string(), (1u32, 5i32));
    assert_eq!(table.encode().unwrap(), bincode::serialize(&map).unwrap());

    let mut numbers: Table<i32, String> = Table::new();
    numbers.insert(-3, "minus three".to_string());
    let mut same = HashMap::new();
    same.insert(-3i32, "minus three".to_string());
    assert_eq!(numbers.encode().unwrap(), bincode::serialize(&same).unwrap());
}

#[test]
fn snapshot_written_by_bincode_is_read() {
    let mut map = HashMap::new();
    for i in 0..20i32 {
        map.insert(format!("key{}", i), i * 3);
    }
    let bytes = bincode::serialize(&map).unwrap();
    let table = Table::<String, i32>::decode(&bytes).unwrap();
    assert_eq!(table.len(), 20);
    for i in 0..20i32 {
        assert_eq!(table.get(&format!("key{}", i)), Some(i * 3));
    }
    let back: HashMap<String, i32> = bincode::deserialize(&table.encode().unwrap()).unwrap();
    assert_eq!(back, map);
}

#[test]
fn snapshot_round_trip() {
    let mut table: Table<String, Value> = Table::new();
    table.insert("one".to_string(), nested());
    table.insert("two".to_string(), Value::String("2".to_string()));
    table.insert("".to_string(), Value::List(vec![]));
    let bytes = table.encode().unwrap();
    let back = Table::<String, Value>::decode(&bytes).unwrap();
    assert_eq!(back.len(), 3);
    assert_eq!(back.get(&"one".to_string()), Some(nested()));
    assert_eq!(back.get(&"two".to_string()), Some(Value::String("2".to_string())));
    assert_eq!(back.get(&"".to_string()), Some(Value::List(vec![])));
    assert_eq!(back.encode().unwrap(), bytes);
}

#[test]
fn no_bytes_are_the_empty_table() {
    let table = Table::<String, Value>::decode(&[]).unwrap();
    assert_eq!(table.len(), 0);
    assert_eq!(table.keys(), Vec::<String>::new());
}

#[test]
fn bytes_that_are_no_snapshot_are_refused() {
    assert_eq!(Table::<String, Value>::decode(&[1]).err(), Some(DecodeFailed));
    assert_eq!(Table::<String, Value>::decode(b"garbage!garbage!").err(), Some(DecodeFailed));
    // one entry promised, none there
    assert_eq!(Table::<String, i32>::decode(&[1, 0, 0, 0, 0, 0, 0, 0]).err(), Some(DecodeFailed));
}

#[test]
fn snapshot_of_another_key_type_is_refused() {
    let mut table: Table<String, Value> = Table::new();
    table.insert("key".to_string(), Value::String("value".to_string()));
    let bytes = table.encode().unwrap();
    assert!(Table::<i32, Value>::decode(&bytes).is_err());
}

#[test]
fn bytes_behind_a_snapshot_are_ignored() {
    let mut table: Table<i32, i32> = Table::new();
    table.insert(1, 2);
    let mut bytes = table.encode().unwrap();
    bytes.extend_from_slice(&[0xde, 0xad]);
    let back = Table::<i32, i32>::decode(&bytes).unwrap();
    assert_eq!(back.len(), 1);
    assert_eq!(back.get(&1), Some(2));
}

#[test]
fn a_key_laid_out_twice_keeps_its_last_value() {
    let bytes = [
        2, 0, 0, 0, 0, 0, 0, 0, //
        7, 0, 0, 0, 1, 0, 0, 0, //
        7, 0, 0, 0, 2, 0, 0, 0,
    ];
    let table = Table::<i32, i32>::decode(&bytes).unwrap();
    assert_eq!(table.len(), 1);
    assert_eq!(table.get(&7), Some(2));
}
