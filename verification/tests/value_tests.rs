use redis_lite::value::{RedisBulkString, RedisValue};

#[test]
fn value_test_redis_value_to_string() {
    let s1: Vec<u8> = RedisValue::bulk_string("abcde").to_bytes();
    assert_eq!(b"$5\r\nabcde\r\n", s1.as_slice());
}

#[test]
fn value_test_redis_value_to_string2() {
    let s1: Vec<u8> = RedisValue::bulk_string("abcde").to_bytes();
    assert_eq!(b"$5\r\nabcde\r\n", s1.as_slice());
}

#[test]
fn serialize_simple_string() {
    assert_eq!(
        b"+PONG\r\n",
        RedisValue::simple_string("PONG").to_bytes().as_slice()
    );
}

#[test]
fn serialize_null_bulk_string() {
    assert_eq!(b"$-1\r\n", RedisValue::null_bulk_string().to_bytes().as_slice());
}

#[test]
fn serialize_integer() {
    assert_eq!(b":0\r\n", RedisValue::Integer(0).to_bytes().as_slice());
    assert_eq!(b":1\r\n", RedisValue::Integer(1).to_bytes().as_slice());
    assert_eq!(b":1024\r\n", RedisValue::Integer(1024).to_bytes().as_slice());
    assert_eq!(
        b":18446744073709551615\r\n",
        RedisValue::Integer(u64::MAX).to_bytes().as_slice()
    );
}

#[test]
fn serialize_array_concatenates_children_in_order() {
    let v = RedisValue::Array(vec![
        RedisValue::bulk_string("hello"),
        RedisValue::bulk_string("world"),
    ]);
    assert_eq!(b"*2\r\n$5\r\nhello\r\n$5\r\nworld\r\n", v.to_bytes().as_slice());
}

#[test]
fn serialize_empty_array() {
    let v = RedisValue::Array(vec![]);
    assert_eq!(b"*0\r\n", v.to_bytes().as_slice());
}

#[test]
fn serialize_snapshot_has_no_trailing_crlf() {
    let v = RedisValue::Rdb(b"BLOB".to_vec());
    assert_eq!(b"$4\r\nBLOB", v.to_bytes().as_slice());
}

#[test]
fn serialize_bulk_string_from_bytes() {
    let v = RedisValue::bulk_string_from_bytes(&[0, 13, 10, 255]);
    assert_eq!(b"$4\r\n\x00\r\n\xff\r\n", v.to_bytes().as_slice());
}

#[test]
fn simple_string_from_bytes_keeps_the_bytes() {
    let v = RedisValue::simple_string_from_bytes(b"HAPPY");
    assert_eq!(RedisValue::SimpleString(b"HAPPY".to_vec()), v);
}

#[test]
fn duplicate_preserves_the_value() {
    let v = RedisValue::Array(vec![
        RedisValue::BulkString(Some(RedisBulkString { data: b"x".to_vec() })),
        RedisValue::Integer(7),
        RedisValue::null_bulk_string(),
    ]);
    assert_eq!(v, v.duplicate());
}
