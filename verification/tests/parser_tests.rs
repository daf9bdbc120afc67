use redis_lite::parser::{MessageParserStateError, RedisValueParser};
use redis_lite::value::RedisValue;

#[test]
fn test_parser_bulk_string() {
    let input = "$5\r\n12345\r\n$3\r\nxyz\r\n$5\r\nabcde\r\n".as_bytes();
    let mut parser = RedisValueParser::new();

    parser.append(input);
    let (values, _t) = parser.parse().unwrap();
    assert_eq!(RedisValue::bulk_string("12345"), values.unwrap());

    let (values, _t) = parser.parse().unwrap();
    assert_eq!(RedisValue::bulk_string("xyz"), values.unwrap());

    let (values, _t) = parser.parse().unwrap();
    assert_eq!(RedisValue::bulk_string("abcde"), values.unwrap());

    assert!(parser.parse().unwrap().0.is_none());
}

#[test]
fn test_parse_array() {
    let input = "*2\r\n$5\r\nhello\r\n$5\r\nworld\r\n$5\r\na".as_bytes();
    let mut parser = RedisValueParser::new();
    parser.append(input);

    let (values, _) = parser.parse().unwrap();

    match values {
        Some(RedisValue::Array(s)) => {
            assert_eq!(2, s.len());
            assert_eq!(RedisValue::bulk_string("hello"), s[0]);
            assert_eq!(RedisValue::bulk_string("world"), s[1]);
        }
        _ => {
            panic!();
        }
    }

    let (values, _t) = parser.parse().unwrap();
    assert_eq!(None, values);

    parser.append("bcde\r\n".as_bytes());
    let (values, _t) = parser.parse().unwrap();
    assert_eq!(Some(RedisValue::bulk_string("abcde")), values);
}

#[test]
fn test_parse_empty_array() {
    let input = "*0\r\n".as_bytes();
    let mut parser = RedisValueParser::new();
    parser.append(input);
    let (value, t) = parser.parse().unwrap();
    assert_eq!(Some(RedisValue::Array(vec![])), value);
    assert_eq!(4, t);
}

#[test]
fn test_parse_simple_string() {
    let input = "+HAPPY\r\n".as_bytes();
    let mut parser = RedisValueParser::new();
    parser.append(input);
    let (value, _t) = parser.parse().unwrap();
    assert_eq!(Some(RedisValue::SimpleString("HAPPY".into())), value);
}

#[test]
fn parse_on_empty_buffer_is_not_an_error() {
    let mut parser = RedisValueParser::new();
    assert_eq!(Ok((None, 0)), parser.parse());
    assert_eq!(0, parser.buffer_len());
}

#[test]
fn parse_after_appending_nothing_repeats_the_outcome() {
    let mut parser = RedisValueParser::new();
    parser.append("$5\r\nab".as_bytes());
    let first = parser.parse();
    assert_eq!(Ok((None, 0)), first);
    parser.append(&[]);
    let second = parser.parse();
    assert_eq!(first, second);
    assert_eq!(6, parser.buffer_len());
}

#[test]
fn parse_consumes_exactly_one_frame() {
    let mut parser = RedisValueParser::new();
    parser.append("+OK\r\n+LATER\r\n".as_bytes());
    let (value, t) = parser.parse().unwrap();
    assert_eq!(Some(RedisValue::SimpleString("OK".into())), value);
    assert_eq!(5, t);
    assert_eq!(8, parser.buffer_len());
    let (value, t) = parser.parse().unwrap();
    assert_eq!(Some(RedisValue::SimpleString("LATER".into())), value);
    assert_eq!(8, t);
}

#[test]
fn parse_rejects_a_leading_zero_in_a_length() {
    let mut parser = RedisValueParser::new();
    parser.append("$05\r\nabcde\r\n".as_bytes());
    let r = parser.parse();
    assert_eq!(Err(MessageParserStateError::UnexceptedToken(b'5', 2)), r);
}

#[test]
fn parse_accepts_a_plain_zero_length() {
    let mut parser = RedisValueParser::new();
    parser.append("$0\r\n\r\n".as_bytes());
    let (value, t) = parser.parse().unwrap();
    assert_eq!(Some(RedisValue::bulk_string("")), value);
    assert_eq!(6, t);
}

#[test]
fn parse_rejects_an_unknown_marker() {
    let mut parser = RedisValueParser::new();
    parser.append("%3\r\n".as_bytes());
    let r = parser.parse();
    assert_eq!(Err(MessageParserStateError::UnexceptedToken(b'%', 0)), r);
}

#[test]
fn parse_rejects_a_null_bulk_string_encoding() {
    let mut parser = RedisValueParser::new();
    parser.append("$-1\r\n".as_bytes());
    let r = parser.parse();
    assert_eq!(Err(MessageParserStateError::UnexceptedToken(b'-', 1)), r);
}

#[test]
fn parse_rejects_an_oversized_length() {
    let mut parser = RedisValueParser::new();
    parser.append("$99999999999999999999999\r\nx\r\n".as_bytes());
    let r = parser.parse();
    assert!(matches!(r, Err(MessageParserStateError::UnexceptedToken(_, _))));
}

#[test]
fn parse_resumes_a_nested_array_without_losing_elements() {
    let mut parser = RedisValueParser::new();
    parser.append("*2\r\n$3\r\nfoo".as_bytes());
    assert_eq!(Ok((None, 0)), parser.parse());
    parser.append("\r\n$3\r\nbar\r\n".as_bytes());
    let (value, t) = parser.parse().unwrap();
    assert_eq!(
        Some(RedisValue::Array(vec![
            RedisValue::bulk_string("foo"),
            RedisValue::bulk_string("bar"),
        ])),
        value
    );
    assert_eq!(22, t);
    assert_eq!(0, parser.buffer_len());
}

#[test]
fn parse_rdb_reads_a_snapshot_without_trailing_crlf() {
    let mut parser = RedisValueParser::new();
    parser.append("$4\r\nBLOB+PONG\r\n".as_bytes());
    let (value, t) = parser.parse_rdb().unwrap();
    assert_eq!(Some(RedisValue::Rdb(b"BLOB".to_vec())), value);
    assert_eq!(8, t);
    let (value, _t) = parser.parse().unwrap();
    assert_eq!(Some(RedisValue::SimpleString("PONG".into())), value);
}

#[test]
fn parse_rdb_on_an_empty_buffer_returns_none() {
    let mut parser = RedisValueParser::new();
    assert_eq!(Ok((None, 0)), parser.parse_rdb());
}

#[test]
fn round_trip_parse_of_a_serialized_frame() {
    let frame = RedisValue::Array(vec![
        RedisValue::bulk_string("SET"),
        RedisValue::bulk_string("key"),
        RedisValue::Array(vec![RedisValue::SimpleString("inner".into())]),
    ]);
    let bytes = frame.to_bytes();
    let mut parser = RedisValueParser::new();
    parser.append(bytes.as_slice());
    let (value, t) = parser.parse().unwrap();
    assert_eq!(Some(frame), value);
    assert_eq!(bytes.len(), t);
    assert_eq!(0, parser.buffer_len());
}
