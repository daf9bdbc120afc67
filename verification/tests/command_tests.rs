use redis_lite::command::{parse_u64, RedisCommand, RedisCommandError};
use redis_lite::parser::RedisValueParser;
use redis_lite::value::{RedisBulkString, RedisValue};

fn parse_one(bytes: &[u8]) -> RedisValue {
    let mut parser = RedisValueParser::new();
    parser.append(bytes);
    parser.parse().unwrap().0.unwrap()
}

fn bs(s: &str) -> RedisBulkString {
    RedisBulkString { data: s.as_bytes().to_vec() }
}

#[test]
fn echo_command_from_wire() {
    let v = parse_one(b"*2\r\n$4\r\necho\r\n$3\r\nhey\r\n");
    let c = RedisCommand::try_from_value(&v).unwrap();
    assert_eq!(RedisCommand::Echo(bs("hey")), c);
}

#[test]
fn command_names_are_case_folded() {
    let v = parse_one(b"*1\r\n$4\r\nPiNg\r\n");
    assert_eq!(RedisCommand::Ping, RedisCommand::try_from_value(&v).unwrap());
}

#[test]
fn set_with_px_reads_the_expiry() {
    let v = parse_one(b"*5\r\n$3\r\nSET\r\n$1\r\nk\r\n$1\r\nv\r\n$2\r\npx\r\n$3\r\n100\r\n");
    let c = RedisCommand::try_from_value(&v).unwrap();
    assert_eq!(RedisCommand::SetValue(bs("k"), bs("v"), Some(100)), c);
}

#[test]
fn set_with_a_bad_expiry_is_an_illegal_argument() {
    let v = parse_one(b"*5\r\n$3\r\nSET\r\n$1\r\nk\r\n$1\r\nv\r\n$2\r\npx\r\n$3\r\nabc\r\n");
    assert_eq!(
        Err(RedisCommandError::IlleagalArg),
        RedisCommand::try_from_value(&v)
    );
}

#[test]
fn get_with_wrong_arity_names_the_counts() {
    let v = parse_one(b"*3\r\n$3\r\nGET\r\n$1\r\nk\r\n$1\r\nv\r\n");
    assert_eq!(
        Err(RedisCommandError::DismatchedArgsNum(1, 2)),
        RedisCommand::try_from_value(&v)
    );
}

#[test]
fn unknown_command_names_the_folded_name() {
    let v = parse_one(b"*1\r\n$5\r\nFLUSH\r\n");
    assert_eq!(
        Err(RedisCommandError::UnknownCommand(b"flush".to_vec())),
        RedisCommand::try_from_value(&v)
    );
}

#[test]
fn a_non_array_frame_is_malformed() {
    let v = RedisValue::simple_string("PING");
    assert!(matches!(
        RedisCommand::try_from_value(&v),
        Err(RedisCommandError::Malform(_))
    ));
}

#[test]
fn an_empty_array_is_malformed() {
    let v = RedisValue::Array(vec![]);
    assert!(matches!(
        RedisCommand::try_from_value(&v),
        Err(RedisCommandError::Malform(_))
    ));
}

#[test]
fn wait_reads_both_numbers() {
    let v = parse_one(b"*3\r\n$4\r\nWAIT\r\n$1\r\n1\r\n$4\r\n5000\r\n");
    assert_eq!(
        RedisCommand::Wait(1, 5000),
        RedisCommand::try_from_value(&v).unwrap()
    );
}

#[test]
fn replconf_keeps_its_two_arguments() {
    let v = parse_one(b"*3\r\n$8\r\nREPLCONF\r\n$14\r\nlistening-port\r\n$4\r\n6380\r\n");
    assert_eq!(
        RedisCommand::Replconf(bs("listening-port"), bs("6380")),
        RedisCommand::try_from_value(&v).unwrap()
    );
}

#[test]
fn a_command_serializes_as_an_array_of_bulk_strings() {
    let c = RedisCommand::SetValue(bs("foo"), bs("bar"), None);
    assert_eq!(
        b"*3\r\n$3\r\nset\r\n$3\r\nfoo\r\n$3\r\nbar\r\n",
        c.to_value().to_bytes().as_slice()
    );

    let c = RedisCommand::SetValue(bs("k"), bs("v"), Some(100));
    assert_eq!(
        b"*5\r\n$3\r\nset\r\n$1\r\nk\r\n$1\r\nv\r\n$2\r\npx\r\n$3\r\n100\r\n",
        c.to_value().to_bytes().as_slice()
    );
}

#[test]
fn command_round_trip_through_the_wire() {
    let c = RedisCommand::replconf("capa", "psync2");
    let bytes = c.to_value().to_bytes();
    let back = RedisCommand::try_from_value(&parse_one(bytes.as_slice())).unwrap();
    assert_eq!(c, back);
}

#[test]
fn parse_u64_reads_digits_only() {
    assert_eq!(Some(0), parse_u64(b"0"));
    assert_eq!(Some(18446744073709551615), parse_u64(b"18446744073709551615"));
    assert_eq!(None, parse_u64(b"18446744073709551616"));
    assert_eq!(None, parse_u64(b""));
    assert_eq!(None, parse_u64(b"12a"));
    assert_eq!(None, parse_u64(b"-1"));
}
