use redis_lite::command::RedisCommand;
use redis_lite::replica::{
    handshake_start, handshake_step, replica_step, wants_ack_responder, HandshakeState,
    ReplicationInfo,
};
use redis_lite::value::{RedisBulkString, RedisValue};

#[test]
fn handshake_walks_the_full_table() {
    let (state, first) = handshake_start();
    assert_eq!(HandshakeState::Ping, state);
    assert_eq!(b"*1\r\n$4\r\nping\r\n", first.to_value().to_bytes().as_slice());

    let (state, cmd) = handshake_step(state, &RedisValue::simple_string("PONG"), 6380).unwrap();
    assert_eq!(HandshakeState::Port, state);
    assert_eq!(
        b"*3\r\n$8\r\nreplconf\r\n$14\r\nlistening-port\r\n$4\r\n6380\r\n",
        cmd.unwrap().to_value().to_bytes().as_slice()
    );

    let (state, cmd) = handshake_step(state, &RedisValue::simple_string("OK"), 6380).unwrap();
    assert_eq!(HandshakeState::Capa, state);
    assert_eq!(
        b"*3\r\n$8\r\nreplconf\r\n$4\r\ncapa\r\n$6\r\npsync2\r\n",
        cmd.unwrap().to_value().to_bytes().as_slice()
    );

    let (state, cmd) = handshake_step(state, &RedisValue::simple_string("OK"), 6380).unwrap();
    assert_eq!(HandshakeState::Psync, state);
    assert_eq!(
        b"*3\r\n$5\r\npsync\r\n$1\r\n?\r\n$2\r\n-1\r\n",
        cmd.unwrap().to_value().to_bytes().as_slice()
    );

    let reply =
        RedisValue::simple_string("FULLRESYNC 8371b4fb1155b71f4a04d3e1bc3e18c4a990aeeb 0");
    let (state, cmd) = handshake_step(state, &reply, 6380).unwrap();
    assert_eq!(HandshakeState::Snapshot, state);
    assert!(cmd.is_none());

    let (state, cmd) = handshake_step(state, &RedisValue::Rdb(vec![0u8; 88]), 6380).unwrap();
    assert_eq!(HandshakeState::Live, state);
    assert!(cmd.is_none());
}

#[test]
fn handshake_rejects_a_wrong_reply() {
    let r = handshake_step(HandshakeState::Port, &RedisValue::simple_string("NO"), 6380);
    assert!(r.is_err());
    let r = handshake_step(HandshakeState::Psync, &RedisValue::simple_string("HELLO"), 6380);
    assert!(r.is_err());
    let r = handshake_step(HandshakeState::Snapshot, &RedisValue::simple_string("OK"), 6380);
    assert!(r.is_err());
}

#[test]
fn replica_step_counts_the_frame_before_applying() {
    let cmd = RedisCommand::Ping;
    let (msg, new_offset) = replica_step(100, 14, cmd);
    assert_eq!(100, msg.offset);
    assert!(msg.client_id.is_none());
    assert_eq!(RedisCommand::Ping, msg.command);
    assert_eq!(114, new_offset);
}

#[test]
fn only_getack_needs_a_responder_on_the_uplink() {
    let getack = RedisCommand::Replconf(
        RedisBulkString { data: b"GETACK".to_vec() },
        RedisBulkString { data: b"*".to_vec() },
    );
    assert!(wants_ack_responder(&getack));
    let other = RedisCommand::Replconf(
        RedisBulkString { data: b"capa".to_vec() },
        RedisBulkString { data: b"psync2".to_vec() },
    );
    assert!(!wants_ack_responder(&other));
    assert!(!wants_ack_responder(&RedisCommand::Ping));
}

#[test]
fn replication_info_formats_its_section() {
    let info = ReplicationInfo {
        role: "slave".to_string(),
        replica_id: "8371b4fb1155b71f4a04d3e1bc3e18c4a990aeeb".to_string(),
    };
    let expected = "# Replication\nrole:slave\nmaster_replid:8371b4fb1155b71f4a04d3e1bc3e18c4a990aeeb\nmaster_repl_offset:42";
    let frame = format!("${}\r\n{}\r\n", expected.len(), expected);
    assert_eq!(frame.as_bytes(), info.to_value(42).to_bytes().as_slice());
}
