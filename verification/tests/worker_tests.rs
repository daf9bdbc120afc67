use redis_lite::command::RedisCommand;
use redis_lite::parser::RedisValueParser;
use redis_lite::redis::{Redis, RedisConfig};
use redis_lite::value::{RedisBulkString, RedisValue};
use redis_lite::worker::{baseline_blob, WorkerMessage};

const REPLID: &str = "8371b4fb1155b71f4a04d3e1bc3e18c4a990aeeb";

fn master() -> Redis {
    Redis::new(
        RedisConfig { host: "127.0.0.1".to_string(), port: 6379, replicaof: None },
        REPLID.as_bytes().to_vec(),
    )
}

fn replica_node() -> Redis {
    Redis::new(
        RedisConfig {
            host: "127.0.0.1".to_string(),
            port: 6380,
            replicaof: Some(vec!["127.0.0.1".to_string(), "6379".to_string()]),
        },
        REPLID.as_bytes().to_vec(),
    )
}

fn from_wire(bytes: &[u8]) -> RedisCommand {
    let mut parser = RedisValueParser::new();
    parser.append(bytes);
    let v = parser.parse().unwrap().0.unwrap();
    RedisCommand::try_from_value(&v).unwrap()
}

fn client_msg(command: RedisCommand) -> WorkerMessage {
    WorkerMessage { command, client_id: Some(b"client-1".to_vec()), offset: 0 }
}

#[test]
fn ping_answers_pong() {
    let mut node = master();
    let eff = node.execute(&client_msg(from_wire(b"*1\r\n$4\r\nPING\r\n")), 0);
    assert_eq!(1, eff.responses.len());
    assert_eq!(b"+PONG\r\n", eff.responses[0].to_bytes().as_slice());
    assert!(eff.fanout.is_none());
}

#[test]
fn set_then_get_round_trip() {
    let mut node = master();
    let eff = node.execute(
        &client_msg(from_wire(b"*3\r\n$3\r\nSET\r\n$3\r\nfoo\r\n$3\r\nbar\r\n")),
        1_000,
    );
    assert_eq!(b"+OK\r\n", eff.responses[0].to_bytes().as_slice());

    let eff = node.execute(
        &client_msg(from_wire(b"*2\r\n$3\r\nGET\r\n$3\r\nfoo\r\n")),
        2_000,
    );
    assert_eq!(b"$3\r\nbar\r\n", eff.responses[0].to_bytes().as_slice());
}

#[test]
fn set_then_get_survives_any_later_read_without_expiry() {
    let mut node = master();
    node.execute(
        &client_msg(RedisCommand::SetValue(
            RedisBulkString { data: b"k".to_vec() },
            RedisBulkString { data: b"v".to_vec() },
            None,
        )),
        1,
    );
    let eff = node.execute(
        &client_msg(RedisCommand::Get(RedisBulkString { data: b"k".to_vec() })),
        u64::MAX,
    );
    assert_eq!(b"$1\r\nv\r\n", eff.responses[0].to_bytes().as_slice());
}

#[test]
fn expiry_answers_null_after_the_deadline() {
    let mut node = master();
    let eff = node.execute(
        &client_msg(from_wire(
            b"*5\r\n$3\r\nSET\r\n$1\r\nk\r\n$1\r\nv\r\n$2\r\nPX\r\n$3\r\n100\r\n",
        )),
        1_000,
    );
    assert_eq!(b"+OK\r\n", eff.responses[0].to_bytes().as_slice());

    let eff = node.execute(
        &client_msg(from_wire(b"*2\r\n$3\r\nGET\r\n$1\r\nk\r\n")),
        1_200,
    );
    assert_eq!(b"$-1\r\n", eff.responses[0].to_bytes().as_slice());
}

#[test]
fn expiry_answers_the_value_before_the_deadline() {
    let mut node = master();
    node.execute(
        &client_msg(from_wire(
            b"*5\r\n$3\r\nSET\r\n$1\r\nk\r\n$1\r\nv\r\n$2\r\nPX\r\n$3\r\n100\r\n",
        )),
        1_000,
    );
    let eff = node.execute(
        &client_msg(from_wire(b"*2\r\n$3\r\nGET\r\n$1\r\nk\r\n")),
        1_050,
    );
    assert_eq!(b"$1\r\nv\r\n", eff.responses[0].to_bytes().as_slice());
}

#[test]
fn two_sets_on_one_key_leave_one_of_the_values() {
    let k = || RedisBulkString { data: b"k".to_vec() };
    let v1 = RedisBulkString { data: b"v1".to_vec() };
    let v2 = RedisBulkString { data: b"v2".to_vec() };

    let mut node = master();
    node.execute(&client_msg(RedisCommand::SetValue(k(), v1.clone(), None)), 0);
    node.execute(&client_msg(RedisCommand::SetValue(k(), v2.clone(), None)), 0);
    let eff = node.execute(&client_msg(RedisCommand::Get(k())), 0);
    let first_order = eff.responses[0].to_bytes();

    let mut node = master();
    node.execute(&client_msg(RedisCommand::SetValue(k(), v2.clone(), None)), 0);
    node.execute(&client_msg(RedisCommand::SetValue(k(), v1.clone(), None)), 0);
    let eff = node.execute(&client_msg(RedisCommand::Get(k())), 0);
    let second_order = eff.responses[0].to_bytes();

    let allowed = [b"$2\r\nv1\r\n".to_vec(), b"$2\r\nv2\r\n".to_vec()];
    assert_eq!(b"$2\r\nv2\r\n", first_order.as_slice());
    assert_eq!(b"$2\r\nv1\r\n", second_order.as_slice());
    assert!(allowed.contains(&first_order));
    assert!(allowed.contains(&second_order));
}

#[test]
fn type_answers_string_or_none() {
    let mut node = master();
    node.execute(
        &client_msg(from_wire(b"*3\r\n$3\r\nSET\r\n$1\r\nk\r\n$1\r\nv\r\n")),
        0,
    );
    let eff = node.execute(&client_msg(from_wire(b"*2\r\n$4\r\nTYPE\r\n$1\r\nk\r\n")), 0);
    assert_eq!(b"+string\r\n", eff.responses[0].to_bytes().as_slice());
    let eff = node.execute(&client_msg(from_wire(b"*2\r\n$4\r\nTYPE\r\n$1\r\nz\r\n")), 0);
    assert_eq!(b"+none\r\n", eff.responses[0].to_bytes().as_slice());
}

#[test]
fn info_reports_the_replication_section() {
    let mut node = master();
    let eff = node.execute(
        &client_msg(from_wire(b"*2\r\n$4\r\nINFO\r\n$11\r\nreplication\r\n")),
        0,
    );
    let expected = format!(
        "# Replication\nrole:master\nmaster_replid:{}\nmaster_repl_offset:0",
        REPLID
    );
    let expected_frame = format!("${}\r\n{}\r\n", expected.len(), expected);
    assert_eq!(expected_frame.as_bytes(), eff.responses[0].to_bytes().as_slice());

    let mut follower = replica_node();
    let eff = follower.execute(
        &client_msg(from_wire(b"*2\r\n$4\r\nINFO\r\n$11\r\nreplication\r\n")),
        0,
    );
    let body = String::from_utf8(eff.responses[0].to_bytes()).unwrap();
    assert!(body.contains("role:slave"));
}

#[test]
fn master_fans_out_a_set_and_advances_the_offset() {
    let mut node = master();
    let eff = node.execute(
        &client_msg(from_wire(b"*3\r\n$3\r\nSET\r\n$3\r\nfoo\r\n$3\r\nbar\r\n")),
        0,
    );
    let fanout = eff.fanout.expect("a master fans out writes");
    assert_eq!(b"*3\r\n$3\r\nset\r\n$3\r\nfoo\r\n$3\r\nbar\r\n", fanout.as_slice());
    assert_eq!(fanout.len() as u64, node.master_repl_offset);
}

#[test]
fn a_replica_applies_a_set_without_fanning_out() {
    let mut node = replica_node();
    let msg = WorkerMessage {
        command: from_wire(b"*3\r\n$3\r\nSET\r\n$3\r\nfoo\r\n$3\r\nbar\r\n"),
        client_id: None,
        offset: 0,
    };
    let eff = node.execute(&msg, 0);
    assert!(eff.fanout.is_none());
    assert_eq!(0, node.master_repl_offset);
    let eff = node.execute(
        &client_msg(from_wire(b"*2\r\n$3\r\nGET\r\n$3\r\nfoo\r\n")),
        0,
    );
    assert_eq!(b"$3\r\nbar\r\n", eff.responses[0].to_bytes().as_slice());
}

#[test]
fn psync_attaches_the_replica_and_sends_the_snapshot() {
    let mut node = master();
    let msg = WorkerMessage {
        command: from_wire(b"*3\r\n$5\r\nPSYNC\r\n$1\r\n?\r\n$2\r\n-1\r\n"),
        client_id: Some(b"replica-1".to_vec()),
        offset: 0,
    };
    let eff = node.execute(&msg, 0);
    assert_eq!(2, eff.responses.len());
    let expected_line = format!("+FULLRESYNC {} 0\r\n", REPLID);
    assert_eq!(expected_line.as_bytes(), eff.responses[0].to_bytes().as_slice());

    let blob = baseline_blob();
    assert_eq!(88, blob.len());
    let mut expected_snapshot = format!("${}\r\n", blob.len()).into_bytes();
    expected_snapshot.extend_from_slice(blob.as_slice());
    assert_eq!(expected_snapshot, eff.responses[1].to_bytes());
    assert!(node.replicas.contains(b"replica-1"));
}

#[test]
fn baseline_blob_matches_its_base64_source() {
    let text = "UkVESVMwMDEx+glyZWRpcy12ZXIFNy4yLjD6CnJlZGlzLWJpdHPAQPoFY3RpbWXCbQi8ZfoIdXNlZC1tZW3CsMQQAPoIYW9mLWJhc2XAAP/wbjv+wP9aog==";
    let expected =
        base64::engine::Engine::decode(&base64::engine::general_purpose::STANDARD, text).unwrap();
    assert_eq!(expected, baseline_blob());
}

#[test]
fn replconf_getack_answers_the_carried_offset() {
    let mut node = replica_node();
    let msg = WorkerMessage {
        command: from_wire(b"*3\r\n$8\r\nREPLCONF\r\n$6\r\nGETACK\r\n$1\r\n*\r\n"),
        client_id: None,
        offset: 77,
    };
    let eff = node.execute(&msg, 0);
    assert_eq!(
        b"*3\r\n$8\r\nreplconf\r\n$3\r\nack\r\n$2\r\n77\r\n",
        eff.responses[0].to_bytes().as_slice()
    );
}

#[test]
fn replconf_listening_port_answers_ok() {
    let mut node = master();
    let eff = node.execute(
        &client_msg(from_wire(
            b"*3\r\n$8\r\nREPLCONF\r\n$14\r\nlistening-port\r\n$4\r\n6380\r\n",
        )),
        0,
    );
    assert_eq!(b"+OK\r\n", eff.responses[0].to_bytes().as_slice());
}

#[test]
fn wait_with_no_replicas_returns_zero_at_once() {
    let mut node = master();
    let eff = node.execute(&client_msg(from_wire(b"*3\r\n$4\r\nWAIT\r\n$1\r\n0\r\n$4\r\n1000\r\n")), 5_000);
    let req = eff.wait.expect("WAIT spawns a poller");
    let answer = node.wait_poll(&req, 5_001).expect("satisfied immediately");
    assert_eq!(0, answer);
    assert_eq!(b":0\r\n", RedisValue::Integer(answer).to_bytes().as_slice());
}

#[test]
fn wait_is_satisfied_by_an_acknowledging_replica() {
    let mut node = master();

    // the replica attaches
    node.execute(
        &WorkerMessage {
            command: from_wire(b"*3\r\n$5\r\nPSYNC\r\n$1\r\n?\r\n$2\r\n-1\r\n"),
            client_id: Some(b"replica-1".to_vec()),
            offset: 0,
        },
        0,
    );

    // a write advances the master offset
    node.execute(
        &client_msg(from_wire(b"*3\r\n$3\r\nSET\r\n$3\r\nfoo\r\n$3\r\nbar\r\n")),
        10,
    );
    let target = node.master_repl_offset;
    assert!(target > 0);

    // WAIT 1 5000 is not satisfied before the ACK
    let eff = node.execute(
        &client_msg(from_wire(b"*3\r\n$4\r\nWAIT\r\n$1\r\n1\r\n$4\r\n5000\r\n")),
        20,
    );
    let req = eff.wait.unwrap();
    assert_eq!(target, req.target_offset);
    assert_eq!(None, node.wait_poll(&req, 25));

    // the ACK arrives with the full offset
    let ack = format!("*3\r\n$8\r\nREPLCONF\r\n$3\r\nACK\r\n${}\r\n{}\r\n", target.to_string().len(), target);
    node.execute(
        &WorkerMessage {
            command: from_wire(ack.as_bytes()),
            client_id: Some(b"replica-1".to_vec()),
            offset: 0,
        },
        30,
    );

    let answer = node.wait_poll(&req, 40).expect("satisfied after the ACK");
    assert_eq!(1, answer);
    assert_eq!(b":1\r\n", RedisValue::Integer(answer).to_bytes().as_slice());
}

#[test]
fn wait_returns_the_observed_count_on_timeout() {
    let mut node = master();
    node.execute(
        &WorkerMessage {
            command: from_wire(b"*3\r\n$5\r\nPSYNC\r\n$1\r\n?\r\n$2\r\n-1\r\n"),
            client_id: Some(b"replica-1".to_vec()),
            offset: 0,
        },
        0,
    );
    node.execute(
        &client_msg(from_wire(b"*3\r\n$3\r\nSET\r\n$3\r\nfoo\r\n$3\r\nbar\r\n")),
        10,
    );
    let eff = node.execute(
        &client_msg(from_wire(b"*3\r\n$4\r\nWAIT\r\n$1\r\n1\r\n$3\r\n100\r\n")),
        20,
    );
    let req = eff.wait.unwrap();
    assert_eq!(None, node.wait_poll(&req, 60));
    let answer = node.wait_poll(&req, 120).expect("timeout elapsed");
    assert_eq!(0, answer);
}

#[test]
fn select_and_config_answer_ok() {
    let mut node = master();
    let eff = node.execute(&client_msg(from_wire(b"*2\r\n$6\r\nSELECT\r\n$1\r\n0\r\n")), 0);
    assert_eq!(b"+OK\r\n", eff.responses[0].to_bytes().as_slice());
    let eff = node.execute(
        &client_msg(from_wire(b"*3\r\n$6\r\nCONFIG\r\n$3\r\nGET\r\n$4\r\nsave\r\n")),
        0,
    );
    assert_eq!(b"+OK\r\n", eff.responses[0].to_bytes().as_slice());
}

#[test]
fn a_detached_replica_no_longer_counts() {
    let mut node = master();
    node.execute(
        &WorkerMessage {
            command: from_wire(b"*3\r\n$5\r\nPSYNC\r\n$1\r\n?\r\n$2\r\n-1\r\n"),
            client_id: Some(b"replica-1".to_vec()),
            offset: 0,
        },
        0,
    );
    assert_eq!(1, node.replicas.len());
    node.replicas.remove(b"replica-1");
    assert_eq!(0, node.replicas.len());
    assert!(!node.replicas.contains(b"replica-1"));
}

#[test]
fn a_saturating_expiry_never_fires() {
    let mut node = master();
    node.execute(
        &client_msg(RedisCommand::SetValue(
            RedisBulkString { data: b"k".to_vec() },
            RedisBulkString { data: b"v".to_vec() },
            Some(u64::MAX),
        )),
        1_000,
    );
    let eff = node.execute(
        &client_msg(RedisCommand::Get(RedisBulkString { data: b"k".to_vec() })),
        u64::MAX,
    );
    assert_eq!(b"$1\r\nv\r\n", eff.responses[0].to_bytes().as_slice());
}

#[test]
fn a_malformed_ack_changes_nothing() {
    let mut node = master();
    node.execute(
        &WorkerMessage {
            command: from_wire(b"*3\r\n$5\r\nPSYNC\r\n$1\r\n?\r\n$2\r\n-1\r\n"),
            client_id: Some(b"replica-1".to_vec()),
            offset: 0,
        },
        0,
    );
    let eff = node.execute(
        &WorkerMessage {
            command: from_wire(b"*3\r\n$8\r\nREPLCONF\r\n$3\r\nACK\r\n$3\r\nabc\r\n"),
            client_id: Some(b"replica-1".to_vec()),
            offset: 0,
        },
        0,
    );
    assert!(eff.responses.is_empty());
    // the registry still holds the offset from PSYNC
    let eff = node.execute(
        &client_msg(from_wire(b"*3\r\n$4\r\nWAIT\r\n$1\r\n1\r\n$1\r\n5\r\n")),
        0,
    );
    let req = eff.wait.unwrap();
    assert_eq!(Some(1), node.wait_poll(&req, 0));
}
