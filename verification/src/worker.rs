//! The executor: the single consumer of the command queue and the only
//! writer of the store. [`Redis::execute`] turns one queued command into a
//! new state and its visible effects: responses for the submitting
//! connection, one serialized frame to fan out to every attached replica,
//! and, for `WAIT`, a polling request that [`Redis::wait_poll`] answers.

use vstd::prelude::*;
use vstd::string::StringSliceAdditionalSpecFns;
use vstd::utf8::encode_utf8;

use crate::command::{spec_command_value, spec_lower, spec_parse_u64, CommandModel, RedisCommand};
use crate::command::{bulk_of_vec, parse_u64};
use crate::redis::{reg_distinct, spec_count_acked, spec_live_value, spec_reg_lookup};
use crate::redis::{Redis, StoreItem, StoreItemModel};
use crate::value::{models_of, push_all, spec_dec_digits, spec_serialize, dec_digits};
use crate::value::{RedisValue, ValueModel};

verus! {

/// One unit of work for the executor: a command, the id of the connection
/// it came from (none for the master uplink of a replica), and, on the
/// uplink, the processed offset before the command's own frame.
#[derive(Debug)]
pub struct WorkerMessage {
    pub command: RedisCommand,
    pub client_id: Option<Vec<u8>>,
    pub offset: u64,
}

/// An outstanding `WAIT`: how many replicas must acknowledge at least
/// `target_offset`, and how long to poll from `started_at_ms` on.
#[derive(Debug, Clone, Copy, PartialEq, Eq, Structural)]
pub struct WaitRequest {
    pub min_replicas: u64,
    pub timeout_ms: u64,
    pub target_offset: u64,
    pub started_at_ms: u64,
}

/// What one executed command asks of the surrounding tasks: frames to send
/// back on the submitting connection, one serialized frame to enqueue on
/// every attached replica, and an optional `WAIT` to poll.
#[derive(Debug)]
pub struct Effects {
    pub responses: Vec<RedisValue>,
    pub fanout: Option<Vec<u8>>,
    pub wait: Option<WaitRequest>,
}

/// `a + b`, stopping at `u64::MAX`.
pub open spec fn sat_add_u64(a: u64, b: int) -> u64 {
    if a + b <= u64::MAX {
        (a + b) as u64
    } else {
        u64::MAX
    }
}

/// The expiry instant of a `SET`: zero (never) without `PX`, otherwise the
/// current time plus the expiry span, stopping at `u64::MAX`.
pub open spec fn spec_expiry(now: u64, px: Option<u64>) -> u64 {
    match px {
        None => 0,
        Some(t) => sat_add_u64(now, t as int),
    }
}

pub open spec fn pong_bytes() -> Seq<u8> {
    encode_utf8("PONG"@)
}

pub open spec fn ok_bytes() -> Seq<u8> {
    encode_utf8("OK"@)
}

pub open spec fn string_bytes() -> Seq<u8> {
    encode_utf8("string"@)
}

pub open spec fn none_bytes() -> Seq<u8> {
    encode_utf8("none"@)
}

pub open spec fn master_bytes() -> Seq<u8> {
    encode_utf8("master"@)
}

pub open spec fn slave_bytes() -> Seq<u8> {
    encode_utf8("slave"@)
}

/// The `REPLCONF` subkeys the executor distinguishes.
pub open spec fn getack_name() -> Seq<u8> {
    seq![103u8, 101u8, 116u8, 97u8, 99u8, 107u8]
}

pub open spec fn ack_name() -> Seq<u8> {
    seq![97u8, 99u8, 107u8]
}

fn getack_bytes() -> (r: Vec<u8>)
    ensures
        r@ == getack_name(),
{
    let r = vec![103u8, 101u8, 116u8, 97u8, 99u8, 107u8];
    proof {
        assert(r@ =~= getack_name());
    }
    r
}

fn ack_bytes() -> (r: Vec<u8>)
    ensures
        r@ == ack_name(),
{
    let r = vec![97u8, 99u8, 107u8];
    proof {
        assert(r@ =~= ack_name());
    }
    r
}

/// The `INFO` reply body: a replication section naming the role, the
/// replication id, and the current master replication offset.
pub open spec fn spec_info_payload(role: Seq<u8>, replid: Seq<u8>, offset: u64) -> Seq<u8> {
    encode_utf8("# Replication\nrole:"@) + role + encode_utf8("\nmaster_replid:"@) + replid
        + encode_utf8("\nmaster_repl_offset:"@) + spec_dec_digits(offset as nat)
}

/// Builds the `INFO` reply body.
pub fn info_payload(role: &str, replid: &[u8], offset: u64) -> (r: Vec<u8>)
    ensures
        r@ == spec_info_payload(role.spec_bytes(), replid@, offset),
{
    let mut out: Vec<u8> = Vec::new();
    push_all(&mut out, "# Replication\nrole:".as_bytes());
    push_all(&mut out, role.as_bytes());
    push_all(&mut out, "\nmaster_replid:".as_bytes());
    push_all(&mut out, replid);
    push_all(&mut out, "\nmaster_repl_offset:".as_bytes());
    let digits = dec_digits(offset);
    push_all(&mut out, digits.as_slice());
    proof {
        assert(out@ =~= spec_info_payload(role.spec_bytes(), replid@, offset));
    }
    out
}

/// The first line of the `PSYNC` reply: `FULLRESYNC`, the replication id,
/// and offset zero.
pub open spec fn spec_fullresync_payload(replid: Seq<u8>) -> Seq<u8> {
    encode_utf8("FULLRESYNC "@) + replid + encode_utf8(" 0"@)
}

/// Builds the first line of the `PSYNC` reply.
pub fn fullresync_payload(replid: &[u8]) -> (r: Vec<u8>)
    ensures
        r@ == spec_fullresync_payload(replid@),
{
    let mut out: Vec<u8> = Vec::new();
    push_all(&mut out, "FULLRESYNC ".as_bytes());
    push_all(&mut out, replid);
    push_all(&mut out, " 0".as_bytes());
    proof {
        assert(out@ =~= spec_fullresync_payload(replid@));
    }
    out
}

/// What base64's standard-alphabet decode returns for a given text.
pub uninterp spec fn b64_decode_of(s: Seq<char>) -> Option<Seq<u8>>;

/// Relies on base64's `Engine::decode` with the `STANDARD` engine: it
/// decodes the text or reports it invalid, and the result depends on the
/// input characters alone.
#[verifier::external_body]
fn b64_decode(s: &str) -> (r: Option<Vec<u8>>)
    ensures
        match (r, b64_decode_of(s@)) {
            (Some(v), Some(m)) => v@ == m,
            (None, None) => true,
            _ => false,
        },
{
    base64::engine::Engine::decode(&base64::engine::general_purpose::STANDARD, s).ok()
}

/// The baseline snapshot image a master sends on `PSYNC`, base64-encoded:
/// an empty database.
pub open spec fn spec_baseline_b64() -> Seq<char> {
    "UkVESVMwMDEx+glyZWRpcy12ZXIFNy4yLjD6CnJlZGlzLWJpdHPAQPoFY3RpbWXCbQi8ZfoIdXNlZC1tZW3CsMQQAPoIYW9mLWJhc2XAAP/wbjv+wP9aog=="@
}

/// The decoded baseline snapshot payload.
pub open spec fn spec_baseline_blob() -> Seq<u8> {
    match b64_decode_of(spec_baseline_b64()) {
        Some(b) => b,
        None => Seq::empty(),
    }
}

/// Decodes the baseline snapshot payload.
pub fn baseline_blob() -> (r: Vec<u8>)
    ensures
        r@ == spec_baseline_blob(),
{
    let decoded = b64_decode(
        "UkVESVMwMDEx+glyZWRpcy12ZXIFNy4yLjD6CnJlZGlzLWJpdHPAQPoFY3RpbWXCbQi8ZfoIdXNlZC1tZW3CsMQQAPoIYW9mLWJhc2XAAP/wbjv+wP9aog==",
    );
    match decoded {
        Some(v) => v,
        None => {
            let r: Vec<u8> = Vec::new();
            proof {
                assert(r@ =~= Seq::<u8>::empty());
            }
            r
        },
    }
}

/// A response list holding one frame.
fn one_response(v: RedisValue) -> (r: Vec<RedisValue>)
    ensures
        models_of(r@) == seq![v@],
{
    let mut out: Vec<RedisValue> = Vec::new();
    out.push(v);
    proof {
        crate::value::lemma_models_of_len(out@);
        assert(models_of(out@) =~= seq![v@]);
    }
    out
}

/// A response list holding two frames.
fn two_responses(v1: RedisValue, v2: RedisValue) -> (r: Vec<RedisValue>)
    ensures
        models_of(r@) == seq![v1@, v2@],
{
    let ghost m1 = v1@;
    let ghost m2 = v2@;
    let mut out: Vec<RedisValue> = Vec::new();
    out.push(v1);
    out.push(v2);
    proof {
        crate::value::lemma_models_of_len(out@);
        assert(models_of(out@) =~= seq![m1, m2]);
    }
    out
}

/// An empty response list.
fn no_responses() -> (r: Vec<RedisValue>)
    ensures
        models_of(r@) == Seq::<ValueModel>::empty(),
{
    let out: Vec<RedisValue> = Vec::new();
    proof {
        assert(models_of(out@) =~= Seq::<ValueModel>::empty());
    }
    out
}

impl Redis {
    /// Executes one queued command against the state, at wall-clock time
    /// `now_ms`, and says exactly what it did: how the store, the replica
    /// registry and the replication offset changed, which frames answer the
    /// submitting connection, what is fanned out to the attached replicas,
    /// and which `WAIT` must be polled. Expiry is lazy: a `GET` past the
    /// expiry instant removes the entry and answers the null bulk string.
    pub fn execute(&mut self, msg: &WorkerMessage, now_ms: u64) -> (eff: Effects)
        requires
            reg_distinct(old(self).replicas@),
        ensures
            reg_distinct(final(self).replicas@),
            final(self).config == old(self).config,
            final(self).replica_id == old(self).replica_id,
            eff.wait is Some <==> msg.command is Wait,
            match msg.command@ {
                CommandModel::Ping => {
                    &&& final(self).store@ == old(self).store@
                    &&& final(self).replicas@ == old(self).replicas@
                    &&& final(self).master_repl_offset == old(self).master_repl_offset
                    &&& models_of(eff.responses@) == seq![
                        ValueModel::SimpleString(pong_bytes()),
                    ]
                    &&& eff.fanout is None
                },
                CommandModel::Echo(x) => {
                    &&& final(self).store@ == old(self).store@
                    &&& final(self).replicas@ == old(self).replicas@
                    &&& final(self).master_repl_offset == old(self).master_repl_offset
                    &&& models_of(eff.responses@) == seq![ValueModel::BulkString(Some(x))]
                    &&& eff.fanout is None
                },
                CommandModel::Get(k) => {
                    &&& final(self).replicas@ == old(self).replicas@
                    &&& final(self).master_repl_offset == old(self).master_repl_offset
                    &&& eff.fanout is None
                    &&& match spec_live_value(old(self).store@, k, now_ms) {
                        Some(v) => {
                            &&& final(self).store@ == old(self).store@
                            &&& models_of(eff.responses@) == seq![v]
                        },
                        None => {
                            &&& final(self).store@ == old(self).store@.remove(k)
                            &&& models_of(eff.responses@) == seq![
                                ValueModel::BulkString(None),
                            ]
                        },
                    }
                },
                CommandModel::SetValue(k, v, px) => {
                    &&& final(self).store@ == old(self).store@.insert(
                        k,
                        StoreItemModel {
                            value: ValueModel::BulkString(Some(v)),
                            expired_at: spec_expiry(now_ms, px),
                        },
                    )
                    &&& final(self).replicas@ == old(self).replicas@
                    &&& models_of(eff.responses@) == seq![
                        ValueModel::SimpleString(ok_bytes()),
                    ]
                    &&& if old(self).config.replicaof is None {
                        &&& eff.fanout matches Some(fb) && fb@ == spec_serialize(
                            spec_command_value(msg.command@),
                        )
                        &&& final(self).master_repl_offset == sat_add_u64(
                            old(self).master_repl_offset,
                            spec_serialize(spec_command_value(msg.command@)).len() as int,
                        )
                    } else {
                        &&& eff.fanout is None
                        &&& final(self).master_repl_offset == old(self).master_repl_offset
                    }
                },
                CommandModel::Type(k) => {
                    &&& final(self).store@ == old(self).store@
                    &&& final(self).replicas@ == old(self).replicas@
                    &&& final(self).master_repl_offset == old(self).master_repl_offset
                    &&& eff.fanout is None
                    &&& models_of(eff.responses@) == seq![
                        ValueModel::SimpleString(
                            if spec_live_value(old(self).store@, k, now_ms) is Some {
                                string_bytes()
                            } else {
                                none_bytes()
                            },
                        ),
                    ]
                },
                CommandModel::Info(_) => {
                    &&& final(self).store@ == old(self).store@
                    &&& final(self).replicas@ == old(self).replicas@
                    &&& final(self).master_repl_offset == old(self).master_repl_offset
                    &&& eff.fanout is None
                    &&& models_of(eff.responses@) == seq![
                        ValueModel::BulkString(
                            Some(
                                spec_info_payload(
                                    if old(self).config.replicaof is None {
                                        master_bytes()
                                    } else {
                                        slave_bytes()
                                    },
                                    old(self).replica_id@,
                                    old(self).master_repl_offset,
                                ),
                            ),
                        ),
                    ]
                },
                CommandModel::Replconf(sub, arg) => {
                    &&& final(self).store@ == old(self).store@
                    &&& final(self).master_repl_offset == old(self).master_repl_offset
                    &&& eff.fanout is None
                    &&& if spec_lower(sub) == getack_name() {
                        &&& final(self).replicas@ == old(self).replicas@
                        &&& models_of(eff.responses@) == seq![
                            spec_command_value(
                                CommandModel::Replconf(
                                    ack_name(),
                                    spec_dec_digits(msg.offset as nat),
                                ),
                            ),
                        ]
                    } else if spec_lower(sub) == ack_name() {
                        &&& models_of(eff.responses@) == Seq::<ValueModel>::empty()
                        &&& match (msg.client_id, spec_parse_u64(arg)) {
                            (Some(id), Some(off)) => {
                                &&& spec_reg_lookup(final(self).replicas@, id@) == Some(off)
                                &&& forall|id2: Seq<u8>|
                                    id2 != id@ ==> #[trigger] spec_reg_lookup(
                                        final(self).replicas@,
                                        id2,
                                    ) == spec_reg_lookup(old(self).replicas@, id2)
                            },
                            _ => final(self).replicas@ == old(self).replicas@,
                        }
                    } else {
                        &&& final(self).replicas@ == old(self).replicas@
                        &&& models_of(eff.responses@) == seq![
                            ValueModel::SimpleString(ok_bytes()),
                        ]
                    }
                },
                CommandModel::Psync(_, _) => {
                    &&& final(self).store@ == old(self).store@
                    &&& final(self).master_repl_offset == old(self).master_repl_offset
                    &&& eff.fanout is None
                    &&& match msg.client_id {
                        Some(id) => {
                            &&& spec_reg_lookup(final(self).replicas@, id@) == Some(0u64)
                            &&& forall|id2: Seq<u8>|
                                id2 != id@ ==> #[trigger] spec_reg_lookup(
                                    final(self).replicas@,
                                    id2,
                                ) == spec_reg_lookup(old(self).replicas@, id2)
                            &&& models_of(eff.responses@) == seq![
                                ValueModel::SimpleString(
                                    spec_fullresync_payload(old(self).replica_id@),
                                ),
                                ValueModel::Rdb(spec_baseline_blob()),
                            ]
                        },
                        None => {
                            &&& final(self).replicas@ == old(self).replicas@
                            &&& models_of(eff.responses@) == Seq::<ValueModel>::empty()
                        },
                    }
                },
                CommandModel::Wait(n, t) => {
                    &&& final(self).store@ == old(self).store@
                    &&& final(self).replicas@ == old(self).replicas@
                    &&& final(self).master_repl_offset == old(self).master_repl_offset
                    &&& eff.fanout is None
                    &&& models_of(eff.responses@) == Seq::<ValueModel>::empty()
                    &&& eff.wait == Some(
                        WaitRequest {
                            min_replicas: n,
                            timeout_ms: t,
                            target_offset: old(self).master_repl_offset,
                            started_at_ms: now_ms,
                        },
                    )
                },
                CommandModel::Select(_) => {
                    &&& final(self).store@ == old(self).store@
                    &&& final(self).replicas@ == old(self).replicas@
                    &&& final(self).master_repl_offset == old(self).master_repl_offset
                    &&& eff.fanout is None
                    &&& models_of(eff.responses@) == seq![
                        ValueModel::SimpleString(ok_bytes()),
                    ]
                },
                CommandModel::Config(_, _) => {
                    &&& final(self).store@ == old(self).store@
                    &&& final(self).replicas@ == old(self).replicas@
                    &&& final(self).master_repl_offset == old(self).master_repl_offset
                    &&& eff.fanout is None
                    &&& models_of(eff.responses@) == seq![
                        ValueModel::SimpleString(ok_bytes()),
                    ]
                },
            },
    {
        match &msg.command {
            RedisCommand::Ping => Effects {
                responses: one_response(RedisValue::simple_string("PONG")),
                fanout: None,
                wait: None,
            },
            RedisCommand::Echo(x) => Effects {
                responses: one_response(
                    RedisValue::BulkString(Some(crate::command::copy_bulk(x))),
                ),
                fanout: None,
                wait: None,
            },
            RedisCommand::Get(k) => {
                match self.store.lookup(k.data.as_slice()) {
                    Some(item) => {
                        if item.expired_at == 0 || item.expired_at >= now_ms {
                            Effects {
                                responses: one_response(item.value),
                                fanout: None,
                                wait: None,
                            }
                        } else {
                            self.store.remove(k.data.as_slice());
                            Effects {
                                responses: one_response(RedisValue::null_bulk_string()),
                                fanout: None,
                                wait: None,
                            }
                        }
                    },
                    None => {
                        proof {
                            assert(old(self).store@.remove(k.data@) =~= old(self).store@);
                        }
                        Effects {
                            responses: one_response(RedisValue::null_bulk_string()),
                            fanout: None,
                            wait: None,
                        }
                    },
                }
            },
            RedisCommand::SetValue(k, v, px) => {
                let expired_at: u64 = match px {
                    None => 0,
                    Some(t) => if *t <= u64::MAX - now_ms {
                        now_ms + *t
                    } else {
                        u64::MAX
                    },
                };
                let key_copy: Vec<u8> = vstd::slice::slice_to_vec(k.data.as_slice());
                let item = StoreItem {
                    value: RedisValue::BulkString(Some(crate::command::copy_bulk(v))),
                    expired_at,
                };
                self.store.insert(key_copy, item);
                let fanout: Option<Vec<u8>> = if self.is_master() {
                    let frame = msg.command.to_value();
                    let bytes = frame.to_bytes();
                    let len = bytes.len();
                    if (len as u64) <= u64::MAX - self.master_repl_offset {
                        self.master_repl_offset = self.master_repl_offset + len as u64;
                    } else {
                        self.master_repl_offset = u64::MAX;
                    }
                    Some(bytes)
                } else {
                    None
                };
                Effects {
                    responses: one_response(RedisValue::simple_string("OK")),
                    fanout,
                    wait: None,
                }
            },
            RedisCommand::Type(k) => {
                let live = match self.store.lookup(k.data.as_slice()) {
                    Some(item) => item.expired_at == 0 || item.expired_at >= now_ms,
                    None => false,
                };
                let reply = if live {
                    RedisValue::simple_string("string")
                } else {
                    RedisValue::simple_string("none")
                };
                Effects { responses: one_response(reply), fanout: None, wait: None }
            },
            RedisCommand::Info(_) => {
                let role: &str = if self.is_master() {
                    "master"
                } else {
                    "slave"
                };
                let payload = info_payload(role, self.replica_id.as_slice(), self.master_repl_offset);
                Effects {
                    responses: one_response(bulk_of_vec(payload)),
                    fanout: None,
                    wait: None,
                }
            },
            RedisCommand::Replconf(sub, arg) => {
                let folded = crate::command::ascii_lower(sub.data.as_slice());
                if crate::command::eq_bytes(folded.as_slice(), getack_bytes().as_slice()) {
                    let reply_cmd = RedisCommand::Replconf(
                        crate::value::RedisBulkString { data: ack_bytes() },
                        crate::value::RedisBulkString { data: dec_digits(msg.offset) },
                    );
                    let reply = reply_cmd.to_value();
                    Effects { responses: one_response(reply), fanout: None, wait: None }
                } else if crate::command::eq_bytes(folded.as_slice(), ack_bytes().as_slice()) {
                    match &msg.client_id {
                        Some(id) => match parse_u64(arg.data.as_slice()) {
                            Some(off) => {
                                let id_copy: Vec<u8> = vstd::slice::slice_to_vec(id.as_slice());
                                self.replicas.insert(id_copy, off);
                            },
                            None => {},
                        },
                        None => {},
                    }
                    Effects { responses: no_responses(), fanout: None, wait: None }
                } else {
                    Effects {
                        responses: one_response(RedisValue::simple_string("OK")),
                        fanout: None,
                        wait: None,
                    }
                }
            },
            RedisCommand::Psync(_, _) => {
                match &msg.client_id {
                    Some(id) => {
                        let id_copy: Vec<u8> = vstd::slice::slice_to_vec(id.as_slice());
                        self.replicas.insert(id_copy, 0);
                        let line = RedisValue::SimpleString(
                            fullresync_payload(self.replica_id.as_slice()),
                        );
                        let blob = RedisValue::Rdb(baseline_blob());
                        Effects {
                            responses: two_responses(line, blob),
                            fanout: None,
                            wait: None,
                        }
                    },
                    None => Effects { responses: no_responses(), fanout: None, wait: None },
                }
            },
            RedisCommand::Wait(n, t) => Effects {
                responses: no_responses(),
                fanout: None,
                wait: Some(
                    WaitRequest {
                        min_replicas: *n,
                        timeout_ms: *t,
                        target_offset: self.master_repl_offset,
                        started_at_ms: now_ms,
                    },
                ),
            },
            RedisCommand::Select(_) => Effects {
                responses: one_response(RedisValue::simple_string("OK")),
                fanout: None,
                wait: None,
            },
            RedisCommand::Config(_, _) => Effects {
                responses: one_response(RedisValue::simple_string("OK")),
                fanout: None,
                wait: None,
            },
        }
    }
}

/// One unit of client work: a frame recognised as a command becomes an
/// executor message carrying the submitting connection's id. Client
/// messages carry offset zero; only the master uplink counts offsets.
pub fn client_step(command: RedisCommand, client_id: Vec<u8>) -> (msg: WorkerMessage)
    ensures
        msg.command == command,
        msg.client_id matches Some(id) && id@ == client_id@,
        msg.offset == 0,
{
    WorkerMessage { command, client_id: Some(client_id), offset: 0 }
}

/// How long a `WAIT` has been polling: the wall clock never runs
/// backwards, but a sample taken before the start counts as zero.
pub open spec fn spec_elapsed(started_at: u64, now: u64) -> u64 {
    if now >= started_at {
        (now - started_at) as u64
    } else {
        0
    }
}

impl Redis {
    /// One poll of an outstanding `WAIT`: answers with the number of
    /// replicas whose acknowledged offset has reached the target as soon
    /// as that number reaches the requested minimum, or once the timeout
    /// has elapsed; otherwise asks to be polled again. The answered count
    /// is the count observed at return time.
    pub fn wait_poll(&self, req: &WaitRequest, now_ms: u64) -> (r: Option<u64>)
        ensures
            match r {
                Some(k) => {
                    &&& k as int == spec_count_acked(self.replicas@, req.target_offset)
                    &&& (k >= req.min_replicas || spec_elapsed(req.started_at_ms, now_ms)
                        >= req.timeout_ms)
                },
                None => {
                    &&& spec_count_acked(self.replicas@, req.target_offset)
                        < req.min_replicas as int
                    &&& spec_elapsed(req.started_at_ms, now_ms) < req.timeout_ms
                },
            },
    {
        let count = self.replicas.count_acked(req.target_offset);
        let elapsed: u64 = if now_ms >= req.started_at_ms {
            now_ms - req.started_at_ms
        } else {
            0
        };
        if count >= req.min_replicas || elapsed >= req.timeout_ms {
            Some(count)
        } else {
            None
        }
    }
}

/// A `SET` with no expiry followed by a `GET` of the same key answers the
/// value that was set, whenever the `GET` runs: an entry whose expiry
/// instant is zero never expires, and the executor serializes the two
/// commands, so no expiration can come between them.
pub proof fn lemma_set_then_get(
    m: Map<Seq<u8>, StoreItemModel>,
    k: Seq<u8>,
    v: Seq<u8>,
    now_get: u64,
)
    ensures
        spec_live_value(
            m.insert(k, StoreItemModel { value: ValueModel::BulkString(Some(v)), expired_at: 0 }),
            k,
            now_get,
        ) == Some(ValueModel::BulkString(Some(v))),
{
}

/// A `SET k v PX t` at time `t0` answers the value to a `GET` strictly
/// before `t0 + t`, and the null bulk string to a `GET` strictly after.
/// The degenerate instant `t0 + t == 0` is left out: an expiry instant of
/// zero means no expiry at all.
pub proof fn lemma_set_px_then_get(
    m: Map<Seq<u8>, StoreItemModel>,
    k: Seq<u8>,
    v: Seq<u8>,
    t0: u64,
    px: u64,
    now_get: u64,
)
    requires
        1 <= t0 + px <= u64::MAX,
    ensures
        now_get < t0 + px ==> spec_live_value(
            m.insert(
                k,
                StoreItemModel {
                    value: ValueModel::BulkString(Some(v)),
                    expired_at: spec_expiry(t0, Some(px)),
                },
            ),
            k,
            now_get,
        ) == Some(ValueModel::BulkString(Some(v))),
        now_get > t0 + px ==> spec_live_value(
            m.insert(
                k,
                StoreItemModel {
                    value: ValueModel::BulkString(Some(v)),
                    expired_at: spec_expiry(t0, Some(px)),
                },
            ),
            k,
            now_get,
        ) is None,
{
}

/// Executor serialization: two `SET`s of the same key, applied in either
/// of the two orders the executor could take them in, leave the key
/// holding exactly one of the two values, never a mixture.
pub proof fn lemma_set_set_serializes(
    m: Map<Seq<u8>, StoreItemModel>,
    k: Seq<u8>,
    it1: StoreItemModel,
    it2: StoreItemModel,
)
    ensures
        m.insert(k, it1).insert(k, it2)[k] == it2,
        m.insert(k, it2).insert(k, it1)[k] == it1,
{
}

} // verus!
