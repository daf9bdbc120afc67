//! The replica side of replication: the outbound handshake state machine
//! (`PING`, `REPLCONF listening-port`, `REPLCONF capa`, `PSYNC`, then the
//! baseline snapshot), the live-apply step that tracks the processed
//! offset, and the law tying a replica's acknowledged offset to the prefix
//! of master writes its store reflects.

use vstd::prelude::*;

use crate::command::{spec_lower, CommandModel, RedisCommand};
use crate::redis::StoreItemModel;
use crate::value::{dec_digits, spec_dec_digits, RedisBulkString, RedisValue, ValueModel};
use crate::worker::{getack_name, sat_add_u64, WorkerMessage};

verus! {

/// The replication section advertised by `INFO`.
pub struct ReplicationInfo {
    pub role: String,
    pub replica_id: String,
}

impl ReplicationInfo {
    /// The `INFO` reply frame for this section, at the given master
    /// replication offset.
    pub fn to_value(&self, offset: u64) -> (r: RedisValue)
        ensures
            r@ == ValueModel::BulkString(
                Some(
                    crate::worker::spec_info_payload(
                        vstd::utf8::encode_utf8(self.role@),
                        vstd::utf8::encode_utf8(self.replica_id@),
                        offset,
                    ),
                ),
            ),
    {
        let replid = self.replica_id.as_str().as_bytes();
        let payload = crate::worker::info_payload(self.role.as_str(), replid, offset);
        crate::command::bulk_of_vec(payload)
    }
}

/// The handshake states, each named for the exchange it awaits: the reply
/// to `PING`, to `REPLCONF listening-port`, to `REPLCONF capa`, to
/// `PSYNC`, then the snapshot frame, and finally the live command stream.
#[derive(Debug, Clone, Copy, PartialEq, Eq, Structural)]
pub enum HandshakeState {
    Ping,
    Port,
    Capa,
    Psync,
    Snapshot,
    Live,
}

/// A reply that does not fit the handshake table; the handshake is fatal
/// to startup, so the caller aborts.
#[derive(Debug, Clone, Copy, PartialEq, Eq, Structural)]
pub struct HandshakeError {
    pub state: HandshakeState,
}

pub open spec fn ok_reply() -> Seq<u8> {
    seq![79u8, 75u8]
}

pub open spec fn fullresync_prefix() -> Seq<u8> {
    seq![70u8, 85u8, 76u8, 76u8, 82u8, 69u8, 83u8, 89u8, 78u8, 67u8]
}

/// What the handshake does in a state when a reply arrives: which state
/// comes next and what to send, or that the reply is unacceptable. The
/// `PING` reply may be any simple string; the two `REPLCONF` steps demand
/// `+OK`; `PSYNC` demands a simple string starting with `FULLRESYNC`; then
/// a snapshot frame leads to the live stream.
pub open spec fn spec_handshake_step(
    state: HandshakeState,
    reply: ValueModel,
    own_port: u32,
) -> Result<(HandshakeState, Option<CommandModel>), HandshakeError> {
    match state {
        HandshakeState::Ping => match reply {
            ValueModel::SimpleString(_) => Ok(
                (
                    HandshakeState::Port,
                    Some(
                        CommandModel::Replconf(
                            encode_listening_port(),
                            spec_dec_digits(own_port as nat),
                        ),
                    ),
                ),
            ),
            _ => Err(HandshakeError { state }),
        },
        HandshakeState::Port => match reply {
            ValueModel::SimpleString(s) => if s == ok_reply() {
                Ok(
                    (
                        HandshakeState::Capa,
                        Some(CommandModel::Replconf(encode_capa(), encode_psync2())),
                    ),
                )
            } else {
                Err(HandshakeError { state })
            },
            _ => Err(HandshakeError { state }),
        },
        HandshakeState::Capa => match reply {
            ValueModel::SimpleString(s) => if s == ok_reply() {
                Ok(
                    (
                        HandshakeState::Psync,
                        Some(CommandModel::Psync(encode_question(), encode_minus_one())),
                    ),
                )
            } else {
                Err(HandshakeError { state })
            },
            _ => Err(HandshakeError { state }),
        },
        HandshakeState::Psync => match reply {
            ValueModel::SimpleString(s) => if s.len() >= 10 && s.subrange(0, 10)
                == fullresync_prefix() {
                Ok((HandshakeState::Snapshot, None))
            } else {
                Err(HandshakeError { state })
            },
            _ => Err(HandshakeError { state }),
        },
        HandshakeState::Snapshot => match reply {
            ValueModel::Rdb(_) => Ok((HandshakeState::Live, None)),
            _ => Err(HandshakeError { state }),
        },
        HandshakeState::Live => Ok((HandshakeState::Live, None)),
    }
}

pub open spec fn encode_listening_port() -> Seq<u8> {
    seq![
        108u8,
        105u8,
        115u8,
        116u8,
        101u8,
        110u8,
        105u8,
        110u8,
        103u8,
        45u8,
        112u8,
        111u8,
        114u8,
        116u8,
    ]
}

pub open spec fn encode_capa() -> Seq<u8> {
    seq![99u8, 97u8, 112u8, 97u8]
}

pub open spec fn encode_psync2() -> Seq<u8> {
    seq![112u8, 115u8, 121u8, 110u8, 99u8, 50u8]
}

pub open spec fn encode_question() -> Seq<u8> {
    seq![63u8]
}

pub open spec fn encode_minus_one() -> Seq<u8> {
    seq![45u8, 49u8]
}

fn listening_port_bytes() -> (r: Vec<u8>)
    ensures
        r@ == encode_listening_port(),
{
    let r = vec![
        108u8,
        105u8,
        115u8,
        116u8,
        101u8,
        110u8,
        105u8,
        110u8,
        103u8,
        45u8,
        112u8,
        111u8,
        114u8,
        116u8,
    ];
    proof {
        assert(r@ =~= encode_listening_port());
    }
    r
}

fn capa_bytes() -> (r: Vec<u8>)
    ensures
        r@ == encode_capa(),
{
    let r = vec![99u8, 97u8, 112u8, 97u8];
    proof {
        assert(r@ =~= encode_capa());
    }
    r
}

fn psync2_bytes() -> (r: Vec<u8>)
    ensures
        r@ == encode_psync2(),
{
    let r = vec![112u8, 115u8, 121u8, 110u8, 99u8, 50u8];
    proof {
        assert(r@ =~= encode_psync2());
    }
    r
}

fn question_bytes() -> (r: Vec<u8>)
    ensures
        r@ == encode_question(),
{
    let r = vec![63u8];
    proof {
        assert(r@ =~= encode_question());
    }
    r
}

fn minus_one_bytes() -> (r: Vec<u8>)
    ensures
        r@ == encode_minus_one(),
{
    let r = vec![45u8, 49u8];
    proof {
        assert(r@ =~= encode_minus_one());
    }
    r
}

fn ok_reply_bytes() -> (r: Vec<u8>)
    ensures
        r@ == ok_reply(),
{
    let r = vec![79u8, 75u8];
    proof {
        assert(r@ =~= ok_reply());
    }
    r
}

fn fullresync_prefix_bytes() -> (r: Vec<u8>)
    ensures
        r@ == fullresync_prefix(),
{
    let r = vec![70u8, 85u8, 76u8, 76u8, 82u8, 69u8, 83u8, 89u8, 78u8, 67u8];
    proof {
        assert(r@ =~= fullresync_prefix());
    }
    r
}

/// The first command of the handshake, and the state awaiting its reply.
pub fn handshake_start() -> (r: (HandshakeState, RedisCommand))
    ensures
        r.0 == HandshakeState::Ping,
        r.1@ == CommandModel::Ping,
{
    (HandshakeState::Ping, RedisCommand::Ping)
}

/// Advances the handshake on one reply, as [`spec_handshake_step`] says.
pub fn handshake_step(state: HandshakeState, reply: &RedisValue, own_port: u32) -> (r: Result<
    (HandshakeState, Option<RedisCommand>),
    HandshakeError,
>)
    ensures
        match r {
            Ok(next) => {
                &&& spec_handshake_step(state, reply@, own_port) matches Ok(m)
                &&& m.0 == next.0
                &&& match (next.1, m.1) {
                    (Some(c), Some(cm)) => c@ == cm,
                    (None, None) => true,
                    _ => false,
                }
            },
            Err(e) => spec_handshake_step(state, reply@, own_port) == Err::<
                (HandshakeState, Option<CommandModel>),
                HandshakeError,
            >(e),
        },
{
    match state {
        HandshakeState::Ping => match reply {
            RedisValue::SimpleString(_) => {
                let cmd = RedisCommand::Replconf(
                    RedisBulkString { data: listening_port_bytes() },
                    RedisBulkString { data: dec_digits(own_port as u64) },
                );
                Ok((HandshakeState::Port, Some(cmd)))
            },
            _ => Err(HandshakeError { state }),
        },
        HandshakeState::Port => match reply {
            RedisValue::SimpleString(s) => {
                if crate::command::eq_bytes(s.as_slice(), ok_reply_bytes().as_slice()) {
                    let cmd = RedisCommand::Replconf(
                        RedisBulkString { data: capa_bytes() },
                        RedisBulkString { data: psync2_bytes() },
                    );
                    Ok((HandshakeState::Capa, Some(cmd)))
                } else {
                    Err(HandshakeError { state })
                }
            },
            _ => Err(HandshakeError { state }),
        },
        HandshakeState::Capa => match reply {
            RedisValue::SimpleString(s) => {
                if crate::command::eq_bytes(s.as_slice(), ok_reply_bytes().as_slice()) {
                    let cmd = RedisCommand::Psync(
                        RedisBulkString { data: question_bytes() },
                        RedisBulkString { data: minus_one_bytes() },
                    );
                    Ok((HandshakeState::Psync, Some(cmd)))
                } else {
                    Err(HandshakeError { state })
                }
            },
            _ => Err(HandshakeError { state }),
        },
        HandshakeState::Psync => match reply {
            RedisValue::SimpleString(s) => {
                if crate::command::starts_with(s.as_slice(), fullresync_prefix_bytes().as_slice()) {
                    Ok((HandshakeState::Snapshot, None))
                } else {
                    Err(HandshakeError { state })
                }
            },
            _ => Err(HandshakeError { state }),
        },
        HandshakeState::Snapshot => match reply {
            RedisValue::Rdb(_) => Ok((HandshakeState::Live, None)),
            _ => Err(HandshakeError { state }),
        },
        HandshakeState::Live => Ok((HandshakeState::Live, None)),
    }
}

/// One step of the live-apply loop: a frame of `frame_len` bytes holding
/// `command` arrived from the master. The processed offset advances by the
/// frame's length **before** the command is applied, and the executor
/// message carries the offset as it stood before this frame, with no
/// client id: the master uplink is not an ordinary client.
pub fn replica_step(processed_offset: u64, frame_len: u64, command: RedisCommand) -> (r: (
    WorkerMessage,
    u64,
))
    ensures
        r.0.command == command,
        r.0.client_id is None,
        r.0.offset == processed_offset,
        r.1 == sat_add_u64(processed_offset, frame_len as int),
{
    let new_offset: u64 = if frame_len <= u64::MAX - processed_offset {
        processed_offset + frame_len
    } else {
        u64::MAX
    };
    (WorkerMessage { command, client_id: None, offset: processed_offset }, new_offset)
}

/// Does a command from the master need a responder on the uplink? Only
/// `REPLCONF getack`, whose acknowledgment flows back to the master.
pub fn wants_ack_responder(command: &RedisCommand) -> (r: bool)
    ensures
        r <==> (command@ matches CommandModel::Replconf(sub, _) && spec_lower(sub)
            == getack_name()),
{
    match command {
        RedisCommand::Replconf(sub, _) => {
            let folded = crate::command::ascii_lower(sub.data.as_slice());
            let g = vec![103u8, 101u8, 116u8, 97u8, 99u8, 107u8];
            proof {
                assert(g@ =~= getack_name());
            }
            crate::command::eq_bytes(folded.as_slice(), g.as_slice())
        },
        _ => false,
    }
}

/// One replicated write: a key, the entry it stores, and the length in
/// bytes of its wire frame.
#[verifier::ext_equal]
pub ghost struct WriteRecord {
    pub key: Seq<u8>,
    pub item: StoreItemModel,
    pub frame_len: int,
}

/// The store that results from applying a log of writes in order,
/// starting from `m`: exactly what the executor's `SET` handler does to a
/// replica's store, one insert per write.
pub open spec fn apply_writes(
    m: Map<Seq<u8>, StoreItemModel>,
    log: Seq<WriteRecord>,
) -> Map<Seq<u8>, StoreItemModel>
    decreases log.len(),
{
    if log.len() == 0 {
        m
    } else {
        apply_writes(m, log.drop_last()).insert(log.last().key, log.last().item)
    }
}

/// The cumulative byte offset after the first `k` writes.
pub open spec fn cum_offset(log: Seq<WriteRecord>, k: int) -> int
    decreases k,
{
    if k <= 0 {
        0int
    } else {
        cum_offset(log, k - 1) + log[k - 1].frame_len
    }
}

/// Applying one more write is one insert.
pub proof fn lemma_apply_writes_push(
    m: Map<Seq<u8>, StoreItemModel>,
    log: Seq<WriteRecord>,
    w: WriteRecord,
)
    ensures
        apply_writes(m, log.push(w)) == apply_writes(m, log).insert(w.key, w.item),
{
    assert(log.push(w).drop_last() =~= log);
    assert(log.push(w).last() == w);
}

/// Offsets grow along the log when every frame has at least one byte.
pub proof fn lemma_cum_offset_increases(log: Seq<WriteRecord>, i: int, k: int)
    requires
        forall|j: int| 0 <= j < log.len() ==> #[trigger] log[j].frame_len >= 1,
        0 <= i <= k <= log.len(),
    ensures
        cum_offset(log, i) + (k - i) <= cum_offset(log, k),
    decreases k - i,
{
    if i < k {
        lemma_cum_offset_increases(log, i, k - 1);
    }
}

/// A write whose effect survives to the end of the prefix is in the store
/// the prefix produces: applying the first `k` writes leaves `log[i]`'s
/// entry under its key whenever no later write in the prefix touches that
/// key.
pub proof fn lemma_prefix_write_applied(
    m: Map<Seq<u8>, StoreItemModel>,
    log: Seq<WriteRecord>,
    k: int,
    i: int,
)
    requires
        0 <= i < k <= log.len(),
        forall|j: int| i < j < k ==> (#[trigger] log[j].key) != log[i].key,
    ensures
        apply_writes(m, log.take(k)).contains_key(log[i].key),
        apply_writes(m, log.take(k))[log[i].key] == log[i].item,
    decreases k,
{
    assert(log.take(k).drop_last() =~= log.take(k - 1));
    assert(log.take(k).last() == log[k - 1]);
    if i == k - 1 {
        assert(apply_writes(m, log.take(k)) == apply_writes(m, log.take(k - 1)).insert(
            log[i].key,
            log[i].item,
        ));
    } else {
        lemma_prefix_write_applied(m, log, k - 1, i);
        assert(log[k - 1].key != log[i].key);
    }
}

/// Replication prefix law: a replica that has acknowledged offset
/// `cum_offset(log, k)` has applied exactly the first `k` master writes,
/// so its store holds the effect of every write whose cumulative offset
/// is within the acknowledged offset - the entry itself when no later
/// acknowledged write overwrote the key, and the overwriting entry
/// otherwise.
pub proof fn lemma_ack_covers_prefix(
    m: Map<Seq<u8>, StoreItemModel>,
    log: Seq<WriteRecord>,
    k: int,
    i: int,
)
    requires
        forall|j: int| 0 <= j < log.len() ==> #[trigger] log[j].frame_len >= 1,
        0 <= k <= log.len(),
        0 <= i < log.len(),
        cum_offset(log, i + 1) <= cum_offset(log, k),
        forall|j: int| i < j < k ==> (#[trigger] log[j].key) != log[i].key,
    ensures
        i < k,
        apply_writes(m, log.take(k)).contains_key(log[i].key),
        apply_writes(m, log.take(k))[log[i].key] == log[i].item,
{
    if i + 1 > k {
        lemma_cum_offset_increases(log, k, i + 1);
        assert(cum_offset(log, k) + (i + 1 - k) <= cum_offset(log, i + 1));
        assert(false);
    }
    lemma_prefix_write_applied(m, log, k, i);
}

} // verus!
