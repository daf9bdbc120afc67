//! Typed commands and their two conversions: a command serializes to an
//! array of bulk strings, and an array frame received from the wire is
//! recognised as a command. Case folding applies only to command names and
//! replconf subkeys; keys and values are opaque bytes.

use vstd::prelude::*;
use vstd::string::StringSliceAdditionalSpecFns;

use crate::parser::{is_digit, scan_val, lemma_scan_val_monotone};
use crate::value::{models_of, spec_dec_digits, dec_digits};
use crate::value::{RedisBulkString, RedisValue, ValueModel};

verus! {

/// A command, as dispatched by the executor.
#[derive(Debug, Clone, PartialEq, Eq)]
pub enum RedisCommand {
    Ping,
    Echo(RedisBulkString),
    Get(RedisBulkString),
    SetValue(RedisBulkString, RedisBulkString, Option<u64>),
    Type(RedisBulkString),
    Replconf(RedisBulkString, RedisBulkString),
    Info(RedisBulkString),
    Psync(RedisBulkString, RedisBulkString),
    Wait(u64, u64),
    Select(u64),
    Config(RedisBulkString, RedisBulkString),
}

/// The mathematical model of a command: the same shape over byte sequences.
#[verifier::ext_equal]
pub ghost enum CommandModel {
    Ping,
    Echo(Seq<u8>),
    Get(Seq<u8>),
    SetValue(Seq<u8>, Seq<u8>, Option<u64>),
    Type(Seq<u8>),
    Replconf(Seq<u8>, Seq<u8>),
    Info(Seq<u8>),
    Psync(Seq<u8>, Seq<u8>),
    Wait(u64, u64),
    Select(u64),
    Config(Seq<u8>, Seq<u8>),
}

impl View for RedisCommand {
    type V = CommandModel;

    open spec fn view(&self) -> CommandModel {
        match *self {
            RedisCommand::Ping => CommandModel::Ping,
            RedisCommand::Echo(x) => CommandModel::Echo(x@),
            RedisCommand::Get(k) => CommandModel::Get(k@),
            RedisCommand::SetValue(k, v, px) => CommandModel::SetValue(k@, v@, px),
            RedisCommand::Type(k) => CommandModel::Type(k@),
            RedisCommand::Replconf(a, b) => CommandModel::Replconf(a@, b@),
            RedisCommand::Info(x) => CommandModel::Info(x@),
            RedisCommand::Psync(a, b) => CommandModel::Psync(a@, b@),
            RedisCommand::Wait(n, t) => CommandModel::Wait(n, t),
            RedisCommand::Select(n) => CommandModel::Select(n),
            RedisCommand::Config(a, b) => CommandModel::Config(a@, b@),
        }
    }
}

/// Why a frame could not be read as a command.
#[derive(Debug, Clone, PartialEq, Eq)]
pub enum RedisCommandError {
    Malform(String),
    ParsingError(crate::parser::MessageParserStateError),
    DismatchedArgsNum(usize, usize),
    UnknownCommand(Vec<u8>),
    IlleagalArg,
}

/// The spec-level shape of a command error.
#[verifier::ext_equal]
pub ghost enum CommandIssue {
    Malformed,
    WrongArgCount(int, int),
    UnknownName(Seq<u8>),
    BadArgument,
}

/// ASCII lower case of one byte.
pub open spec fn lower_byte(c: u8) -> u8 {
    if 65 <= c <= 90 {
        (c + 32) as u8
    } else {
        c
    }
}

/// ASCII lower case of a byte sequence.
pub open spec fn spec_lower(s: Seq<u8>) -> Seq<u8> {
    Seq::new(s.len(), |i: int| lower_byte(s[i]))
}

/// ASCII lower case, byte for byte.
pub fn ascii_lower(s: &[u8]) -> (r: Vec<u8>)
    ensures
        r@ == spec_lower(s@),
{
    let mut out: Vec<u8> = Vec::new();
    let mut i: usize = 0;
    while i < s.len()
        invariant
            i <= s@.len(),
            out@ == spec_lower(s@).take(i as int),
        decreases s@.len() - i,
    {
        let c = s[i];
        if 65 <= c && c <= 90 {
            out.push(c + 32);
        } else {
            out.push(c);
        }
        proof {
            assert(spec_lower(s@).take(i + 1) =~= spec_lower(s@).take(i as int).push(
                lower_byte(s@[i as int]),
            ));
        }
        i = i + 1;
    }
    proof {
        assert(spec_lower(s@).take(s@.len() as int) =~= spec_lower(s@));
    }
    out
}

/// Are two byte slices equal?
pub fn eq_bytes(a: &[u8], b: &[u8]) -> (r: bool)
    ensures
        r <==> a@ == b@,
{
    if a.len() != b.len() {
        proof {
            assert(a@.len() != b@.len());
        }
        return false;
    }
    let mut i: usize = 0;
    while i < a.len()
        invariant
            i <= a@.len(),
            a@.len() == b@.len(),
            forall|k: int| 0 <= k < i ==> a@[k] == b@[k],
        decreases a@.len() - i,
    {
        if a[i] != b[i] {
            return false;
        }
        i = i + 1;
    }
    proof {
        assert(a@ =~= b@);
    }
    true
}

/// Does `a` begin with `prefix`?
pub fn starts_with(a: &[u8], prefix: &[u8]) -> (r: bool)
    ensures
        r <==> (a@.len() >= prefix@.len() && a@.subrange(0, prefix@.len() as int) == prefix@),
{
    if a.len() < prefix.len() {
        return false;
    }
    let mut i: usize = 0;
    while i < prefix.len()
        invariant
            i <= prefix@.len() <= a@.len(),
            forall|k: int| 0 <= k < i ==> a@[k] == prefix@[k],
        decreases prefix@.len() - i,
    {
        if a[i] != prefix[i] {
            proof {
                assert(a@.subrange(0, prefix@.len() as int)[i as int] == a@[i as int]);
            }
            return false;
        }
        i = i + 1;
    }
    proof {
        assert(a@.subrange(0, prefix@.len() as int) =~= prefix@);
    }
    true
}

/// The value of a decimal byte string: defined when it is non-empty, all
/// digits, and fits in a `u64`.
pub open spec fn spec_parse_u64(s: Seq<u8>) -> Option<u64> {
    if s.len() >= 1 && (forall|k: int| 0 <= k < s.len() ==> is_digit(#[trigger] s[k])) && scan_val(
        0,
        s,
    ) <= u64::MAX as int {
        Some(scan_val(0, s) as u64)
    } else {
        None
    }
}

/// Reads a decimal `u64`; anything non-numeric, empty, or too large is
/// `None`.
pub fn parse_u64(s: &[u8]) -> (r: Option<u64>)
    ensures
        r == spec_parse_u64(s@),
{
    if s.len() == 0 {
        return None;
    }
    let mut acc: u64 = 0;
    let mut i: usize = 0;
    proof {
        assert(s@.skip(0) =~= s@);
    }
    while i < s.len()
        invariant
            i <= s@.len(),
            s@.len() >= 1,
            forall|k: int| 0 <= k < i ==> is_digit(#[trigger] s@[k]),
            scan_val(acc as int, s@.skip(i as int)) == scan_val(0, s@),
        decreases s@.len() - i,
    {
        let c = s[i];
        if !(48 <= c && c <= 57) {
            return None;
        }
        let d = (c - 48) as u64;
        let limit = (u64::MAX - d) / 10;
        proof {
            vstd::arithmetic::div_mod::lemma_fundamental_div_mod(u64::MAX as int - d as int, 10);
            vstd::arithmetic::div_mod::lemma_mod_division_less_than_divisor(
                u64::MAX as int - d as int,
                10,
            );
            assert(acc > limit ==> acc * 10 + d > u64::MAX) by {
                if acc > limit {
                    assert(acc as int * 10 >= (limit as int + 1) * 10) by (nonlinear_arith)
                        requires
                            acc as int >= limit as int + 1,
                    ;
                }
            }
            assert(acc <= limit ==> acc * 10 + d <= u64::MAX) by {
                if acc <= limit {
                    assert(acc as int * 10 <= limit as int * 10) by (nonlinear_arith)
                        requires
                            acc as int <= limit as int,
                    ;
                }
            }
            assert(s@.skip(i as int)[0] == s@[i as int]);
            assert(s@.skip(i as int).drop_first() =~= s@.skip(i + 1));
            assert(scan_val(acc as int, s@.skip(i as int)) == scan_val(
                acc as int * 10 + (c - 48),
                s@.skip(i + 1),
            ));
        }
        if acc > limit {
            proof {
                if forall|k: int| 0 <= k < s@.len() ==> is_digit(#[trigger] s@[k]) {
                    assert forall|k: int| 0 <= k < s@.skip(i + 1).len() implies is_digit(
                        #[trigger] s@.skip(i + 1)[k],
                    ) by {
                        assert(s@.skip(i + 1)[k] == s@[k + i + 1]);
                    }
                    lemma_scan_val_monotone(acc as int * 10 + (c - 48), s@.skip(i + 1));
                    assert(scan_val(0, s@) > u64::MAX as int);
                }
            }
            return None;
        }
        acc = acc * 10 + d;
        i = i + 1;
    }
    proof {
        assert(s@.skip(s@.len() as int) =~= Seq::<u8>::empty());
        assert(scan_val(acc as int, Seq::<u8>::empty()) == acc as int);
    }
    Some(acc)
}

/// The wire names of the commands, lower case.
pub open spec fn name_ping() -> Seq<u8> {
    seq![112u8, 105u8, 110u8, 103u8]
}

pub open spec fn name_echo() -> Seq<u8> {
    seq![101u8, 99u8, 104u8, 111u8]
}

pub open spec fn name_get() -> Seq<u8> {
    seq![103u8, 101u8, 116u8]
}

pub open spec fn name_set() -> Seq<u8> {
    seq![115u8, 101u8, 116u8]
}

pub open spec fn name_type() -> Seq<u8> {
    seq![116u8, 121u8, 112u8, 101u8]
}

pub open spec fn name_info() -> Seq<u8> {
    seq![105u8, 110u8, 102u8, 111u8]
}

pub open spec fn name_replconf() -> Seq<u8> {
    seq![114u8, 101u8, 112u8, 108u8, 99u8, 111u8, 110u8, 102u8]
}

pub open spec fn name_psync() -> Seq<u8> {
    seq![112u8, 115u8, 121u8, 110u8, 99u8]
}

pub open spec fn name_wait() -> Seq<u8> {
    seq![119u8, 97u8, 105u8, 116u8]
}

pub open spec fn name_select() -> Seq<u8> {
    seq![115u8, 101u8, 108u8, 101u8, 99u8, 116u8]
}

pub open spec fn name_config() -> Seq<u8> {
    seq![99u8, 111u8, 110u8, 102u8, 105u8, 103u8]
}

pub open spec fn name_px() -> Seq<u8> {
    seq![112u8, 120u8]
}

fn ping_bytes() -> (r: Vec<u8>)
    ensures
        r@ == name_ping(),
{
    let r = vec![112u8, 105u8, 110u8, 103u8];
    proof {
        assert(r@ =~= name_ping());
    }
    r
}

fn echo_bytes() -> (r: Vec<u8>)
    ensures
        r@ == name_echo(),
{
    let r = vec![101u8, 99u8, 104u8, 111u8];
    proof {
        assert(r@ =~= name_echo());
    }
    r
}

fn get_bytes() -> (r: Vec<u8>)
    ensures
        r@ == name_get(),
{
    let r = vec![103u8, 101u8, 116u8];
    proof {
        assert(r@ =~= name_get());
    }
    r
}

fn set_bytes() -> (r: Vec<u8>)
    ensures
        r@ == name_set(),
{
    let r = vec![115u8, 101u8, 116u8];
    proof {
        assert(r@ =~= name_set());
    }
    r
}

fn type_bytes() -> (r: Vec<u8>)
    ensures
        r@ == name_type(),
{
    let r = vec![116u8, 121u8, 112u8, 101u8];
    proof {
        assert(r@ =~= name_type());
    }
    r
}

fn info_bytes() -> (r: Vec<u8>)
    ensures
        r@ == name_info(),
{
    let r = vec![105u8, 110u8, 102u8, 111u8];
    proof {
        assert(r@ =~= name_info());
    }
    r
}

fn replconf_bytes() -> (r: Vec<u8>)
    ensures
        r@ == name_replconf(),
{
    let r = vec![114u8, 101u8, 112u8, 108u8, 99u8, 111u8, 110u8, 102u8];
    proof {
        assert(r@ =~= name_replconf());
    }
    r
}

fn psync_bytes() -> (r: Vec<u8>)
    ensures
        r@ == name_psync(),
{
    let r = vec![112u8, 115u8, 121u8, 110u8, 99u8];
    proof {
        assert(r@ =~= name_psync());
    }
    r
}

fn wait_bytes() -> (r: Vec<u8>)
    ensures
        r@ == name_wait(),
{
    let r = vec![119u8, 97u8, 105u8, 116u8];
    proof {
        assert(r@ =~= name_wait());
    }
    r
}

fn select_bytes() -> (r: Vec<u8>)
    ensures
        r@ == name_select(),
{
    let r = vec![115u8, 101u8, 108u8, 101u8, 99u8, 116u8];
    proof {
        assert(r@ =~= name_select());
    }
    r
}

fn config_bytes() -> (r: Vec<u8>)
    ensures
        r@ == name_config(),
{
    let r = vec![99u8, 111u8, 110u8, 102u8, 105u8, 103u8];
    proof {
        assert(r@ =~= name_config());
    }
    r
}

fn px_bytes() -> (r: Vec<u8>)
    ensures
        r@ == name_px(),
{
    let r = vec![112u8, 120u8];
    proof {
        assert(r@ =~= name_px());
    }
    r
}

/// A non-null bulk string model.
pub open spec fn spec_bulk(s: Seq<u8>) -> ValueModel {
    ValueModel::BulkString(Some(s))
}

/// A bulk string value owning `data`.
pub fn bulk_of_vec(data: Vec<u8>) -> (r: RedisValue)
    ensures
        r@ == spec_bulk(data@),
{
    RedisValue::BulkString(Some(RedisBulkString { data }))
}

/// A copy of a bulk string payload.
pub fn copy_bulk(b: &RedisBulkString) -> (r: RedisBulkString)
    ensures
        r@ == b@,
{
    RedisBulkString { data: vstd::slice::slice_to_vec(b.data.as_slice()) }
}

/// The array-of-bulk-strings encoding of a command: its lower-case name
/// followed by its arguments; a `SET` with an expiry carries `px` and the
/// expiry's decimal digits; `WAIT` and `SELECT` carry their numbers as
/// decimal digits.
pub open spec fn spec_command_value(c: CommandModel) -> ValueModel {
    match c {
        CommandModel::Ping => ValueModel::Array(seq![spec_bulk(name_ping())]),
        CommandModel::Echo(x) => ValueModel::Array(seq![spec_bulk(name_echo()), spec_bulk(x)]),
        CommandModel::Get(k) => ValueModel::Array(seq![spec_bulk(name_get()), spec_bulk(k)]),
        CommandModel::SetValue(k, v, px) => match px {
            None => ValueModel::Array(
                seq![spec_bulk(name_set()), spec_bulk(k), spec_bulk(v)],
            ),
            Some(t) => ValueModel::Array(
                seq![
                    spec_bulk(name_set()),
                    spec_bulk(k),
                    spec_bulk(v),
                    spec_bulk(name_px()),
                    spec_bulk(spec_dec_digits(t as nat)),
                ],
            ),
        },
        CommandModel::Type(k) => ValueModel::Array(seq![spec_bulk(name_type()), spec_bulk(k)]),
        CommandModel::Info(x) => ValueModel::Array(seq![spec_bulk(name_info()), spec_bulk(x)]),
        CommandModel::Replconf(a, b) => ValueModel::Array(
            seq![spec_bulk(name_replconf()), spec_bulk(a), spec_bulk(b)],
        ),
        CommandModel::Psync(a, b) => ValueModel::Array(
            seq![spec_bulk(name_psync()), spec_bulk(a), spec_bulk(b)],
        ),
        CommandModel::Wait(n, t) => ValueModel::Array(
            seq![
                spec_bulk(name_wait()),
                spec_bulk(spec_dec_digits(n as nat)),
                spec_bulk(spec_dec_digits(t as nat)),
            ],
        ),
        CommandModel::Select(n) => ValueModel::Array(
            seq![spec_bulk(name_select()), spec_bulk(spec_dec_digits(n as nat))],
        ),
        CommandModel::Config(a, b) => ValueModel::Array(
            seq![spec_bulk(name_config()), spec_bulk(a), spec_bulk(b)],
        ),
    }
}

impl RedisCommand {
    /// A `REPLCONF` command with two arguments.
    pub fn replconf(a1: &str, a2: &str) -> (r: RedisCommand)
        ensures
            r@ == CommandModel::Replconf(a1.spec_bytes(), a2.spec_bytes()),
    {
        RedisCommand::Replconf(
            RedisBulkString { data: vstd::slice::slice_to_vec(a1.as_bytes()) },
            RedisBulkString { data: vstd::slice::slice_to_vec(a2.as_bytes()) },
        )
    }

    /// A `PSYNC` command with a replication id and an offset argument.
    pub fn pasync(a1: &str, a2: &str) -> (r: RedisCommand)
        ensures
            r@ == CommandModel::Psync(a1.spec_bytes(), a2.spec_bytes()),
    {
        RedisCommand::Psync(
            RedisBulkString { data: vstd::slice::slice_to_vec(a1.as_bytes()) },
            RedisBulkString { data: vstd::slice::slice_to_vec(a2.as_bytes()) },
        )
    }

    /// The command as an array of bulk strings, ready to serialize.
    pub fn to_value(&self) -> (r: RedisValue)
        ensures
            r@ == spec_command_value(self@),
    {
        let mut items: Vec<RedisValue> = Vec::new();
        match self {
            RedisCommand::Ping => {
                items.push(bulk_of_vec(ping_bytes()));
            },
            RedisCommand::Echo(x) => {
                items.push(bulk_of_vec(echo_bytes()));
                items.push(RedisValue::BulkString(Some(copy_bulk(x))));
            },
            RedisCommand::Get(k) => {
                items.push(bulk_of_vec(get_bytes()));
                items.push(RedisValue::BulkString(Some(copy_bulk(k))));
            },
            RedisCommand::SetValue(k, v, px) => {
                items.push(bulk_of_vec(set_bytes()));
                items.push(RedisValue::BulkString(Some(copy_bulk(k))));
                items.push(RedisValue::BulkString(Some(copy_bulk(v))));
                match px {
                    None => {},
                    Some(t) => {
                        items.push(bulk_of_vec(px_bytes()));
                        items.push(bulk_of_vec(dec_digits(*t)));
                    },
                }
            },
            RedisCommand::Type(k) => {
                items.push(bulk_of_vec(type_bytes()));
                items.push(RedisValue::BulkString(Some(copy_bulk(k))));
            },
            RedisCommand::Info(x) => {
                items.push(bulk_of_vec(info_bytes()));
                items.push(RedisValue::BulkString(Some(copy_bulk(x))));
            },
            RedisCommand::Replconf(a, b) => {
                items.push(bulk_of_vec(replconf_bytes()));
                items.push(RedisValue::BulkString(Some(copy_bulk(a))));
                items.push(RedisValue::BulkString(Some(copy_bulk(b))));
            },
            RedisCommand::Psync(a, b) => {
                items.push(bulk_of_vec(psync_bytes()));
                items.push(RedisValue::BulkString(Some(copy_bulk(a))));
                items.push(RedisValue::BulkString(Some(copy_bulk(b))));
            },
            RedisCommand::Wait(n, t) => {
                items.push(bulk_of_vec(wait_bytes()));
                items.push(bulk_of_vec(dec_digits(*n)));
                items.push(bulk_of_vec(dec_digits(*t)));
            },
            RedisCommand::Select(n) => {
                items.push(bulk_of_vec(select_bytes()));
                items.push(bulk_of_vec(dec_digits(*n)));
            },
            RedisCommand::Config(a, b) => {
                items.push(bulk_of_vec(config_bytes()));
                items.push(RedisValue::BulkString(Some(copy_bulk(a))));
                items.push(RedisValue::BulkString(Some(copy_bulk(b))));
            },
        }
        proof {
            crate::value::lemma_models_of_len(items@);
            assert(models_of(items@) =~= spec_command_value(self@)->Array_0);
        }
        RedisValue::Array(items)
    }
}

/// The payload of a non-null bulk string argument, if the value is one.
pub open spec fn spec_bulk_arg(v: ValueModel) -> Option<Seq<u8>> {
    match v {
        ValueModel::BulkString(ob) => ob,
        _ => None,
    }
}

/// Recognises a command from its case-folded name and the full argument
/// array (`args[0]` is the name itself). `PING` ignores extra arguments and
/// `REPLCONF` ignores arguments past its first two, as the wire protocol
/// tolerates; every other command checks its argument count exactly.
pub open spec fn spec_dispatch(name: Seq<u8>, args: Seq<ValueModel>) -> Result<
    CommandModel,
    CommandIssue,
> {
    let n = args.len() - 1;
    if name == name_ping() {
        Ok(CommandModel::Ping)
    } else if name == name_echo() {
        if n != 1 {
            Err(CommandIssue::WrongArgCount(1, n))
        } else {
            match spec_bulk_arg(args[1]) {
                Some(x) => Ok(CommandModel::Echo(x)),
                None => Err(CommandIssue::BadArgument),
            }
        }
    } else if name == name_get() {
        if n != 1 {
            Err(CommandIssue::WrongArgCount(1, n))
        } else {
            match spec_bulk_arg(args[1]) {
                Some(k) => Ok(CommandModel::Get(k)),
                None => Err(CommandIssue::BadArgument),
            }
        }
    } else if name == name_set() {
        if n == 2 {
            match (spec_bulk_arg(args[1]), spec_bulk_arg(args[2])) {
                (Some(k), Some(v)) => Ok(CommandModel::SetValue(k, v, None)),
                _ => Err(CommandIssue::BadArgument),
            }
        } else if n == 4 {
            match (spec_bulk_arg(args[1]), spec_bulk_arg(args[2]), spec_bulk_arg(args[4])) {
                (Some(k), Some(v), Some(px)) => match spec_parse_u64(px) {
                    Some(t) => Ok(CommandModel::SetValue(k, v, Some(t))),
                    None => Err(CommandIssue::BadArgument),
                },
                _ => Err(CommandIssue::BadArgument),
            }
        } else {
            Err(CommandIssue::WrongArgCount(4, n))
        }
    } else if name == name_type() {
        if n != 1 {
            Err(CommandIssue::WrongArgCount(1, n))
        } else {
            match spec_bulk_arg(args[1]) {
                Some(k) => Ok(CommandModel::Type(k)),
                None => Err(CommandIssue::BadArgument),
            }
        }
    } else if name == name_info() {
        if n != 1 {
            Err(CommandIssue::WrongArgCount(1, n))
        } else {
            match spec_bulk_arg(args[1]) {
                Some(x) => Ok(CommandModel::Info(x)),
                None => Err(CommandIssue::BadArgument),
            }
        }
    } else if name == name_replconf() {
        if n < 2 {
            Err(CommandIssue::WrongArgCount(2, n))
        } else {
            match (spec_bulk_arg(args[1]), spec_bulk_arg(args[2])) {
                (Some(a), Some(b)) => Ok(CommandModel::Replconf(a, b)),
                _ => Err(CommandIssue::BadArgument),
            }
        }
    } else if name == name_psync() {
        if n != 2 {
            Err(CommandIssue::WrongArgCount(2, n))
        } else {
            match (spec_bulk_arg(args[1]), spec_bulk_arg(args[2])) {
                (Some(a), Some(b)) => Ok(CommandModel::Psync(a, b)),
                _ => Err(CommandIssue::BadArgument),
            }
        }
    } else if name == name_wait() {
        if n != 2 {
            Err(CommandIssue::WrongArgCount(2, n))
        } else {
            match (spec_bulk_arg(args[1]), spec_bulk_arg(args[2])) {
                (Some(a), Some(b)) => match (spec_parse_u64(a), spec_parse_u64(b)) {
                    (Some(x), Some(y)) => Ok(CommandModel::Wait(x, y)),
                    _ => Err(CommandIssue::BadArgument),
                },
                _ => Err(CommandIssue::BadArgument),
            }
        }
    } else if name == name_select() {
        if n != 1 {
            Err(CommandIssue::WrongArgCount(1, n))
        } else {
            match spec_bulk_arg(args[1]) {
                Some(a) => match spec_parse_u64(a) {
                    Some(x) => Ok(CommandModel::Select(x)),
                    None => Err(CommandIssue::BadArgument),
                },
                None => Err(CommandIssue::BadArgument),
            }
        }
    } else if name == name_config() {
        if n != 2 {
            Err(CommandIssue::WrongArgCount(2, n))
        } else {
            match (spec_bulk_arg(args[1]), spec_bulk_arg(args[2])) {
                (Some(a), Some(b)) => Ok(CommandModel::Config(a, b)),
                _ => Err(CommandIssue::BadArgument),
            }
        }
    } else {
        Err(CommandIssue::UnknownName(name))
    }
}

/// Recognises a command in a frame: the frame must be an array whose first
/// element is a bulk string naming the command, case-insensitively.
pub open spec fn spec_command_of(v: ValueModel) -> Result<CommandModel, CommandIssue> {
    match v {
        ValueModel::Array(args) => {
            if args.len() < 1 {
                Err(CommandIssue::Malformed)
            } else {
                match spec_bulk_arg(args[0]) {
                    Some(name) => spec_dispatch(spec_lower(name), args),
                    None => Err(CommandIssue::Malformed),
                }
            }
        },
        _ => Err(CommandIssue::Malformed),
    }
}

/// Reads a bulk-string argument, or fails.
fn get_bulk_arg(args: &Vec<RedisValue>, i: usize) -> (r: Result<RedisBulkString, RedisCommandError>)
    requires
        i < args@.len(),
    ensures
        match r {
            Ok(b) => spec_bulk_arg(args@[i as int]@) == Some(b@),
            Err(e) => spec_bulk_arg(args@[i as int]@) is None && e
                == RedisCommandError::IlleagalArg,
        },
{
    match &args[i] {
        RedisValue::BulkString(ob) => match ob {
            Some(b) => Ok(copy_bulk(b)),
            None => Err(RedisCommandError::IlleagalArg),
        },
        _ => Err(RedisCommandError::IlleagalArg),
    }
}

impl RedisCommand {
    /// Recognises a command in a frame, as [`spec_command_of`] does: errors
    /// name the failure exactly.
    pub fn try_from_value(v: &RedisValue) -> (r: Result<RedisCommand, RedisCommandError>)
        ensures
            match r {
                Ok(c) => spec_command_of(v@) == Ok::<CommandModel, CommandIssue>(c@),
                Err(e) => match e {
                    RedisCommandError::Malform(_) => spec_command_of(v@) == Err::<
                        CommandModel,
                        CommandIssue,
                    >(CommandIssue::Malformed),
                    RedisCommandError::DismatchedArgsNum(a, b) => spec_command_of(v@) == Err::<
                        CommandModel,
                        CommandIssue,
                    >(CommandIssue::WrongArgCount(a as int, b as int)),
                    RedisCommandError::UnknownCommand(name) => spec_command_of(v@) == Err::<
                        CommandModel,
                        CommandIssue,
                    >(CommandIssue::UnknownName(name@)),
                    RedisCommandError::IlleagalArg => spec_command_of(v@) == Err::<
                        CommandModel,
                        CommandIssue,
                    >(CommandIssue::BadArgument),
                    RedisCommandError::ParsingError(_) => false,
                },
            },
    {
        let args = match v {
            RedisValue::Array(args) => args,
            _ => {
                return Err(
                    RedisCommandError::Malform("a command must be an array frame".to_owned()),
                );
            },
        };
        proof {
            crate::value::lemma_models_of_len(args@);
        }
        if args.len() < 1 {
            return Err(RedisCommandError::Malform("a command cannot be empty".to_owned()));
        }
        let name_bs = match &args[0] {
            RedisValue::BulkString(ob) => match ob {
                Some(b) => b,
                None => {
                    return Err(
                        RedisCommandError::Malform(
                            "a command name must be a bulk string".to_owned(),
                        ),
                    );
                },
            },
            _ => {
                return Err(
                    RedisCommandError::Malform("a command name must be a bulk string".to_owned()),
                );
            },
        };
        let lname = ascii_lower(name_bs.data.as_slice());
        let ghost margs = models_of(args@);
        let ghost issue = spec_dispatch(spec_lower(name_bs@), margs);
        let n = args.len() - 1;
        if eq_bytes(lname.as_slice(), ping_bytes().as_slice()) {
            Ok(RedisCommand::Ping)
        } else if eq_bytes(lname.as_slice(), echo_bytes().as_slice()) {
            if n != 1 {
                return Err(RedisCommandError::DismatchedArgsNum(1, n));
            }
            let x = get_bulk_arg(args, 1)?;
            Ok(RedisCommand::Echo(x))
        } else if eq_bytes(lname.as_slice(), get_bytes().as_slice()) {
            if n != 1 {
                return Err(RedisCommandError::DismatchedArgsNum(1, n));
            }
            let k = get_bulk_arg(args, 1)?;
            Ok(RedisCommand::Get(k))
        } else if eq_bytes(lname.as_slice(), set_bytes().as_slice()) {
            if n == 2 {
                let k = get_bulk_arg(args, 1)?;
                let val = get_bulk_arg(args, 2)?;
                Ok(RedisCommand::SetValue(k, val, None))
            } else if n == 4 {
                let k = get_bulk_arg(args, 1)?;
                let val = get_bulk_arg(args, 2)?;
                let px = get_bulk_arg(args, 4)?;
                match parse_u64(px.data.as_slice()) {
                    Some(t) => Ok(RedisCommand::SetValue(k, val, Some(t))),
                    None => Err(RedisCommandError::IlleagalArg),
                }
            } else {
                Err(RedisCommandError::DismatchedArgsNum(4, n))
            }
        } else if eq_bytes(lname.as_slice(), type_bytes().as_slice()) {
            if n != 1 {
                return Err(RedisCommandError::DismatchedArgsNum(1, n));
            }
            let k = get_bulk_arg(args, 1)?;
            Ok(RedisCommand::Type(k))
        } else if eq_bytes(lname.as_slice(), info_bytes().as_slice()) {
            if n != 1 {
                return Err(RedisCommandError::DismatchedArgsNum(1, n));
            }
            let x = get_bulk_arg(args, 1)?;
            Ok(RedisCommand::Info(x))
        } else if eq_bytes(lname.as_slice(), replconf_bytes().as_slice()) {
            if n < 2 {
                return Err(RedisCommandError::DismatchedArgsNum(2, n));
            }
            let a = get_bulk_arg(args, 1)?;
            let b = get_bulk_arg(args, 2)?;
            Ok(RedisCommand::Replconf(a, b))
        } else if eq_bytes(lname.as_slice(), psync_bytes().as_slice()) {
            if n != 2 {
                return Err(RedisCommandError::DismatchedArgsNum(2, n));
            }
            let a = get_bulk_arg(args, 1)?;
            let b = get_bulk_arg(args, 2)?;
            Ok(RedisCommand::Psync(a, b))
        } else if eq_bytes(lname.as_slice(), wait_bytes().as_slice()) {
            if n != 2 {
                return Err(RedisCommandError::DismatchedArgsNum(2, n));
            }
            let a = get_bulk_arg(args, 1)?;
            let b = get_bulk_arg(args, 2)?;
            match (parse_u64(a.data.as_slice()), parse_u64(b.data.as_slice())) {
                (Some(x), Some(y)) => Ok(RedisCommand::Wait(x, y)),
                _ => Err(RedisCommandError::IlleagalArg),
            }
        } else if eq_bytes(lname.as_slice(), select_bytes().as_slice()) {
            if n != 1 {
                return Err(RedisCommandError::DismatchedArgsNum(1, n));
            }
            let a = get_bulk_arg(args, 1)?;
            match parse_u64(a.data.as_slice()) {
                Some(x) => Ok(RedisCommand::Select(x)),
                None => Err(RedisCommandError::IlleagalArg),
            }
        } else if eq_bytes(lname.as_slice(), config_bytes().as_slice()) {
            if n != 2 {
                return Err(RedisCommandError::DismatchedArgsNum(2, n));
            }
            let a = get_bulk_arg(args, 1)?;
            let b = get_bulk_arg(args, 2)?;
            Ok(RedisCommand::Config(a, b))
        } else {
            Err(RedisCommandError::UnknownCommand(lname))
        }
    }
}

} // verus!
