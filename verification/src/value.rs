//! Typed wire values and their serialization to bytes.
//!
//! A value is a simple string, a (possibly null) bulk string, an array of
//! values, an unsigned integer, or an opaque snapshot payload. Contracts
//! speak of values through their mathematical model [`ValueModel`]; the
//! serializer is a total function from models to byte sequences, given by
//! [`spec_serialize`].

use vstd::prelude::*;
use vstd::string::StringSliceAdditionalSpecFns;

verus! {

/// Wire bytes: `+ $ * : - 1 \r \n` and the digit `0`.
pub const PLUS: u8 = 43;

pub const DOLLAR: u8 = 36;

pub const STAR: u8 = 42;

pub const COLON: u8 = 58;

pub const MINUS: u8 = 45;

pub const DIGIT_ONE: u8 = 49;

pub const CR: u8 = 13;

pub const LF: u8 = 10;

pub const DIGIT_ZERO: u8 = 48;

/// The payload of a non-null bulk string: opaque bytes.
#[verifier::ext_equal]
#[derive(Debug, Clone, PartialEq, Eq)]
pub struct RedisBulkString {
    pub data: Vec<u8>,
}

/// A typed wire value.
#[verifier::ext_equal]
#[derive(Debug, PartialEq, Eq)]
pub enum RedisValue {
    SimpleString(Vec<u8>),
    BulkString(Option<RedisBulkString>),
    Array(Vec<RedisValue>),
    Integer(u64),
    Rdb(Vec<u8>),
}

/// The mathematical model of a wire value: the same shape over sequences.
#[verifier::ext_equal]
pub ghost enum ValueModel {
    SimpleString(Seq<u8>),
    BulkString(Option<Seq<u8>>),
    Array(Seq<ValueModel>),
    Integer(u64),
    Rdb(Seq<u8>),
}

impl View for RedisBulkString {
    type V = Seq<u8>;

    open spec fn view(&self) -> Seq<u8> {
        self.data@
    }
}

/// The model of a value: every vector becomes the sequence of its elements.
pub open spec fn model_of(v: RedisValue) -> ValueModel
    decreases v,
{
    match v {
        RedisValue::SimpleString(s) => ValueModel::SimpleString(s@),
        RedisValue::BulkString(ob) => match ob {
            Some(b) => ValueModel::BulkString(Some(b.data@)),
            None => ValueModel::BulkString(None),
        },
        RedisValue::Array(a) => ValueModel::Array(models_of(a@)),
        RedisValue::Integer(n) => ValueModel::Integer(n),
        RedisValue::Rdb(c) => ValueModel::Rdb(c@),
    }
}

/// The models of a sequence of values, in order.
pub open spec fn models_of(a: Seq<RedisValue>) -> Seq<ValueModel>
    decreases a,
{
    if a.len() == 0 {
        Seq::empty()
    } else {
        seq![model_of(a[0])] + models_of(a.drop_first())
    }
}

impl View for RedisValue {
    type V = ValueModel;

    open spec fn view(&self) -> ValueModel {
        model_of(*self)
    }
}

pub proof fn lemma_models_of_len(a: Seq<RedisValue>)
    ensures
        models_of(a).len() == a.len(),
        forall|i: int| 0 <= i < a.len() ==> #[trigger] models_of(a)[i] == model_of(a[i]),
    decreases a,
{
    if a.len() > 0 {
        lemma_models_of_len(a.drop_first());
        assert forall|i: int| 0 <= i < a.len() implies #[trigger] models_of(a)[i] == model_of(
            a[i],
        ) by {
            if i > 0 {
                assert(models_of(a)[i] == models_of(a.drop_first())[i - 1]);
                assert(a.drop_first()[i - 1] == a[i]);
            }
        }
    }
}

pub proof fn lemma_models_of_push(a: Seq<RedisValue>, x: RedisValue)
    ensures
        models_of(a.push(x)) == models_of(a).push(model_of(x)),
{
    lemma_models_of_len(a);
    lemma_models_of_len(a.push(x));
    assert forall|i: int| 0 <= i < a.len() + 1 implies models_of(a.push(x))[i] == models_of(
        a,
    ).push(model_of(x))[i] by {
        assert(models_of(a.push(x))[i] == model_of(a.push(x)[i]));
        if i < a.len() {
            assert(a.push(x)[i] == a[i]);
        } else {
            assert(a.push(x)[i] == x);
        }
    }
    assert(models_of(a.push(x)) =~= models_of(a).push(model_of(x)));
}

/// The canonical decimal digits of `n`, most significant first.
pub open spec fn spec_dec_digits(n: nat) -> Seq<u8>
    decreases n,
{
    if n < 10 {
        seq![(48 + n) as u8]
    } else {
        spec_dec_digits(n / 10).push((48 + n % 10) as u8)
    }
}

/// The wire encoding of a value:
/// `+body\r\n`, `$len\r\nbody\r\n` (null as `$-1\r\n`), `*len\r\n` followed
/// by the children, `:n\r\n`, and `$len\r\nbody` without a trailing CRLF
/// for a snapshot.
pub open spec fn spec_serialize(v: ValueModel) -> Seq<u8>
    decreases v,
{
    match v {
        ValueModel::SimpleString(s) => seq![PLUS] + s + seq![CR, LF],
        ValueModel::BulkString(ob) => match ob {
            Some(b) => seq![DOLLAR] + spec_dec_digits(b.len()) + seq![CR, LF] + b + seq![CR, LF],
            None => seq![DOLLAR, MINUS, DIGIT_ONE, CR, LF],
        },
        ValueModel::Array(a) => seq![STAR] + spec_dec_digits(a.len()) + seq![CR, LF]
            + spec_serialize_elems(a),
        ValueModel::Integer(n) => seq![COLON] + spec_dec_digits(n as nat) + seq![CR, LF],
        ValueModel::Rdb(c) => seq![DOLLAR] + spec_dec_digits(c.len()) + seq![CR, LF] + c,
    }
}

/// The concatenation of the encodings of a sequence of values.
pub open spec fn spec_serialize_elems(a: Seq<ValueModel>) -> Seq<u8>
    decreases a,
{
    if a.len() == 0 {
        Seq::empty()
    } else {
        spec_serialize(a[0]) + spec_serialize_elems(a.drop_first())
    }
}

pub proof fn lemma_serialize_elems_push(a: Seq<ValueModel>, x: ValueModel)
    ensures
        spec_serialize_elems(a.push(x)) == spec_serialize_elems(a) + spec_serialize(x),
    decreases a.len(),
{
    if a.len() == 0 {
        assert(a.push(x).drop_first() =~= Seq::<ValueModel>::empty());
        assert(a.push(x)[0] == x);
        assert(spec_serialize_elems(Seq::<ValueModel>::empty()) == Seq::<u8>::empty());
        assert(spec_serialize_elems(a.push(x)) =~= spec_serialize(x));
        assert(spec_serialize_elems(a) + spec_serialize(x) =~= spec_serialize(x));
    } else {
        assert(a.push(x).drop_first() =~= a.drop_first().push(x));
        lemma_serialize_elems_push(a.drop_first(), x);
        assert(spec_serialize_elems(a.push(x)) =~= spec_serialize_elems(a) + spec_serialize(x));
    }
}

/// Appends every byte of `src` to `dst`.
pub fn push_all(dst: &mut Vec<u8>, src: &[u8])
    ensures
        final(dst)@ == old(dst)@ + src@,
{
    let mut i: usize = 0;
    while i < src.len()
        invariant
            i <= src.len(),
            dst@ == old(dst)@ + src@.take(i as int),
        decreases src.len() - i,
    {
        dst.push(src[i]);
        proof {
            assert(src@.take(i + 1) =~= src@.take(i as int).push(src@[i as int]));
            assert(old(dst)@ + src@.take(i + 1) =~= (old(dst)@ + src@.take(i as int)).push(
                src@[i as int],
            ));
        }
        i = i + 1;
    }
    proof {
        assert(src@.take(src@.len() as int) =~= src@);
    }
}

/// The decimal digits of `n`, most significant first.
pub fn dec_digits(n: u64) -> (r: Vec<u8>)
    ensures
        r@ == spec_dec_digits(n as nat),
    decreases n,
{
    if n < 10 {
        let mut v: Vec<u8> = Vec::new();
        v.push(48 + n as u8);
        proof {
            assert(v@ =~= spec_dec_digits(n as nat));
        }
        v
    } else {
        let mut v = dec_digits(n / 10);
        v.push(48 + (n % 10) as u8);
        v
    }
}

impl RedisValue {
    /// A non-null bulk string holding the bytes of `s`.
    pub fn bulk_string(s: &str) -> (r: RedisValue)
        ensures
            r@ == ValueModel::BulkString(Some(s.spec_bytes())),
    {
        let bytes: Vec<u8> = vstd::slice::slice_to_vec(s.as_bytes());
        RedisValue::BulkString(Some(RedisBulkString { data: bytes }))
    }

    /// A non-null bulk string holding the given bytes.
    pub fn bulk_string_from_bytes(s: &[u8]) -> (r: RedisValue)
        ensures
            r@ == ValueModel::BulkString(Some(s@)),
    {
        RedisValue::BulkString(Some(RedisBulkString { data: vstd::slice::slice_to_vec(s) }))
    }

    /// The null bulk string.
    pub fn null_bulk_string() -> (r: RedisValue)
        ensures
            r@ == ValueModel::BulkString(None),
    {
        RedisValue::BulkString(None)
    }

    /// A simple string holding the bytes of `s`.
    pub fn simple_string(s: &str) -> (r: RedisValue)
        ensures
            r@ == ValueModel::SimpleString(s.spec_bytes()),
    {
        RedisValue::SimpleString(vstd::slice::slice_to_vec(s.as_bytes()))
    }

    /// A simple string holding the given bytes.
    pub fn simple_string_from_bytes(s: &[u8]) -> (r: RedisValue)
        ensures
            r@ == ValueModel::SimpleString(s@),
    {
        RedisValue::SimpleString(vstd::slice::slice_to_vec(s))
    }

    /// A copy of the value with the same model.
    #[verifier::loop_isolation(false)]
    pub fn duplicate(&self) -> (r: RedisValue)
        ensures
            r@ == self@,
        decreases *self,
    {
        match self {
            RedisValue::SimpleString(s) => RedisValue::SimpleString(
                vstd::slice::slice_to_vec(s.as_slice()),
            ),
            RedisValue::BulkString(ob) => match ob {
                Some(b) => RedisValue::BulkString(
                    Some(RedisBulkString { data: vstd::slice::slice_to_vec(b.data.as_slice()) }),
                ),
                None => RedisValue::BulkString(None),
            },
            RedisValue::Array(a) => {
                let mut out: Vec<RedisValue> = Vec::new();
                let mut i: usize = 0;
                while i < a.len()
                    invariant
                        i <= a.len(),
                        out@.len() == i,
                        models_of(out@) == models_of(a@.take(i as int)),
                    decreases a.len() - i,
                {
                    proof {
                        assert(decreases_to!(*self => self->Array_0));
                        assert(decreases_to!(self->Array_0 => self->Array_0@));
                        assert(decreases_to!(self->Array_0@ => self->Array_0@[i as int]));
                        assert(a@[i as int] == self->Array_0@[i as int]);
                    }
                    let child = a[i].duplicate();
                    let ghost prev = out@;
                    out.push(child);
                    proof {
                        assert(out@ == prev.push(child));
                        lemma_models_of_push(prev, child);
                        assert(a@.take(i + 1) =~= a@.take(i as int).push(a@[i as int]));
                        lemma_models_of_push(a@.take(i as int), a@[i as int]);
                        assert(models_of(out@) == models_of(a@.take(i + 1)));
                    }
                    i = i + 1;
                }
                proof {
                    assert(a@.take(a@.len() as int) =~= a@);
                }
                RedisValue::Array(out)
            },
            RedisValue::Integer(n) => RedisValue::Integer(*n),
            RedisValue::Rdb(c) => RedisValue::Rdb(vstd::slice::slice_to_vec(c.as_slice())),
        }
    }

    /// The wire encoding of the value.
    #[verifier::loop_isolation(false)]
    pub fn to_bytes(&self) -> (r: Vec<u8>)
        ensures
            r@ == spec_serialize(self@),
        decreases *self,
    {
        let mut out: Vec<u8> = Vec::new();
        match self {
            RedisValue::SimpleString(s) => {
                out.push(PLUS);
                push_all(&mut out, s.as_slice());
                out.push(CR);
                out.push(LF);
                proof {
                    assert(out@ =~= spec_serialize(self@));
                }
            },
            RedisValue::BulkString(ob) => match ob {
                Some(b) => {
                    out.push(DOLLAR);
                    let len_digits = dec_digits(b.data.len() as u64);
                    push_all(&mut out, len_digits.as_slice());
                    out.push(CR);
                    out.push(LF);
                    push_all(&mut out, b.data.as_slice());
                    out.push(CR);
                    out.push(LF);
                    proof {
                        assert(out@ =~= spec_serialize(self@));
                    }
                },
                None => {
                    out.push(DOLLAR);
                    out.push(MINUS);
                    out.push(DIGIT_ONE);
                    out.push(CR);
                    out.push(LF);
                    proof {
                        assert(out@ =~= spec_serialize(self@));
                    }
                },
            },
            RedisValue::Array(a) => {
                out.push(STAR);
                let len_digits = dec_digits(a.len() as u64);
                push_all(&mut out, len_digits.as_slice());
                out.push(CR);
                out.push(LF);
                let ghost header: Seq<u8> = out@;
                let mut i: usize = 0;
                proof {
                    lemma_models_of_len(a@);
                }
                while i < a.len()
                    invariant
                        i <= a.len(),
                        models_of(a@).len() == a@.len(),
                        forall|j: int|
                            0 <= j < a@.len() ==> #[trigger] models_of(a@)[j] == model_of(a@[j]),
                        out@ == header + spec_serialize_elems(models_of(a@).take(i as int)),
                    decreases a.len() - i,
                {
                    proof {
                        assert(decreases_to!(*self => self->Array_0));
                        assert(decreases_to!(self->Array_0 => self->Array_0@));
                        assert(decreases_to!(self->Array_0@ => self->Array_0@[i as int]));
                        assert(a@[i as int] == self->Array_0@[i as int]);
                    }
                    let child_bytes = a[i].to_bytes();
                    push_all(&mut out, child_bytes.as_slice());
                    proof {
                        assert(models_of(a@).take(i + 1) =~= models_of(a@).take(i as int).push(
                            models_of(a@)[i as int],
                        ));
                        lemma_serialize_elems_push(
                            models_of(a@).take(i as int),
                            models_of(a@)[i as int],
                        );
                        assert(out@ =~= header + spec_serialize_elems(models_of(a@).take(i + 1)));
                    }
                    i = i + 1;
                }
                proof {
                    assert(models_of(a@).take(models_of(a@).len() as int) =~= models_of(a@));
                    assert(out@ =~= spec_serialize(self@));
                }
            },
            RedisValue::Integer(n) => {
                out.push(COLON);
                let len_digits = dec_digits(*n);
                push_all(&mut out, len_digits.as_slice());
                out.push(CR);
                out.push(LF);
                proof {
                    assert(out@ =~= spec_serialize(self@));
                }
            },
            RedisValue::Rdb(c) => {
                out.push(DOLLAR);
                let len_digits = dec_digits(c.len() as u64);
                push_all(&mut out, len_digits.as_slice());
                out.push(CR);
                out.push(LF);
                push_all(&mut out, c.as_slice());
                proof {
                    assert(out@ =~= spec_serialize(self@));
                }
            },
        }
        out
    }
}

} // verus!
