//! Incremental wire-frame parser.
//!
//! [`RedisValueParser`] holds the bytes received so far. [`parse`] tries to
//! read one complete frame from the head of the buffer; when the buffer ends
//! in the middle of a frame nothing is consumed, and the same call can be
//! retried after more bytes arrive. The behaviour of both entry points is
//! pinned down by the spec-level parser [`spec_parse_value`] /
//! [`spec_parse_rdb`], a total function on byte sequences.
//!
//! [`parse`]: RedisValueParser::parse

use vstd::prelude::*;

use crate::value::{CR, DOLLAR, LF, PLUS, STAR, DIGIT_ZERO};
use crate::value::{models_of, lemma_models_of_push, RedisValue, ValueModel};
use crate::value::{spec_dec_digits, spec_serialize, spec_serialize_elems};

verus! {

/// What the parser finds at the head of a byte sequence: one complete frame
/// and the index just past it, a frame cut short by the end of the buffer,
/// or an unexpected byte at some position.
#[verifier::ext_equal]
pub ghost enum ParseOutcome {
    Found(ValueModel, int),
    Partial,
    Bad(u8, int),
}

/// Outcome of reading a decimal length followed by CRLF.
#[verifier::ext_equal]
pub ghost enum LenOutcome {
    LenFound(int, int),
    LenPartial,
    LenBad(u8, int),
}

/// Is `c` a decimal digit?
pub open spec fn is_digit(c: u8) -> bool {
    48 <= c <= 57
}

/// Reads digits from position `i`, then CRLF. `acc` is the value of the
/// digits already read, `ndigits` how many there were, and `zero_first`
/// whether the first of them was a zero. A second digit after a leading
/// zero, a non-digit where a digit is due, and a digit that would push the
/// value over `usize::MAX` are all errors.
pub open spec fn spec_parse_len(b: Seq<u8>, i: int, acc: int, ndigits: int, zero_first: bool) -> LenOutcome
    decreases b.len() - i,
{
    if i < 0 || i >= b.len() {
        LenOutcome::LenPartial
    } else if is_digit(b[i]) {
        if zero_first && ndigits >= 1 {
            LenOutcome::LenBad(b[i], i)
        } else if acc * 10 + (b[i] - 48) > usize::MAX as int {
            LenOutcome::LenBad(b[i], i)
        } else {
            spec_parse_len(
                b,
                i + 1,
                acc * 10 + (b[i] - 48),
                ndigits + 1,
                zero_first || (ndigits == 0 && b[i] == DIGIT_ZERO),
            )
        }
    } else if b[i] == CR && ndigits >= 1 {
        if i + 1 >= b.len() {
            LenOutcome::LenPartial
        } else if b[i + 1] == LF {
            LenOutcome::LenFound(acc, i + 2)
        } else {
            LenOutcome::LenBad(b[i + 1], i + 1)
        }
    } else {
        LenOutcome::LenBad(b[i], i)
    }
}

/// Reads the body of a simple string that started at `start`: bytes up to
/// the first CR, which must be followed by LF.
pub open spec fn spec_parse_simple(b: Seq<u8>, start: int, i: int) -> ParseOutcome
    decreases b.len() - i,
{
    if i < 0 || i >= b.len() {
        ParseOutcome::Partial
    } else if b[i] == CR {
        if i + 1 >= b.len() {
            ParseOutcome::Partial
        } else if b[i + 1] == LF {
            ParseOutcome::Found(ValueModel::SimpleString(b.subrange(start, i)), i + 2)
        } else {
            ParseOutcome::Bad(b[i + 1], i + 1)
        }
    } else {
        spec_parse_simple(b, start, i + 1)
    }
}

/// Reads one frame at position `i`: a bulk string after `$`, an array
/// after `*`, or a simple string after `+`. Any other head byte is an
/// error; `$-1` in particular is rejected at the `-`.
pub open spec fn spec_parse_value(b: Seq<u8>, i: int) -> ParseOutcome
    decreases b.len() - i, 0int,
{
    if i < 0 || i >= b.len() {
        ParseOutcome::Partial
    } else if b[i] == DOLLAR {
        match spec_parse_len(b, i + 1, 0, 0, false) {
            LenOutcome::LenFound(n, j) => {
                if j + n + 2 > b.len() {
                    ParseOutcome::Partial
                } else if b[j + n] != CR {
                    ParseOutcome::Bad(b[j + n], j + n)
                } else if b[j + n + 1] != LF {
                    ParseOutcome::Bad(b[j + n + 1], j + n + 1)
                } else {
                    ParseOutcome::Found(
                        ValueModel::BulkString(Some(b.subrange(j, j + n))),
                        j + n + 2,
                    )
                }
            },
            LenOutcome::LenPartial => ParseOutcome::Partial,
            LenOutcome::LenBad(c, p) => ParseOutcome::Bad(c, p),
        }
    } else if b[i] == STAR {
        match spec_parse_len(b, i + 1, 0, 0, false) {
            LenOutcome::LenFound(n, j) => {
                if i < j <= b.len() {
                    spec_parse_elems(b, j, n, Seq::empty())
                } else {
                    // a length always ends past the marker that introduced it
                    // and inside the buffer; see lemma_parse_len_advances
                    ParseOutcome::Bad(0, i)
                }
            },
            LenOutcome::LenPartial => ParseOutcome::Partial,
            LenOutcome::LenBad(c, p) => ParseOutcome::Bad(c, p),
        }
    } else if b[i] == PLUS {
        spec_parse_simple(b, i + 1, i + 1)
    } else {
        ParseOutcome::Bad(b[i], i)
    }
}

/// Reads `n` more frames of an array whose earlier elements are `acc`.
pub open spec fn spec_parse_elems(b: Seq<u8>, i: int, n: int, acc: Seq<ValueModel>) -> ParseOutcome
    decreases b.len() - i, 1int,
{
    if n <= 0 {
        ParseOutcome::Found(ValueModel::Array(acc), i)
    } else {
        match spec_parse_value(b, i) {
            ParseOutcome::Found(v, j) => {
                if i < j <= b.len() {
                    spec_parse_elems(b, j, n - 1, acc.push(v))
                } else {
                    // a parsed frame always ends past its first byte and
                    // inside the buffer; see lemma_parse_value_advances
                    ParseOutcome::Bad(0, i)
                }
            },
            ParseOutcome::Partial => ParseOutcome::Partial,
            ParseOutcome::Bad(c, p) => ParseOutcome::Bad(c, p),
        }
    }
}

/// Reads a snapshot frame at the head of the buffer: `$`, a length, CRLF,
/// then exactly that many payload bytes with no trailing CRLF.
pub open spec fn spec_parse_rdb(b: Seq<u8>) -> ParseOutcome {
    if b.len() == 0 {
        ParseOutcome::Partial
    } else if b[0] != DOLLAR {
        ParseOutcome::Bad(b[0], 0)
    } else {
        match spec_parse_len(b, 1, 0, 0, false) {
            LenOutcome::LenFound(n, j) => {
                if j + n > b.len() {
                    ParseOutcome::Partial
                } else {
                    ParseOutcome::Found(ValueModel::Rdb(b.subrange(j, j + n)), j + n)
                }
            },
            LenOutcome::LenPartial => ParseOutcome::Partial,
            LenOutcome::LenBad(c, p) => ParseOutcome::Bad(c, p),
        }
    }
}

pub proof fn lemma_parse_len_advances(b: Seq<u8>, i: int, acc: int, ndigits: int, zero_first: bool)
    requires
        0 <= i,
        0 <= acc <= usize::MAX as int,
    ensures
        spec_parse_len(b, i, acc, ndigits, zero_first) matches LenOutcome::LenFound(n, j) ==> {
            &&& i < j <= b.len()
            &&& 0 <= n <= usize::MAX as int
        },
    decreases b.len() - i,
{
    if i < b.len() && is_digit(b[i]) {
        if !(zero_first && ndigits >= 1) && acc * 10 + (b[i] - 48) <= usize::MAX as int {
            lemma_parse_len_advances(
                b,
                i + 1,
                acc * 10 + (b[i] - 48),
                ndigits + 1,
                zero_first || (ndigits == 0 && b[i] == DIGIT_ZERO),
            );
        }
    }
}

/// Exec-level outcome of reading a length.
enum LenStep {
    LenFound(usize, usize),
    LenPartial,
    LenBad(u8, usize),
}

/// Exec-level outcome of reading one frame.
enum ParseStep {
    Found(RedisValue, usize),
    Partial,
    Bad(u8, usize),
}

/// Copies `buf[from..to]` into a fresh vector.
fn copy_range(buf: &[u8], from: usize, to: usize) -> (r: Vec<u8>)
    requires
        from <= to <= buf@.len(),
    ensures
        r@ == buf@.subrange(from as int, to as int),
{
    let mut out: Vec<u8> = Vec::new();
    let mut i: usize = from;
    while i < to
        invariant
            from <= i <= to <= buf@.len(),
            out@ == buf@.subrange(from as int, i as int),
        decreases to - i,
    {
        out.push(buf[i]);
        proof {
            assert(buf@.subrange(from as int, i + 1) =~= buf@.subrange(from as int, i as int).push(
                buf@[i as int],
            ));
        }
        i = i + 1;
    }
    out
}

/// Reads a decimal length followed by CRLF, as [`spec_parse_len`] does.
fn parse_len_at(buf: &[u8], i: usize) -> (r: LenStep)
    ensures
        match r {
            LenStep::LenFound(n, j) => spec_parse_len(buf@, i as int, 0, 0, false)
                == LenOutcome::LenFound(n as int, j as int) && i < j <= buf@.len(),
            LenStep::LenPartial => spec_parse_len(buf@, i as int, 0, 0, false)
                is LenPartial,
            LenStep::LenBad(c, p) => spec_parse_len(buf@, i as int, 0, 0, false)
                == LenOutcome::LenBad(c, p as int),
        },
{
    let ghost target = spec_parse_len(buf@, i as int, 0, 0, false);
    let mut cur: usize = i;
    let mut acc: usize = 0;
    let mut nd: usize = 0;
    let mut zf: bool = false;
    loop
        invariant
            i <= cur,
            target == spec_parse_len(buf@, i as int, 0, 0, false),
            spec_parse_len(buf@, cur as int, acc as int, nd as int, zf) == target,
        decreases buf@.len() - cur,
    {
        if cur >= buf.len() {
            return LenStep::LenPartial;
        }
        let c = buf[cur];
        if 48 <= c && c <= 57 {
            if zf && nd >= 1 {
                return LenStep::LenBad(c, cur);
            }
            let d = (c - 48) as usize;
            let limit = (usize::MAX - d) / 10;
            proof {
                vstd::arithmetic::div_mod::lemma_fundamental_div_mod(
                    usize::MAX as int - d as int,
                    10,
                );
                vstd::arithmetic::div_mod::lemma_mod_division_less_than_divisor(
                    usize::MAX as int - d as int,
                    10,
                );
                assert(acc > limit ==> acc * 10 + d > usize::MAX) by {
                    if acc > limit {
                        assert(acc as int >= limit as int + 1);
                        assert(acc as int * 10 >= (limit as int + 1) * 10) by (nonlinear_arith)
                            requires acc as int >= limit as int + 1;
                    }
                }
                assert(acc <= limit ==> acc * 10 + d <= usize::MAX) by {
                    if acc <= limit {
                        assert(acc as int * 10 <= limit as int * 10) by (nonlinear_arith)
                            requires acc as int <= limit as int;
                    }
                }
            }
            if acc > limit {
                return LenStep::LenBad(c, cur);
            }
            let ghost nd0: int = nd as int;
            let ghost zf0: bool = zf;
            acc = acc * 10 + d;
            zf = zf || (nd == 0 && c == DIGIT_ZERO);
            if nd < usize::MAX {
                nd = nd + 1;
            }
            proof {
                assert(spec_parse_len(buf@, cur as int, (acc as int - d as int) / 10, nd0, zf0)
                    == spec_parse_len(buf@, cur + 1, acc as int, nd0 + 1, zf));
                assert(nd as int >= 1);
                assert(spec_parse_len(buf@, cur + 1, acc as int, nd as int, zf) == target) by {
                    lemma_parse_len_same_past_first(buf@, cur + 1, acc as int, nd0 + 1, nd as int, zf);
                }
            }
            cur = cur + 1;
        } else if c == CR && nd >= 1 {
            if cur + 1 >= buf.len() {
                return LenStep::LenPartial;
            }
            if buf[cur + 1] == LF {
                return LenStep::LenFound(acc, cur + 2);
            }
            return LenStep::LenBad(buf[cur + 1], cur + 1);
        } else {
            return LenStep::LenBad(c, cur);
        }
    }
}

/// Once at least one digit has been read, only `ndigits >= 1` matters to
/// the rest of the scan, not the exact count.
proof fn lemma_parse_len_same_past_first(b: Seq<u8>, i: int, acc: int, nd1: int, nd2: int, zf: bool)
    requires
        nd1 >= 1,
        nd2 >= 1,
    ensures
        spec_parse_len(b, i, acc, nd1, zf) == spec_parse_len(b, i, acc, nd2, zf),
    decreases b.len() - i,
{
    if 0 <= i < b.len() && is_digit(b[i]) {
        if !(zf && nd1 >= 1) && acc * 10 + (b[i] - 48) <= usize::MAX as int {
            lemma_parse_len_same_past_first(b, i + 1, acc * 10 + (b[i] - 48), nd1 + 1, nd2 + 1, zf);
        }
    }
}

/// Scans a simple-string body, as [`spec_parse_simple`] does.
fn parse_simple_at(buf: &[u8], start: usize) -> (r: ParseStep)
    requires
        start <= buf@.len(),
    ensures
        match r {
            ParseStep::Found(v, j) => spec_parse_simple(buf@, start as int, start as int)
                == ParseOutcome::Found(v@, j as int) && start < j <= buf@.len(),
            ParseStep::Partial => spec_parse_simple(buf@, start as int, start as int)
                is Partial,
            ParseStep::Bad(c, p) => spec_parse_simple(buf@, start as int, start as int)
                == ParseOutcome::Bad(c, p as int),
        },
{
    let ghost target = spec_parse_simple(buf@, start as int, start as int);
    let mut cur: usize = start;
    loop
        invariant
            start <= cur,
            target == spec_parse_simple(buf@, start as int, start as int),
            spec_parse_simple(buf@, start as int, cur as int) == target,
        decreases buf@.len() - cur,
    {
        if cur >= buf.len() {
            return ParseStep::Partial;
        }
        let c = buf[cur];
        if c == CR {
            if cur + 1 >= buf.len() {
                return ParseStep::Partial;
            }
            if buf[cur + 1] == LF {
                let content = copy_range(buf, start, cur);
                let v = RedisValue::SimpleString(content);
                return ParseStep::Found(v, cur + 2);
            }
            return ParseStep::Bad(buf[cur + 1], cur + 1);
        }
        cur = cur + 1;
    }
}

/// Reads one frame at position `i`, as [`spec_parse_value`] does.
#[verifier::loop_isolation(false)]
fn parse_value_at(buf: &[u8], i: usize) -> (r: ParseStep)
    ensures
        match r {
            ParseStep::Found(v, j) => spec_parse_value(buf@, i as int)
                == ParseOutcome::Found(v@, j as int) && i < j <= buf@.len(),
            ParseStep::Partial => spec_parse_value(buf@, i as int) is Partial,
            ParseStep::Bad(c, p) => spec_parse_value(buf@, i as int)
                == ParseOutcome::Bad(c, p as int),
        },
    decreases buf@.len() - i,
{
    if i >= buf.len() {
        return ParseStep::Partial;
    }
    let c = buf[i];
    if c == DOLLAR {
        match parse_len_at(buf, i + 1) {
            LenStep::LenFound(n, j) => {
                let rem = buf.len() - j;
                if rem < n || rem - n < 2 {
                    return ParseStep::Partial;
                }
                if buf[j + n] != CR {
                    return ParseStep::Bad(buf[j + n], j + n);
                }
                if buf[j + n + 1] != LF {
                    return ParseStep::Bad(buf[j + n + 1], j + n + 1);
                }
                let content = copy_range(buf, j, j + n);
                let v = RedisValue::BulkString(
                    Some(crate::value::RedisBulkString { data: content }),
                );
                ParseStep::Found(v, j + n + 2)
            },
            LenStep::LenPartial => ParseStep::Partial,
            LenStep::LenBad(c2, p) => ParseStep::Bad(c2, p),
        }
    } else if c == STAR {
        match parse_len_at(buf, i + 1) {
            LenStep::LenFound(n, j) => {
                let mut elems: Vec<RedisValue> = Vec::new();
                let mut cur: usize = j;
                let mut k: usize = 0;
                while k < n
                    invariant
                        i < cur <= buf@.len(),
                        k <= n,
                        elems@.len() == k,
                        spec_parse_elems(buf@, j as int, n as int, Seq::empty())
                            == spec_parse_elems(
                            buf@,
                            cur as int,
                            n - k,
                            models_of(elems@),
                        ),
                    decreases n - k,
                {
                    match parse_value_at(buf, cur) {
                        ParseStep::Found(v, j2) => {
                            proof {
                                lemma_models_of_push(elems@, v);
                            }
                            elems.push(v);
                            cur = j2;
                            k = k + 1;
                        },
                        ParseStep::Partial => {
                            return ParseStep::Partial;
                        },
                        ParseStep::Bad(c2, p) => {
                            return ParseStep::Bad(c2, p);
                        },
                    }
                }
                ParseStep::Found(RedisValue::Array(elems), cur)
            },
            LenStep::LenPartial => ParseStep::Partial,
            LenStep::LenBad(c2, p) => ParseStep::Bad(c2, p),
        }
    } else if c == PLUS {
        match parse_simple_at(buf, i + 1) {
            ParseStep::Found(v, j) => ParseStep::Found(v, j),
            ParseStep::Partial => ParseStep::Partial,
            ParseStep::Bad(c2, p) => ParseStep::Bad(c2, p),
        }
    } else {
        ParseStep::Bad(c, i)
    }
}

/// Why a parse failed: an unexpected byte at a position, or a value of the
/// wrong shape where another was due.
#[derive(Debug, Clone, PartialEq, Eq)]
pub enum MessageParserStateError {
    UnexceptedToken(u8, usize),
    UnexceptedValue(String),
}

/// An incremental parser over a growing byte buffer.
pub struct RedisValueParser {
    buffer: Vec<u8>,
}

impl View for RedisValueParser {
    type V = Seq<u8>;

    closed spec fn view(&self) -> Seq<u8> {
        self.buffer@
    }
}

impl RedisValueParser {
    /// A parser with an empty buffer.
    pub fn new() -> (r: RedisValueParser)
        ensures
            r@ == Seq::<u8>::empty(),
    {
        let r = RedisValueParser { buffer: Vec::new() };
        proof {
            assert(r@ =~= Seq::<u8>::empty());
        }
        r
    }

    /// Appends received bytes to the buffer. Appending nothing leaves the
    /// buffer, and therefore the outcome of the next parse, unchanged.
    pub fn append(&mut self, input: &[u8])
        ensures
            final(self)@ == old(self)@ + input@,
    {
        crate::value::push_all(&mut self.buffer, input);
    }

    /// How many bytes are buffered.
    pub fn buffer_len(&self) -> (n: usize)
        ensures
            n == self@.len(),
    {
        self.buffer.len()
    }

    /// Tries to read one frame from the head of the buffer.
    ///
    /// On success the frame's bytes are consumed and the count of consumed
    /// bytes is returned beside the value; the consumed prefix is exactly
    /// the frame's own encoding. When the buffer ends mid-frame, nothing is
    /// consumed and the result is `(None, 0)`; an empty buffer is therefore
    /// not an error. A malformed head byte is an error naming that byte and
    /// its position, and leaves the buffer unchanged. A buffer that begins
    /// with the encoding of any parseable frame parses back to exactly that
    /// frame ([`lemma_parse_serialize`]).
    pub fn parse(&mut self) -> (r: Result<
        (Option<RedisValue>, usize),
        MessageParserStateError,
    >)
        ensures
            match r {
                Ok((ov, n)) => match ov {
                    Some(v) => {
                        &&& spec_parse_value(old(self)@, 0) == ParseOutcome::Found(
                            v@,
                            n as int,
                        )
                        &&& 0 < n <= old(self)@.len()
                        &&& final(self)@ == old(self)@.skip(n as int)
                    },
                    None => {
                        &&& n == 0
                        &&& spec_parse_value(old(self)@, 0) is Partial
                        &&& final(self)@ == old(self)@
                    },
                },
                Err(e) => {
                    &&& e matches MessageParserStateError::UnexceptedToken(c, p)
                        && spec_parse_value(old(self)@, 0) == ParseOutcome::Bad(c, p as int)
                    &&& final(self)@ == old(self)@
                },
            },
    {
        match parse_value_at(self.buffer.as_slice(), 0) {
            ParseStep::Found(v, n) => {
                let tail = self.buffer.split_off(n);
                self.buffer = tail;
                Ok((Some(v), n))
            },
            ParseStep::Partial => Ok((None, 0)),
            ParseStep::Bad(c, p) => Err(MessageParserStateError::UnexceptedToken(c, p)),
        }
    }

    /// Tries to read one snapshot frame (`$`, a length, CRLF, then that
    /// many payload bytes with no trailing CRLF) from the head of the
    /// buffer, with the same conventions as [`parse`](Self::parse).
    pub fn parse_rdb(&mut self) -> (r: Result<
        (Option<RedisValue>, usize),
        MessageParserStateError,
    >)
        ensures
            match r {
                Ok((ov, n)) => match ov {
                    Some(v) => {
                        &&& spec_parse_rdb(old(self)@) == ParseOutcome::Found(v@, n as int)
                        &&& 0 < n <= old(self)@.len()
                        &&& final(self)@ == old(self)@.skip(n as int)
                    },
                    None => {
                        &&& n == 0
                        &&& spec_parse_rdb(old(self)@) is Partial
                        &&& final(self)@ == old(self)@
                    },
                },
                Err(e) => {
                    &&& e matches MessageParserStateError::UnexceptedToken(c, p)
                        && spec_parse_rdb(old(self)@) == ParseOutcome::Bad(c, p as int)
                    &&& final(self)@ == old(self)@
                },
            },
    {
        if self.buffer.len() == 0 {
            return Ok((None, 0));
        }
        let c0 = self.buffer[0];
        if c0 != DOLLAR {
            return Err(MessageParserStateError::UnexceptedToken(c0, 0));
        }
        match parse_len_at(self.buffer.as_slice(), 1) {
            LenStep::LenFound(n, j) => {
                let rem = self.buffer.len() - j;
                if rem < n {
                    return Ok((None, 0));
                }
                let content = copy_range(self.buffer.as_slice(), j, j + n);
                let v = RedisValue::Rdb(content);
                let tail = self.buffer.split_off(j + n);
                self.buffer = tail;
                Ok((Some(v), j + n))
            },
            LenStep::LenPartial => Ok((None, 0)),
            LenStep::LenBad(c, p) => Err(MessageParserStateError::UnexceptedToken(c, p)),
        }
    }
}

/// Frames that the parser can read back: simple strings without a CR in the
/// body, non-null bulk strings, and arrays of such frames. Null bulk
/// strings, integers and snapshot frames have encodings that `parse` does
/// not accept.
pub open spec fn parseable(m: ValueModel) -> bool
    decreases m,
{
    match m {
        ValueModel::SimpleString(s) => !s.contains(CR),
        ValueModel::BulkString(ob) => ob matches Some(s) && s.len() <= usize::MAX,
        ValueModel::Array(a) => a.len() <= usize::MAX && (forall|k: int|
            0 <= k < a.len() ==> parseable(#[trigger] a[k])),
        ValueModel::Integer(_) => false,
        ValueModel::Rdb(_) => false,
    }
}

/// Every encoding starts with its marker byte.
pub proof fn lemma_serialize_nonempty(m: ValueModel)
    ensures
        spec_serialize(m).len() >= 1,
{
    match m {
        ValueModel::SimpleString(_) => {},
        ValueModel::BulkString(_) => {},
        ValueModel::Array(_) => {},
        ValueModel::Integer(_) => {},
        ValueModel::Rdb(_) => {},
    }
}

/// The canonical digits of `n` are digits, there is at least one, and the
/// first is a zero exactly when `n` is zero.
pub proof fn lemma_dec_digits_shape(n: nat)
    ensures
        spec_dec_digits(n).len() >= 1,
        forall|k: int| 0 <= k < spec_dec_digits(n).len() ==> is_digit(#[trigger] spec_dec_digits(n)[k]),
        spec_dec_digits(n)[0] == DIGIT_ZERO <==> n == 0,
    decreases n,
{
    if n >= 10 {
        lemma_dec_digits_shape(n / 10);
        assert(spec_dec_digits(n) == spec_dec_digits(n / 10).push((48 + n % 10) as u8));
        assert(n / 10 >= 1);
        assert(spec_dec_digits(n)[0] == spec_dec_digits(n / 10)[0]);
    }
}

/// The value accumulated by scanning the digit string `ds` from the left,
/// starting from `acc`.
pub open spec fn scan_val(acc: int, ds: Seq<u8>) -> int
    decreases ds.len(),
{
    if ds.len() == 0 {
        acc
    } else {
        scan_val(acc * 10 + (ds[0] - 48), ds.drop_first())
    }
}

pub proof fn lemma_scan_val_monotone(acc: int, ds: Seq<u8>)
    requires
        acc >= 0,
        forall|k: int| 0 <= k < ds.len() ==> is_digit(#[trigger] ds[k]),
    ensures
        scan_val(acc, ds) >= acc,
    decreases ds.len(),
{
    if ds.len() > 0 {
        lemma_scan_val_monotone(acc * 10 + (ds[0] - 48), ds.drop_first());
    }
}

proof fn lemma_scan_val_push(acc: int, ds: Seq<u8>, d: u8)
    ensures
        scan_val(acc, ds.push(d)) == scan_val(acc, ds) * 10 + (d - 48),
    decreases ds.len(),
{
    if ds.len() == 0 {
        assert(ds.push(d).drop_first() =~= Seq::<u8>::empty());
        assert(ds.push(d)[0] == d);
        assert(scan_val(acc, ds.push(d)) == scan_val(
            acc * 10 + (d - 48),
            Seq::<u8>::empty(),
        ));
        assert(scan_val(acc * 10 + (d - 48), Seq::<u8>::empty()) == acc * 10 + (d - 48));
        assert(scan_val(acc, ds) == acc);
    } else {
        assert(ds.push(d).drop_first() =~= ds.drop_first().push(d));
        assert(ds.push(d)[0] == ds[0]);
        lemma_scan_val_push(acc * 10 + (ds[0] - 48), ds.drop_first(), d);
        assert(scan_val(acc, ds.push(d)) == scan_val(
            acc * 10 + (ds[0] - 48),
            ds.drop_first().push(d),
        ));
        assert(scan_val(acc, ds) == scan_val(acc * 10 + (ds[0] - 48), ds.drop_first()));
    }
}

/// Scanning the canonical digits of `n` from zero yields `n`.
pub proof fn lemma_scan_val_dec_digits(n: nat)
    ensures
        scan_val(0, spec_dec_digits(n)) == n,
    decreases n,
{
    if n < 10 {
        assert(spec_dec_digits(n) == seq![(48 + n) as u8]);
        assert(spec_dec_digits(n).drop_first() =~= Seq::<u8>::empty());
        assert(spec_dec_digits(n)[0] == (48 + n) as u8);
        assert(scan_val(0, spec_dec_digits(n)) == scan_val(
            0 * 10 + (((48 + n) as u8) - 48),
            Seq::<u8>::empty(),
        ));
        assert((((48 + n) as u8) - 48) == n);
    } else {
        lemma_scan_val_dec_digits(n / 10);
        lemma_scan_val_push(0, spec_dec_digits(n / 10), (48 + n % 10) as u8);
        assert(spec_dec_digits(n) == spec_dec_digits(n / 10).push((48 + n % 10) as u8));
        assert(scan_val(0, spec_dec_digits(n)) == scan_val(0, spec_dec_digits(n / 10)) * 10 + (
        ((48 + n % 10) as u8) - 48));
        vstd::arithmetic::div_mod::lemma_fundamental_div_mod(n as int, 10);
        assert(0 <= n % 10 < 10) by {
            vstd::arithmetic::div_mod::lemma_mod_division_less_than_divisor(n as int, 10);
        }
        assert((((48 + n % 10) as u8) - 48) == n % 10);
    }
}

/// Reading a length whose digits, CR and LF lie at position `i` finds the
/// digits' value and stops just past the LF.
proof fn lemma_parse_len_scan(b: Seq<u8>, i: int, acc: int, nd: int, zf: bool, ds: Seq<u8>)
    requires
        0 <= i,
        0 <= acc,
        0 <= nd,
        nd + ds.len() >= 1,
        forall|k: int| 0 <= k < ds.len() ==> is_digit(#[trigger] ds[k]),
        i + ds.len() + 2 <= b.len(),
        forall|k: int| 0 <= k < ds.len() ==> b[i + k] == #[trigger] ds[k],
        b[i + ds.len()] == CR,
        b[i + ds.len() + 1] == LF,
        nd == 0 && ds.len() >= 2 ==> ds[0] != DIGIT_ZERO,
        zf ==> ds.len() == 0,
        scan_val(acc, ds) <= usize::MAX as int,
    ensures
        spec_parse_len(b, i, acc, nd, zf) == LenOutcome::LenFound(
            scan_val(acc, ds),
            i + ds.len() + 2,
        ),
    decreases ds.len(),
{
    if ds.len() == 0 {
        assert(b[i] == CR);
        assert(!is_digit(CR));
    } else {
        assert(b[i] == ds[0]);
        assert(is_digit(b[i]));
        assert(!(zf && nd >= 1));
        let acc2 = acc * 10 + (ds[0] - 48);
        let rest = ds.drop_first();
        assert(scan_val(acc, ds) == scan_val(acc2, rest));
        lemma_scan_val_monotone(acc2, rest);
        assert(acc2 <= usize::MAX as int);
        let zf2 = zf || (nd == 0 && b[i] == DIGIT_ZERO);
        assert forall|k: int| 0 <= k < rest.len() implies b[(i + 1) + k] == #[trigger] rest[k] by {
            assert(rest[k] == ds[k + 1]);
            assert(b[i + (k + 1)] == ds[k + 1]);
        }
        if zf2 {
            assert(nd == 0 && ds[0] == DIGIT_ZERO);
            assert(ds.len() == 1);
        }
        lemma_parse_len_scan(b, i + 1, acc2, nd + 1, zf2, rest);
        assert(spec_parse_len(b, i, acc, nd, zf) == spec_parse_len(b, i + 1, acc2, nd + 1, zf2));
    }
}

/// Reading a length at the start of `dec_digits(n) + CRLF` finds `n`.
proof fn lemma_parse_len_serialized(b: Seq<u8>, i: int, n: nat)
    requires
        0 <= i,
        n <= usize::MAX,
        i + spec_dec_digits(n).len() + 2 <= b.len(),
        forall|k: int|
            0 <= k < spec_dec_digits(n).len() ==> b[i + k] == #[trigger] spec_dec_digits(n)[k],
        b[i + spec_dec_digits(n).len()] == CR,
        b[i + spec_dec_digits(n).len() + 1] == LF,
    ensures
        spec_parse_len(b, i, 0, 0, false) == LenOutcome::LenFound(
            n as int,
            i + spec_dec_digits(n).len() + 2,
        ),
{
    lemma_dec_digits_shape(n);
    lemma_scan_val_dec_digits(n);
    lemma_parse_len_scan(b, i, 0, 0, false, spec_dec_digits(n));
}

/// Scanning a CR-free body that ends in CRLF finds exactly that body.
proof fn lemma_parse_simple_scan(b: Seq<u8>, start: int, cur: int, end: int)
    requires
        0 <= start <= cur <= end,
        end + 2 <= b.len(),
        forall|k: int| cur <= k < end ==> b[k] != CR,
        b[end] == CR,
        b[end + 1] == LF,
    ensures
        spec_parse_simple(b, start, cur) == ParseOutcome::Found(
            ValueModel::SimpleString(b.subrange(start, end)),
            end + 2,
        ),
    decreases end - cur,
{
    if cur < end {
        lemma_parse_simple_scan(b, start, cur + 1, end);
    }
}

/// Parsing at a position where the encoding of a parseable frame lies
/// finds exactly that frame and stops just past its encoding.
pub proof fn lemma_parse_serialized_at(b: Seq<u8>, i: int, m: ValueModel)
    requires
        parseable(m),
        0 <= i,
        i + spec_serialize(m).len() <= b.len(),
        forall|k: int| 0 <= k < spec_serialize(m).len() ==> b[i + k] == #[trigger] spec_serialize(
            m,
        )[k],
    ensures
        spec_parse_value(b, i) == ParseOutcome::Found(m, i + spec_serialize(m).len() as int),
    decreases m,
{
    let ser = spec_serialize(m);
    match m {
        ValueModel::SimpleString(body) => {
            assert(ser == seq![PLUS] + body + seq![CR, LF]);
            assert(ser[0] == PLUS);
            assert(b[i + 0] == ser[0]);
            assert(b[i] == PLUS);
            assert forall|k: int| i + 1 <= k < i + 1 + body.len() implies b[k] != CR by {
                assert(b[k] == ser[k - i]);
                assert(ser[k - i] == body[k - i - 1]);
                assert(!body.contains(body[k - i - 1]) ==> true);
                assert(body[k - i - 1] != CR) by {
                    if body[k - i - 1] == CR {
                        assert(body.contains(CR));
                    }
                }
            }
            assert(b[i + 1 + body.len()] == CR) by {
                assert(ser[1 + body.len() as int] == CR);
            }
            assert(b[i + 1 + body.len() + 1] == LF) by {
                assert(ser[1 + body.len() as int + 1] == LF);
            }
            lemma_parse_simple_scan(b, i + 1, i + 1, i + 1 + body.len() as int);
            assert forall|t: int| 0 <= t < body.len() implies b.subrange(
                i + 1,
                i + 1 + body.len() as int,
            )[t] == body[t] by {
                assert(b[i + (1 + t)] == ser[1 + t]);
                assert(ser[1 + t] == body[t]);
            }
            assert(b.subrange(i + 1, i + 1 + body.len() as int) =~= body);
            assert(spec_parse_value(b, i) == spec_parse_simple(b, i + 1, i + 1));
        },
        ValueModel::BulkString(ob) => {
            let body = ob->0;
            let dd = spec_dec_digits(body.len());
            assert(ser == seq![DOLLAR] + dd + seq![CR, LF] + body + seq![CR, LF]);
            assert(ser[0] == DOLLAR);
            assert(b[i + 0] == ser[0]);
            assert(b[i] == DOLLAR);
            assert forall|k: int| 0 <= k < dd.len() implies b[i + 1 + k] == #[trigger] dd[k] by {
                assert(b[i + (1 + k)] == ser[1 + k]);
                assert(ser[1 + k] == dd[k]);
            }
            assert(b[i + 1 + dd.len()] == CR) by {
                assert(ser[1 + dd.len() as int] == CR);
            }
            assert(b[i + 1 + dd.len() + 1] == LF) by {
                assert(ser[1 + dd.len() as int + 1] == LF);
            }
            lemma_parse_len_serialized(b, i + 1, body.len());
            let j = i + 1 + dd.len() + 2;
            assert(spec_parse_len(b, i + 1, 0, 0, false) == LenOutcome::LenFound(
                body.len() as int,
                j,
            ));
            assert forall|t: int| 0 <= t < body.len() implies b[j + t] == #[trigger] body[t] by {
                assert(b[i + (3 + dd.len() + t)] == ser[3 + dd.len() + t]);
                assert(ser[3 + dd.len() + t] == body[t]);
            }
            assert(b[j + body.len()] == CR) by {
                assert(ser[3 + dd.len() as int + body.len() as int] == CR);
            }
            assert(b[j + body.len() + 1] == LF) by {
                assert(ser[3 + dd.len() as int + body.len() as int + 1] == LF);
            }
            assert(j + body.len() + 2 <= b.len());
            assert(b.subrange(j, j + body.len() as int) =~= body);
            assert(spec_parse_value(b, i) == ParseOutcome::Found(
                ValueModel::BulkString(Some(b.subrange(j, j + body.len() as int))),
                j + body.len() + 2,
            ));
            assert(ValueModel::BulkString(Some(b.subrange(j, j + body.len() as int))) == m);
            assert(j + body.len() + 2 == i + ser.len());
        },
        ValueModel::Array(elems) => {
            let dd = spec_dec_digits(elems.len());
            let tail = spec_serialize_elems(elems);
            assert(ser == seq![STAR] + dd + seq![CR, LF] + tail);
            assert(ser[0] == STAR);
            assert(b[i + 0] == ser[0]);
            assert(b[i] == STAR);
            assert forall|k: int| 0 <= k < dd.len() implies b[i + 1 + k] == #[trigger] dd[k] by {
                assert(b[i + (1 + k)] == ser[1 + k]);
                assert(ser[1 + k] == dd[k]);
            }
            assert(b[i + 1 + dd.len()] == CR) by {
                assert(ser[1 + dd.len() as int] == CR);
            }
            assert(b[i + 1 + dd.len() + 1] == LF) by {
                assert(ser[1 + dd.len() as int + 1] == LF);
            }
            lemma_parse_len_serialized(b, i + 1, elems.len());
            let j = i + 1 + dd.len() + 2;
            assert forall|t: int| 0 <= t < tail.len() implies b[j + t] == #[trigger] tail[t] by {
                assert(b[i + (3 + dd.len() + t)] == ser[3 + dd.len() + t]);
                assert(ser[3 + dd.len() + t] == tail[t]);
            }
            assert(i < j <= b.len());
            lemma_parse_elems_serialized(b, j, elems, Seq::empty());
            assert(Seq::<ValueModel>::empty() + elems =~= elems);
            assert(spec_parse_value(b, i) == spec_parse_elems(
                b,
                j,
                elems.len() as int,
                Seq::empty(),
            ));
            assert(j + tail.len() == i + ser.len());
        },
        ValueModel::Integer(_) => {
            assert(false);
        },
        ValueModel::Rdb(_) => {
            assert(false);
        },
    }
}

/// Parsing `rest.len()` more elements where their concatenated encodings
/// lie appends exactly `rest` to the elements already collected.
proof fn lemma_parse_elems_serialized(
    b: Seq<u8>,
    i: int,
    rest: Seq<ValueModel>,
    acc: Seq<ValueModel>,
)
    requires
        forall|k: int| 0 <= k < rest.len() ==> parseable(#[trigger] rest[k]),
        0 <= i,
        i + spec_serialize_elems(rest).len() <= b.len(),
        forall|k: int|
            0 <= k < spec_serialize_elems(rest).len() ==> b[i + k]
                == #[trigger] spec_serialize_elems(rest)[k],
    ensures
        spec_parse_elems(b, i, rest.len() as int, acc) == ParseOutcome::Found(
            ValueModel::Array(acc + rest),
            i + spec_serialize_elems(rest).len() as int,
        ),
    decreases rest,
{
    if rest.len() == 0 {
        assert(acc + rest =~= acc);
        assert(spec_parse_elems(b, i, 0, acc) == ParseOutcome::Found(ValueModel::Array(acc), i));
    } else {
        let m0 = rest[0];
        let r2 = rest.drop_first();
        let ser0 = spec_serialize(m0);
        let tail = spec_serialize_elems(r2);
        assert(spec_serialize_elems(rest) == ser0 + tail);
        assert forall|k: int| 0 <= k < ser0.len() implies b[i + k] == #[trigger] ser0[k] by {
            assert(b[i + k] == spec_serialize_elems(rest)[k]);
        }
        lemma_parse_serialized_at(b, i, m0);
        let j = i + ser0.len();
        lemma_serialize_nonempty(m0);
        assert(i < j <= b.len());
        assert forall|k: int| 0 <= k < tail.len() implies b[j + k] == #[trigger] tail[k] by {
            assert(b[i + (ser0.len() + k)] == spec_serialize_elems(rest)[ser0.len() + k]);
            assert(spec_serialize_elems(rest)[ser0.len() + k] == tail[k]);
        }
        assert forall|k: int| 0 <= k < r2.len() implies parseable(#[trigger] r2[k]) by {
            assert(r2[k] == rest[k + 1]);
        }
        lemma_parse_elems_serialized(b, j, r2, acc.push(m0));
        assert(acc.push(m0) + r2 =~= acc + rest);
        assert(spec_parse_elems(b, i, rest.len() as int, acc) == spec_parse_elems(
            b,
            j,
            r2.len() as int,
            acc.push(m0),
        ));
        assert(j + tail.len() == i + spec_serialize_elems(rest).len());
    }
}

/// Round trip: parsing the encoding of any parseable frame, whatever bytes
/// follow it, finds exactly that frame and consumes exactly its encoding.
pub proof fn lemma_parse_serialize(m: ValueModel, rest: Seq<u8>)
    requires
        parseable(m),
    ensures
        spec_parse_value(spec_serialize(m) + rest, 0) == ParseOutcome::Found(
            m,
            spec_serialize(m).len() as int,
        ),
{
    let b = spec_serialize(m) + rest;
    assert forall|k: int| 0 <= k < spec_serialize(m).len() implies b[0 + k]
        == #[trigger] spec_serialize(m)[k] by {}
    lemma_parse_serialized_at(b, 0, m);
}

/// A simple-string body that parses completely ends past where the scan
/// stood, inside the buffer.
pub proof fn lemma_parse_simple_advances(b: Seq<u8>, start: int, i: int)
    requires
        0 <= i,
    ensures
        spec_parse_simple(b, start, i) matches ParseOutcome::Found(v, j) ==> i < j <= b.len(),
    decreases b.len() - i,
{
    if 0 <= i < b.len() && b[i] != CR {
        lemma_parse_simple_advances(b, start, i + 1);
    }
}

/// A frame that parses completely ends past its first byte, inside the
/// buffer: the clamped branches of [`spec_parse_value`] and
/// [`spec_parse_elems`] are never taken.
pub proof fn lemma_parse_value_advances(b: Seq<u8>, i: int)
    requires
        0 <= i,
    ensures
        spec_parse_value(b, i) matches ParseOutcome::Found(v, j) ==> i < j <= b.len(),
    decreases b.len() - i, 0int,
{
    if 0 <= i < b.len() {
        if b[i] == DOLLAR {
            lemma_parse_len_advances(b, i + 1, 0, 0, false);
        } else if b[i] == STAR {
            lemma_parse_len_advances(b, i + 1, 0, 0, false);
            match spec_parse_len(b, i + 1, 0, 0, false) {
                LenOutcome::LenFound(n, j0) => {
                    if i < j0 <= b.len() {
                        lemma_parse_elems_advances(b, j0, n, Seq::empty());
                    }
                },
                _ => {},
            }
        } else if b[i] == PLUS {
            lemma_parse_simple_advances(b, i + 1, i + 1);
        }
    }
}

/// Parsing the elements of an array never moves backwards and stays
/// inside the buffer.
pub proof fn lemma_parse_elems_advances(b: Seq<u8>, i: int, n: int, acc: Seq<ValueModel>)
    requires
        0 <= i <= b.len(),
    ensures
        spec_parse_elems(b, i, n, acc) matches ParseOutcome::Found(v, j) ==> i <= j <= b.len(),
    decreases b.len() - i, 1int,
{
    if n > 0 {
        lemma_parse_value_advances(b, i);
        match spec_parse_value(b, i) {
            ParseOutcome::Found(v0, j0) => {
                if i < j0 <= b.len() {
                    lemma_parse_elems_advances(b, j0, n - 1, acc.push(v0));
                }
            },
            _ => {},
        }
    }
}

/// Parser idempotence: appending no bytes leaves the buffer whole, and
/// the outcome of a parse is a function of the buffer alone, so a parse
/// that found nothing complete finds nothing complete again, from the
/// same position, until new bytes arrive.
pub proof fn lemma_parse_idempotent(b: Seq<u8>)
    ensures
        spec_parse_value(b + Seq::<u8>::empty(), 0) == spec_parse_value(b, 0),
        spec_parse_rdb(b + Seq::<u8>::empty()) == spec_parse_rdb(b),
{
    assert(b + Seq::<u8>::empty() =~= b);
}

} // verus!
