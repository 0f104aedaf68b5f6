//! The frame decoder: one complete RESP2 unit from the prefix of a byte
//! buffer, together with the unconsumed suffix.
//!
//! The grammar is stated by `spec_dec`, a total function from a buffer and
//! a start position to one of three outcomes: a decoded frame with the
//! position just past it, `Incomplete` (the prefix is a valid but truncated
//! encoding; more bytes are needed), or `Invalid` (the prefix is not a
//! well-formed encoding: bad length prefix, unrecognized type tag,
//! non-numeric length field). The executable decoder is proved to return
//! exactly what `spec_dec` says, so the two error kinds are pinned down
//! if-and-only-if.

use vstd::prelude::*;

use crate::value::RespSpec;
use crate::value::RespValue;
use crate::value::lemma_views_of_push;
use crate::value::views_of;

verus! {

broadcast use vstd::std_specs::vec::group_vec_axioms;

/// A decode attempt ends one of three ways: never a panic, never a partial
/// consumption. `Incomplete` is expected, recoverable streaming state;
/// `Invalid` means framing is violated and the same bytes must not be
/// retried.
#[derive(Debug)]
pub enum ParseError {
    Incomplete,
    Invalid(String),
}

/// The text of an error, in place of a `Display` impl.
pub open spec fn spec_message(e: ParseError) -> Seq<char> {
    match e {
        ParseError::Incomplete => "Incomplete data"@,
        ParseError::Invalid(m) => "Invalid protocol: "@ + m@,
    }
}

impl ParseError {
    /// Human-readable description of the error.
    pub fn message(&self) -> (m: String)
        ensures
            m@ == spec_message(*self),
    {
        match self {
            ParseError::Incomplete => "Incomplete data".to_owned(),
            ParseError::Invalid(s) => {
                let head = "Invalid protocol: ".to_owned();
                vstd::string::StringExecFns::concat(head, s.as_str())
            },
        }
    }
}

/// An ASCII decimal digit.
pub open spec fn is_digit(b: u8) -> bool {
    48 <= b <= 57
}

/// The first position at or after `pos` whose byte is not a digit
/// (`s.len()` if the digits run to the end).
pub open spec fn digits_end(s: Seq<u8>, pos: int) -> int
    decreases s.len() - pos,
{
    if 0 <= pos < s.len() && is_digit(s[pos]) {
        digits_end(s, pos + 1)
    } else {
        pos
    }
}

/// The value of the decimal digits `s[lo..hi]`.
pub open spec fn digits_val(s: Seq<u8>, lo: int, hi: int) -> int
    decreases hi - lo,
{
    if lo >= hi {
        0
    } else {
        digits_val(s, lo, hi - 1) * 10 + (s[hi - 1] - 48)
    }
}

/// The first position at or after `pos` holding a carriage return
/// (`s.len()` if there is none).
pub open spec fn line_cr(s: Seq<u8>, pos: int) -> int
    decreases s.len() - pos,
{
    if 0 <= pos < s.len() {
        if s[pos] == 13 {
            pos
        } else {
            line_cr(s, pos + 1)
        }
    } else {
        pos
    }
}

/// Outcome of reading one `<decimal>\r\n` number line.
pub enum NumStep {
    Num(int, int),
    Incomplete,
    Invalid,
}

/// Reads an optionally negative decimal number terminated by `\r\n`,
/// starting at `pos`: the value and the position past the terminator.
pub open spec fn spec_num_line(s: Seq<u8>, pos: int) -> NumStep {
    if pos < 0 || pos >= s.len() {
        NumStep::Incomplete
    } else {
        let neg = s[pos] == 45;
        let dstart = if neg {
            pos + 1
        } else {
            pos
        };
        if dstart >= s.len() {
            NumStep::Incomplete
        } else if !is_digit(s[dstart]) {
            NumStep::Invalid
        } else {
            let dend = digits_end(s, dstart);
            let magnitude = digits_val(s, dstart, dend);
            let value = if neg {
                -magnitude
            } else {
                magnitude
            };
            if dend >= s.len() {
                NumStep::Incomplete
            } else if s[dend] != 13 {
                NumStep::Invalid
            } else if dend + 1 >= s.len() {
                NumStep::Incomplete
            } else if s[dend + 1] != 10 {
                NumStep::Invalid
            } else {
                NumStep::Num(value, dend + 2)
            }
        }
    }
}

/// Outcome of decoding one frame.
pub enum DecStep {
    Frame(RespSpec, int),
    Incomplete,
    Invalid,
}

/// Outcome of decoding a run of frames.
pub enum ElemsStep {
    Elems(Seq<RespSpec>, int),
    Incomplete,
    Invalid,
}

/// Decodes one frame of `s` starting at `pos`: the decoded value and the
/// position just past its encoding, or `Incomplete` / `Invalid`.
/// Both `$-1\r\n` and `*-1\r\n` decode to `Null`. Length and count fields,
/// and integer values, beyond the signed 64-bit range are `Invalid`.
pub open spec fn spec_dec(s: Seq<u8>, pos: int) -> DecStep
    decreases s.len() - pos, 0int,
{
    if pos < 0 || pos >= s.len() {
        DecStep::Incomplete
    } else if s[pos] == 43 || s[pos] == 45 {
        let e = line_cr(s, pos + 1);
        if e >= s.len() || e + 1 >= s.len() {
            DecStep::Incomplete
        } else if s[e + 1] != 10 {
            DecStep::Invalid
        } else if s[pos] == 43 {
            DecStep::Frame(RespSpec::SimpleString(s.subrange(pos + 1, e)), e + 2)
        } else {
            DecStep::Frame(RespSpec::Error(s.subrange(pos + 1, e)), e + 2)
        }
    } else if s[pos] == 58 {
        match spec_num_line(s, pos + 1) {
            NumStep::Num(v, after) => if -0x8000_0000_0000_0000 <= v <= 0x7fff_ffff_ffff_ffff {
                DecStep::Frame(RespSpec::Integer(v), after)
            } else {
                DecStep::Invalid
            },
            NumStep::Incomplete => DecStep::Incomplete,
            NumStep::Invalid => DecStep::Invalid,
        }
    } else if s[pos] == 36 {
        match spec_num_line(s, pos + 1) {
            NumStep::Num(v, after) => if v == -1 {
                DecStep::Frame(RespSpec::Null, after)
            } else if v < 0 || v > 0x7fff_ffff_ffff_ffff {
                DecStep::Invalid
            } else if after < 0 || after + v + 2 > s.len() {
                DecStep::Incomplete
            } else if s[after + v] == 13 && s[after + v + 1] == 10 {
                DecStep::Frame(RespSpec::BulkString(s.subrange(after, after + v)), after + v + 2)
            } else {
                DecStep::Invalid
            },
            NumStep::Incomplete => DecStep::Incomplete,
            NumStep::Invalid => DecStep::Invalid,
        }
    } else if s[pos] == 42 {
        match spec_num_line(s, pos + 1) {
            NumStep::Num(v, after) => if v == -1 {
                DecStep::Frame(RespSpec::Null, after)
            } else if v < 0 || v > 0x7fff_ffff_ffff_ffff {
                DecStep::Invalid
            } else if !(pos < after <= s.len()) {
                DecStep::Invalid
            } else {
                match spec_dec_elems(s, after, v as nat) {
                    ElemsStep::Elems(es, end) => DecStep::Frame(RespSpec::Array(es), end),
                    ElemsStep::Incomplete => DecStep::Incomplete,
                    ElemsStep::Invalid => DecStep::Invalid,
                }
            },
            NumStep::Incomplete => DecStep::Incomplete,
            NumStep::Invalid => DecStep::Invalid,
        }
    } else {
        DecStep::Invalid
    }
}

/// Decodes `n` frames of `s` back to back, starting at `pos`.
pub open spec fn spec_dec_elems(s: Seq<u8>, pos: int, n: nat) -> ElemsStep
    decreases s.len() - pos, n,
{
    if n == 0 {
        ElemsStep::Elems(Seq::empty(), pos)
    } else {
        match spec_dec(s, pos) {
            DecStep::Frame(v, end) => if !(pos < end <= s.len()) {
                ElemsStep::Invalid
            } else {
                match spec_dec_elems(s, end, (n - 1) as nat) {
                    ElemsStep::Elems(rest, after) => ElemsStep::Elems(seq![v] + rest, after),
                    ElemsStep::Incomplete => ElemsStep::Incomplete,
                    ElemsStep::Invalid => ElemsStep::Invalid,
                }
            },
            DecStep::Incomplete => ElemsStep::Incomplete,
            DecStep::Invalid => ElemsStep::Invalid,
        }
    }
}

/// Appends a run outcome to already-decoded leading elements.
pub open spec fn elems_join(prefix: Seq<RespSpec>, rest: ElemsStep) -> ElemsStep {
    match rest {
        ElemsStep::Elems(es, end) => ElemsStep::Elems(prefix + es, end),
        ElemsStep::Incomplete => ElemsStep::Incomplete,
        ElemsStep::Invalid => ElemsStep::Invalid,
    }
}

proof fn lemma_join_join(a: Seq<RespSpec>, b: Seq<RespSpec>, x: ElemsStep)
    ensures
        elems_join(a, elems_join(b, x)) == elems_join(a + b, x),
{
    match x {
        ElemsStep::Elems(es, end) => {
            assert(a + (b + es) =~= (a + b) + es);
        },
        _ => {},
    }
}

/// Basic shape of `digits_end`: it never moves backwards, never leaves the
/// buffer, everything before it is a digit, and it stops at a non-digit.
proof fn lemma_digits_end(s: Seq<u8>, pos: int)
    requires
        0 <= pos <= s.len(),
    ensures
        pos <= digits_end(s, pos) <= s.len(),
        forall|i: int| pos <= i < digits_end(s, pos) ==> is_digit(s[i]),
        digits_end(s, pos) < s.len() ==> !is_digit(s[digits_end(s, pos)]),
    decreases s.len() - pos,
{
    if pos < s.len() && is_digit(s[pos]) {
        lemma_digits_end(s, pos + 1);
    }
}

/// Basic shape of `line_cr`: it never moves backwards, never leaves the
/// buffer, nothing before it is a carriage return, and it stops at one.
proof fn lemma_line_cr(s: Seq<u8>, pos: int)
    requires
        0 <= pos <= s.len(),
    ensures
        pos <= line_cr(s, pos) <= s.len(),
        forall|i: int| pos <= i < line_cr(s, pos) ==> s[i] != 13,
        line_cr(s, pos) < s.len() ==> s[line_cr(s, pos)] == 13,
    decreases s.len() - pos,
{
    if pos < s.len() && s[pos] != 13 {
        lemma_line_cr(s, pos + 1);
    }
}

/// The value of a digit run is never negative.
proof fn lemma_digits_val_nonneg(s: Seq<u8>, lo: int, hi: int)
    requires
        forall|i: int| lo <= i < hi ==> is_digit(s[i]),
    ensures
        digits_val(s, lo, hi) >= 0,
    decreases hi - lo,
{
    if lo < hi {
        lemma_digits_val_nonneg(s, lo, hi - 1);
        vstd::arithmetic::mul::lemma_mul_inequality(0, digits_val(s, lo, hi - 1), 10);
    }
}

/// Exec-side outcome of reading a number line: the value of every accepted
/// line fits in a signed 128-bit word or the line is reported `TooBig`.
enum NumOut {
    Val(i128, usize),
    TooBig,
    Incomplete,
    Invalid,
}

/// Reads one `<decimal>\r\n` line, reporting exactly what `spec_num_line`
/// says; a syntactically well-formed number whose magnitude does not fit
/// in 64 bits is reported `TooBig`.
fn parse_num_line(input: &[u8], pos: usize) -> (r: NumOut)
    requires
        pos <= input@.len(),
    ensures
        match r {
            NumOut::Val(v, after) => spec_num_line(input@, pos as int) == NumStep::Num(
                v as int,
                after as int,
            ) && pos < after <= input@.len(),
            NumOut::TooBig => (spec_num_line(input@, pos as int) matches NumStep::Num(v, _) && (v
                > u64::MAX || v < -(u64::MAX as int))),
            NumOut::Incomplete => spec_num_line(input@, pos as int) is Incomplete,
            NumOut::Invalid => spec_num_line(input@, pos as int) is Invalid,
        },
{
    let ghost s = input@;
    let len = input.len();
    if pos >= len {
        return NumOut::Incomplete;
    }
    let neg = input[pos] == 45;
    let dstart = if neg {
        pos + 1
    } else {
        pos
    };
    if dstart >= len {
        return NumOut::Incomplete;
    }
    if !(input[dstart] >= 48 && input[dstart] <= 57) {
        return NumOut::Invalid;
    }
    proof {
        lemma_digits_end(s, dstart as int);
    }
    let mut i = dstart;
    let mut acc: u64 = 0;
    let mut big = false;
    while i < len && input[i] >= 48 && input[i] <= 57
        invariant
            dstart <= i <= len,
            len == s.len(),
            s == input@,
            forall|j: int| dstart <= j < i ==> is_digit(s[j]),
            digits_end(s, dstart as int) == digits_end(s, i as int),
            !big ==> acc == digits_val(s, dstart as int, i as int),
            big ==> digits_val(s, dstart as int, i as int) > u64::MAX,
        decreases len - i,
    {
        let d = input[i] - 48;
        proof {
            lemma_digits_val_nonneg(s, dstart as int, i as int);
            assert(digits_val(s, dstart as int, i + 1) == digits_val(s, dstart as int, i as int)
                * 10 + (s[i as int] - 48));
        }
        if big {
            proof {
                vstd::arithmetic::mul::lemma_mul_inequality(
                    u64::MAX + 1,
                    digits_val(s, dstart as int, i as int),
                    10,
                );
            }
        } else if acc > (u64::MAX - (d as u64)) / 10 {
            proof {
                let m = u64::MAX - (d as u64);
                vstd::arithmetic::div_mod::lemma_fundamental_div_mod(m as int, 10);
                vstd::arithmetic::mul::lemma_mul_inequality(
                    m as int / 10 + 1,
                    acc as int,
                    10,
                );
            }
            big = true;
        } else {
            proof {
                let m = u64::MAX - (d as u64);
                vstd::arithmetic::div_mod::lemma_fundamental_div_mod(m as int, 10);
                vstd::arithmetic::mul::lemma_mul_inequality(
                    acc as int,
                    m as int / 10,
                    10,
                );
            }
            acc = acc * 10 + (d as u64);
        }
        i = i + 1;
    }
    proof {
        assert(digits_end(s, i as int) == i);
    }
    if i >= len {
        return NumOut::Incomplete;
    }
    if input[i] != 13 {
        return NumOut::Invalid;
    }
    if i + 1 >= len {
        return NumOut::Incomplete;
    }
    if input[i + 1] != 10 {
        return NumOut::Invalid;
    }
    if big {
        return NumOut::TooBig;
    }
    let v: i128 = if neg {
        -(acc as i128)
    } else {
        acc as i128
    };
    NumOut::Val(v, i + 2)
}

/// Exec-side outcome of decoding one frame.
enum FrameOut {
    Frame(RespValue, usize),
    Incomplete,
    Invalid,
}

/// Decodes one frame starting at `pos`, reporting exactly what `spec_dec`
/// says.
#[verifier::loop_isolation(false)]
fn parse_frame_at(input: &[u8], pos: usize) -> (r: FrameOut)
    requires
        pos <= input@.len(),
    ensures
        match r {
            FrameOut::Frame(v, end) => spec_dec(input@, pos as int) == DecStep::Frame(
                v@,
                end as int,
            ) && pos < end <= input@.len(),
            FrameOut::Incomplete => spec_dec(input@, pos as int) is Incomplete,
            FrameOut::Invalid => spec_dec(input@, pos as int) is Invalid,
        },
    decreases input@.len() - pos,
{
    let ghost s = input@;
    let len = input.len();
    if pos >= len {
        return FrameOut::Incomplete;
    }
    let tag = input[pos];
    if tag == 43 || tag == 45 {
        proof {
            lemma_line_cr(s, pos + 1);
        }
        let mut e = pos + 1;
        while e < len && input[e] != 13
            invariant
                pos + 1 <= e <= len,
                line_cr(s, pos + 1) == line_cr(s, e as int),
            decreases len - e,
        {
            e = e + 1;
        }
        assert(line_cr(s, e as int) == e);
        if e >= len {
            return FrameOut::Incomplete;
        }
        if e + 1 >= len {
            return FrameOut::Incomplete;
        }
        if input[e + 1] != 10 {
            return FrameOut::Invalid;
        }
        let payload = vstd::slice::slice_to_vec(vstd::slice::slice_subrange(input, pos + 1, e));
        if tag == 43 {
            FrameOut::Frame(RespValue::SimpleString(payload), e + 2)
        } else {
            FrameOut::Frame(RespValue::Error(payload), e + 2)
        }
    } else if tag == 58 {
        match parse_num_line(input, pos + 1) {
            NumOut::Val(v, after) => {
                if v >= -0x8000_0000_0000_0000i128 && v <= 0x7fff_ffff_ffff_ffffi128 {
                    FrameOut::Frame(RespValue::Integer(v as i64), after)
                } else {
                    FrameOut::Invalid
                }
            },
            NumOut::TooBig => FrameOut::Invalid,
            NumOut::Incomplete => FrameOut::Incomplete,
            NumOut::Invalid => FrameOut::Invalid,
        }
    } else if tag == 36 {
        match parse_num_line(input, pos + 1) {
            NumOut::Val(v, after) => {
                if v == -1 {
                    return FrameOut::Frame(RespValue::Null, after);
                }
                if v < 0 || v > 0x7fff_ffff_ffff_ffffi128 {
                    return FrameOut::Invalid;
                }
                let rem = len - after;
                if rem < 2 || (v as u64) > ((rem - 2) as u64) {
                    return FrameOut::Incomplete;
                }
                let plen = v as usize;
                let pend = after + plen;
                if input[pend] == 13 && input[pend + 1] == 10 {
                    let payload = vstd::slice::slice_to_vec(
                        vstd::slice::slice_subrange(input, after, pend),
                    );
                    FrameOut::Frame(RespValue::BulkString(payload), pend + 2)
                } else {
                    FrameOut::Invalid
                }
            },
            NumOut::TooBig => FrameOut::Invalid,
            NumOut::Incomplete => FrameOut::Incomplete,
            NumOut::Invalid => FrameOut::Invalid,
        }
    } else if tag == 42 {
        match parse_num_line(input, pos + 1) {
            NumOut::Val(v, after) => {
                if v == -1 {
                    return FrameOut::Frame(RespValue::Null, after);
                }
                if v < 0 || v > 0x7fff_ffff_ffff_ffffi128 {
                    return FrameOut::Invalid;
                }
                let n = v as u64;
                let ghost n_nat = v as nat;
                let mut elems: Vec<RespValue> = Vec::new();
                let mut cur = after;
                let mut k: u64 = 0;
                while k < n
                    invariant
                        k <= n,
                        after <= cur <= len,
                        elems@.len() == k,
                        spec_dec_elems(s, after as int, n_nat) == elems_join(
                            views_of(elems@),
                            spec_dec_elems(s, cur as int, (n - k) as nat),
                        ),
                    decreases n - k,
                {
                    match parse_frame_at(input, cur) {
                        FrameOut::Frame(velem, end) => {
                            proof {
                                let m = (n - k) as nat;
                                assert(spec_dec_elems(s, cur as int, m) == elems_join(
                                    seq![velem@],
                                    spec_dec_elems(s, end as int, (m - 1) as nat),
                                ));
                                lemma_join_join(
                                    views_of(elems@),
                                    seq![velem@],
                                    spec_dec_elems(s, end as int, (m - 1) as nat),
                                );
                                lemma_views_of_push(elems@, velem);
                                assert(views_of(elems@) + seq![velem@] =~= views_of(
                                    elems@,
                                ).push(velem@));
                            }
                            elems.push(velem);
                            cur = end;
                            k = k + 1;
                        },
                        FrameOut::Incomplete => {
                            return FrameOut::Incomplete;
                        },
                        FrameOut::Invalid => {
                            return FrameOut::Invalid;
                        },
                    }
                }
                proof {
                    assert(spec_dec_elems(s, cur as int, 0) == ElemsStep::Elems(
                        Seq::<RespSpec>::empty(),
                        cur as int,
                    ));
                    assert(views_of(elems@) + Seq::<RespSpec>::empty() =~= views_of(elems@));
                }
                FrameOut::Frame(RespValue::Array(elems), cur)
            },
            NumOut::TooBig => FrameOut::Invalid,
            NumOut::Incomplete => FrameOut::Incomplete,
            NumOut::Invalid => FrameOut::Invalid,
        }
    } else {
        FrameOut::Invalid
    }
}

/// Decodes exactly one complete protocol value from the prefix of `input`,
/// returning the value and a reference to the remaining, unconsumed suffix.
/// On `Incomplete` the prefix is a valid but truncated encoding and nothing
/// is consumed; on `Invalid` the prefix is not a well-formed RESP2 encoding.
/// The outcome is exactly `spec_dec(input@, 0)`.
pub fn parse_resp_with_remaining<'a>(input: &'a [u8]) -> (r: Result<
    (RespValue, &'a [u8]),
    ParseError,
>)
    ensures
        match r {
            Ok((v, rem)) => spec_dec(input@, 0) matches DecStep::Frame(w, end) && w == v@ && rem@
                == input@.subrange(end, input@.len() as int),
            Err(ParseError::Incomplete) => spec_dec(input@, 0) is Incomplete,
            Err(ParseError::Invalid(_)) => spec_dec(input@, 0) is Invalid,
        },
{
    match parse_frame_at(input, 0) {
        FrameOut::Frame(v, end) => {
            let rem = vstd::slice::slice_subrange(input, end, input.len());
            Ok((v, rem))
        },
        FrameOut::Incomplete => Err(ParseError::Incomplete),
        FrameOut::Invalid => Err(ParseError::Invalid("malformed RESP data".to_owned())),
    }
}

} // verus!
