//! Wire-level laws of the codec: decoding an encoded value yields the
//! value back, with exactly its encoding consumed, and a truncated
//! encoding is always reported `Incomplete`.

use vstd::prelude::*;

use crate::decode::DecStep;
use crate::decode::ElemsStep;
use crate::decode::NumStep;
use crate::decode::digits_end;
use crate::decode::digits_val;
use crate::decode::is_digit;
use crate::decode::line_cr;
use crate::decode::spec_dec;
use crate::decode::spec_dec_elems;
use crate::decode::spec_num_line;
use crate::encode::crlf;
use crate::encode::spec_digits;
use crate::encode::spec_encode;
use crate::encode::spec_encode_elems;
use crate::encode::spec_int_bytes;
use crate::value::RespSpec;

verus! {

/// A value the wire can carry faithfully: simple strings and errors hold
/// no carriage return (the protocol forbids line breaks there), and
/// integers, payload lengths and element counts fit in a signed 64-bit
/// word.
pub open spec fn wf_resp(v: RespSpec) -> bool
    decreases v,
{
    match v {
        RespSpec::SimpleString(s) => forall|i: int| 0 <= i < s.len() ==> s[i] != 13,
        RespSpec::Error(s) => forall|i: int| 0 <= i < s.len() ==> s[i] != 13,
        RespSpec::Integer(n) => -0x8000_0000_0000_0000 <= n <= 0x7fff_ffff_ffff_ffff,
        RespSpec::BulkString(s) => s.len() <= 0x7fff_ffff_ffff_ffff,
        RespSpec::Array(es) => es.len() <= 0x7fff_ffff_ffff_ffff && forall|i: int|
            0 <= i < es.len() ==> wf_resp(#[trigger] es[i]),
        RespSpec::Null => true,
    }
}

/// Where a word sits in a buffer, every byte of the range reads from the
/// word.
proof fn lemma_bytes_at(s: Seq<u8>, pos: int, w: Seq<u8>)
    requires
        0 <= pos,
        pos + w.len() <= s.len(),
        s.subrange(pos, pos + w.len() as int) == w,
    ensures
        forall|i: int| pos <= i < pos + w.len() ==> #[trigger] s[i] == w[i - pos],
{
    assert forall|i: int| pos <= i < pos + w.len() implies #[trigger] s[i] == w[i - pos] by {
        assert(w[i - pos] == s.subrange(pos, pos + w.len() as int)[i - pos]);
    }
}

/// The digits of a number are decimal digits, and there is at least one.
proof fn lemma_digits_props(n: nat)
    ensures
        spec_digits(n).len() >= 1,
        forall|i: int| 0 <= i < spec_digits(n).len() ==> is_digit(#[trigger] spec_digits(n)[i]),
    decreases n,
{
    if n >= 10 {
        lemma_digits_props(n / 10);
    }
}

/// Where a run of digits is followed by a non-digit (or the buffer's end),
/// `digits_end` lands exactly there.
proof fn lemma_digits_end_determined(s: Seq<u8>, lo: int, hi: int)
    requires
        0 <= lo <= hi <= s.len(),
        forall|i: int| lo <= i < hi ==> is_digit(#[trigger] s[i]),
        hi < s.len() ==> !is_digit(s[hi]),
    ensures
        digits_end(s, lo) == hi,
    decreases hi - lo,
{
    if lo < hi {
        lemma_digits_end_determined(s, lo + 1, hi);
    }
}

/// Where no byte of a range is a carriage return and the byte after it is
/// (or the buffer ends), `line_cr` lands exactly there.
proof fn lemma_line_cr_determined(s: Seq<u8>, lo: int, hi: int)
    requires
        0 <= lo <= hi <= s.len(),
        forall|i: int| lo <= i < hi ==> s[i] != 13,
        hi < s.len() ==> s[hi] == 13,
    ensures
        line_cr(s, lo) == hi,
    decreases hi - lo,
{
    if lo < hi {
        lemma_line_cr_determined(s, lo + 1, hi);
    }
}

/// The value of the digits of `n`, read back, is `n`.
proof fn lemma_digits_val_of(s: Seq<u8>, lo: int, n: nat)
    requires
        0 <= lo,
        lo + spec_digits(n).len() <= s.len(),
        s.subrange(lo, lo + spec_digits(n).len() as int) == spec_digits(n),
    ensures
        digits_val(s, lo, lo + spec_digits(n).len() as int) == n,
    decreases n,
{
    let d = spec_digits(n);
    let hi = lo + d.len();
    lemma_bytes_at(s, lo, d);
    assert(s[hi - 1] == d[d.len() - 1]);
    if n < 10 {
        assert(digits_val(s, lo, hi) == digits_val(s, lo, lo) * 10 + (s[lo] - 48));
    } else {
        assert(s.subrange(lo, hi - 1) =~= spec_digits(n / 10));
        lemma_digits_val_of(s, lo, n / 10);
        assert(digits_val(s, lo, hi) == digits_val(s, lo, hi - 1) * 10 + (s[hi - 1] - 48));
        assert(n == 10 * (n / 10) + n % 10) by {
            vstd::arithmetic::div_mod::lemma_fundamental_div_mod(n as int, 10);
        }
    }
}

/// Reading a number line that holds exactly the decimal form of `n`,
/// terminated by `\r\n`, yields `n` and ends past the terminator.
proof fn lemma_num_line_of(s: Seq<u8>, pos: int, n: int)
    requires
        0 <= pos,
        pos + spec_int_bytes(n).len() + 2 <= s.len(),
        s.subrange(pos, pos + spec_int_bytes(n).len() as int) == spec_int_bytes(n),
        s[pos + spec_int_bytes(n).len() as int] == 13,
        s[pos + spec_int_bytes(n).len() as int + 1] == 10,
    ensures
        spec_num_line(s, pos) == NumStep::Num(n, pos + spec_int_bytes(n).len() + 2),
{
    let ib = spec_int_bytes(n);
    lemma_bytes_at(s, pos, ib);
    if n >= 0 {
        lemma_digits_props(n as nat);
        assert(forall|i: int| pos <= i < pos + ib.len() ==> is_digit(#[trigger] s[i]));
        assert(!is_digit(s[pos + ib.len() as int]));
        lemma_digits_end_determined(s, pos, pos + ib.len());
        assert(s.subrange(pos, pos + spec_digits(n as nat).len() as int) =~= spec_digits(
            n as nat,
        ));
        lemma_digits_val_of(s, pos, n as nat);
    } else {
        let m = (-n) as nat;
        lemma_digits_props(m);
        assert(s[pos] == 45);
        assert(forall|i: int| pos + 1 <= i < pos + ib.len() ==> is_digit(#[trigger] s[i]));
        assert(!is_digit(s[pos + ib.len() as int]));
        lemma_digits_end_determined(s, pos + 1, pos + ib.len());
        assert(s.subrange(pos + 1, pos + 1 + spec_digits(m).len() as int) =~= spec_digits(m));
        lemma_digits_val_of(s, pos + 1, m);
    }
}

/// Every encoding is at least three bytes long.
proof fn lemma_encode_len_min(v: RespSpec)
    ensures
        spec_encode(v).len() >= 3,
{
    match v {
        RespSpec::Integer(n) => {
            if n >= 0 {
                lemma_digits_props(n as nat);
            } else {
                lemma_digits_props((-n) as nat);
            }
        },
        RespSpec::BulkString(s) => {
            lemma_digits_props(s.len());
        },
        RespSpec::Array(es) => {
            lemma_digits_props(es.len());
        },
        _ => {},
    }
}

/// Decoding at a position where the exact encoding of `v` sits yields `v`
/// and ends exactly past that encoding, whatever bytes follow.
#[verifier::rlimit(100)]
#[verifier::spinoff_prover]
pub proof fn lemma_dec_of_encoding(v: RespSpec, s: Seq<u8>, pos: int)
    requires
        wf_resp(v),
        0 <= pos,
        pos + spec_encode(v).len() <= s.len(),
        s.subrange(pos, pos + spec_encode(v).len() as int) == spec_encode(v),
    ensures
        spec_dec(s, pos) == DecStep::Frame(v, pos + spec_encode(v).len()),
    decreases v,
{
    let enc = spec_encode(v);
    lemma_bytes_at(s, pos, enc);
    match v {
        RespSpec::SimpleString(p) => {
            assert(s[pos] == 43);
            lemma_line_cr_determined(s, pos + 1, pos + 1 + p.len());
            assert(s.subrange(pos + 1, pos + 1 + p.len() as int) =~= p);
        },
        RespSpec::Error(p) => {
            assert(s[pos] == 45);
            lemma_line_cr_determined(s, pos + 1, pos + 1 + p.len());
            assert(s.subrange(pos + 1, pos + 1 + p.len() as int) =~= p);
        },
        RespSpec::Integer(n) => {
            assert(s[pos] == 58);
            assert(s.subrange(pos + 1, pos + 1 + spec_int_bytes(n).len() as int) =~= spec_int_bytes(
                n,
            ));
            lemma_num_line_of(s, pos + 1, n);
        },
        RespSpec::BulkString(p) => {
            assert(s[pos] == 36);
            let lb = spec_int_bytes(p.len() as int);
            assert(s.subrange(pos + 1, pos + 1 + lb.len() as int) =~= lb);
            lemma_num_line_of(s, pos + 1, p.len() as int);
            let after = pos + 1 + lb.len() + 2;
            assert(s.subrange(after, after + p.len() as int) =~= p);
            assert(s[after + p.len()] == 13);
            assert(s[after + p.len() + 1] == 10);
        },
        RespSpec::Array(es) => {
            assert(s[pos] == 42);
            let cb = spec_int_bytes(es.len() as int);
            assert(s.subrange(pos + 1, pos + 1 + cb.len() as int) =~= cb);
            lemma_num_line_of(s, pos + 1, es.len() as int);
            let after = pos + 1 + cb.len() + 2;
            assert(s.subrange(after, after + spec_encode_elems(es).len() as int)
                =~= spec_encode_elems(es));
            lemma_dec_elems_of_encoding(es, s, after);
        },
        RespSpec::Null => {
            assert(s[pos] == 36);
            assert(s[pos + 1] == 45);
            assert(is_digit(s[pos + 2]));
            assert(!is_digit(s[pos + 3]));
            lemma_digits_end_determined(s, pos + 2, pos + 3);
            assert(digits_val(s, pos + 2, pos + 3) == digits_val(s, pos + 2, pos + 2) * 10 + (s[pos
                + 2] - 48));
        },
    }
}

/// Decoding a run of positions holding exactly the encodings of `vs`
/// yields `vs`, ending exactly past them.
pub proof fn lemma_dec_elems_of_encoding(vs: Seq<RespSpec>, s: Seq<u8>, pos: int)
    requires
        forall|i: int| 0 <= i < vs.len() ==> wf_resp(#[trigger] vs[i]),
        0 <= pos,
        pos + spec_encode_elems(vs).len() <= s.len(),
        s.subrange(pos, pos + spec_encode_elems(vs).len() as int) == spec_encode_elems(vs),
    ensures
        spec_dec_elems(s, pos, vs.len()) == ElemsStep::Elems(vs, pos + spec_encode_elems(vs).len()),
    decreases vs,
{
    if vs.len() == 0 {
        assert(spec_dec_elems(s, pos, 0) == ElemsStep::Elems(Seq::<RespSpec>::empty(), pos));
        assert(vs =~= Seq::<RespSpec>::empty());
    } else {
        let head = vs.first();
        let rest = vs.drop_first();
        let e0 = spec_encode(head);
        let etail = spec_encode_elems(rest);
        assert(spec_encode_elems(vs) == e0 + etail);
        lemma_bytes_at(s, pos, spec_encode_elems(vs));
        assert(s.subrange(pos, pos + e0.len() as int) =~= e0);
        lemma_dec_of_encoding(head, s, pos);
        let mid = pos + e0.len();
        assert(s.subrange(mid, mid + etail.len() as int) =~= etail);
        lemma_dec_elems_of_encoding(rest, s, mid);
        lemma_encode_len_min(head);
        assert(seq![head] + rest =~= vs);
    }
}

/// A number line cut off anywhere before its terminating line feed reads
/// as `Incomplete`.
proof fn lemma_num_line_prefix(s: Seq<u8>, pos: int, n: int)
    requires
        0 <= pos <= s.len(),
        s.len() - pos < spec_int_bytes(n).len() + 2,
        s.subrange(pos, s.len() as int) == (spec_int_bytes(n) + crlf()).take(s.len() - pos),
    ensures
        spec_num_line(s, pos) is Incomplete,
{
    let k = s.len() - pos;
    let ib = spec_int_bytes(n);
    let w = (ib + crlf()).take(k);
    lemma_bytes_at(s, pos, w);
    if k == 0 {
    } else {
        if n >= 0 {
            lemma_digits_props(n as nat);
            if k <= ib.len() {
                assert(forall|i: int| pos <= i < s.len() ==> is_digit(#[trigger] s[i]));
                lemma_digits_end_determined(s, pos, s.len() as int);
            } else {
                assert(forall|i: int| pos <= i < s.len() - 1 ==> is_digit(#[trigger] s[i]));
                assert(s[s.len() - 1] == 13);
                lemma_digits_end_determined(s, pos, s.len() - 1);
            }
        } else {
            let m = (-n) as nat;
            lemma_digits_props(m);
            assert(s[pos] == 45);
            if k == 1 {
            } else if k <= ib.len() {
                assert(forall|i: int| pos + 1 <= i < s.len() ==> is_digit(#[trigger] s[i]));
                lemma_digits_end_determined(s, pos + 1, s.len() as int);
            } else {
                assert(forall|i: int| pos + 1 <= i < s.len() - 1 ==> is_digit(#[trigger] s[i]));
                assert(s[s.len() - 1] == 13);
                lemma_digits_end_determined(s, pos + 1, s.len() - 1);
            }
        }
    }
}

/// A buffer that ends anywhere strictly inside the encoding of a
/// well-formed value reads as `Incomplete` from the encoding's start.
#[verifier::rlimit(100)]
#[verifier::spinoff_prover]
proof fn lemma_prefix_incomplete_at(v: RespSpec, s: Seq<u8>, pos: int)
    requires
        wf_resp(v),
        0 <= pos <= s.len(),
        s.len() - pos < spec_encode(v).len(),
        s.subrange(pos, s.len() as int) == spec_encode(v).take(s.len() - pos),
    ensures
        spec_dec(s, pos) is Incomplete,
    decreases v,
{
    let enc = spec_encode(v);
    let k = s.len() - pos;
    lemma_bytes_at(s, pos, enc.take(k));
    if k == 0 {
    } else {
        match v {
            RespSpec::SimpleString(p) => {
                assert(s[pos] == 43);
                if k <= 1 + p.len() {
                    assert(forall|i: int| pos + 1 <= i < s.len() ==> #[trigger] s[i] != 13);
                    lemma_line_cr_determined(s, pos + 1, s.len() as int);
                } else {
                    assert(forall|i: int| pos + 1 <= i < s.len() - 1 ==> #[trigger] s[i] != 13);
                    assert(s[s.len() - 1] == 13);
                    lemma_line_cr_determined(s, pos + 1, s.len() - 1);
                }
            },
            RespSpec::Error(p) => {
                assert(s[pos] == 45);
                if k <= 1 + p.len() {
                    assert(forall|i: int| pos + 1 <= i < s.len() ==> #[trigger] s[i] != 13);
                    lemma_line_cr_determined(s, pos + 1, s.len() as int);
                } else {
                    assert(forall|i: int| pos + 1 <= i < s.len() - 1 ==> #[trigger] s[i] != 13);
                    assert(s[s.len() - 1] == 13);
                    lemma_line_cr_determined(s, pos + 1, s.len() - 1);
                }
            },
            RespSpec::Integer(n) => {
                assert(s[pos] == 58);
                assert(s.subrange(pos + 1, s.len() as int) =~= (spec_int_bytes(n) + crlf()).take(
                    k - 1,
                ));
                lemma_num_line_prefix(s, pos + 1, n);
            },
            RespSpec::Null => {
                assert(spec_encode(v) =~= seq![36u8] + (spec_int_bytes(-1) + crlf()));
                assert(s[pos] == 36);
                assert(s.subrange(pos + 1, s.len() as int) =~= (spec_int_bytes(-1) + crlf()).take(
                    k - 1,
                ));
                lemma_num_line_prefix(s, pos + 1, -1);
            },
            RespSpec::BulkString(p) => {
                assert(s[pos] == 36);
                let lb = spec_int_bytes(p.len() as int);
                if k - 1 < lb.len() + 2 {
                    assert(s.subrange(pos + 1, s.len() as int) =~= (lb + crlf()).take(k - 1));
                    lemma_num_line_prefix(s, pos + 1, p.len() as int);
                } else {
                    assert(s.subrange(pos + 1, pos + 1 + lb.len() as int) =~= lb);
                    assert(s[pos + 1 + lb.len() as int] == 13);
                    assert(s[pos + 1 + lb.len() as int + 1] == 10);
                    lemma_num_line_of(s, pos + 1, p.len() as int);
                }
            },
            RespSpec::Array(es) => {
                assert(s[pos] == 42);
                let cb = spec_int_bytes(es.len() as int);
                if k - 1 < cb.len() + 2 {
                    assert(s.subrange(pos + 1, s.len() as int) =~= (cb + crlf()).take(k - 1));
                    lemma_num_line_prefix(s, pos + 1, es.len() as int);
                } else {
                    assert(s.subrange(pos + 1, pos + 1 + cb.len() as int) =~= cb);
                    assert(s[pos + 1 + cb.len() as int] == 13);
                    assert(s[pos + 1 + cb.len() as int + 1] == 10);
                    lemma_num_line_of(s, pos + 1, es.len() as int);
                    let after = pos + 1 + cb.len() + 2;
                    assert(s.subrange(after, s.len() as int) =~= spec_encode_elems(es).take(
                        s.len() - after,
                    ));
                    lemma_elems_prefix_incomplete(es, s, after);
                }
            },
        }
    }
}

/// A buffer that ends strictly inside the encodings of a run of
/// well-formed values reads as `Incomplete`.
proof fn lemma_elems_prefix_incomplete(vs: Seq<RespSpec>, s: Seq<u8>, pos: int)
    requires
        forall|i: int| 0 <= i < vs.len() ==> wf_resp(#[trigger] vs[i]),
        0 <= pos <= s.len(),
        s.len() - pos < spec_encode_elems(vs).len(),
        s.subrange(pos, s.len() as int) == spec_encode_elems(vs).take(s.len() - pos),
    ensures
        spec_dec_elems(s, pos, vs.len()) is Incomplete,
    decreases vs,
{
    let k = s.len() - pos;
    assert(vs.len() > 0);
    let head = vs.first();
    let rest = vs.drop_first();
    let e0 = spec_encode(head);
    let etail = spec_encode_elems(rest);
    assert(spec_encode_elems(vs) == e0 + etail);
    lemma_bytes_at(s, pos, spec_encode_elems(vs).take(k));
    if k < e0.len() {
        assert(s.subrange(pos, s.len() as int) =~= e0.take(k));
        lemma_prefix_incomplete_at(head, s, pos);
    } else {
        assert(s.subrange(pos, pos + e0.len() as int) =~= e0);
        lemma_dec_of_encoding(head, s, pos);
        let mid = pos + e0.len();
        assert(s.subrange(mid, s.len() as int) =~= etail.take(s.len() - mid));
        lemma_elems_prefix_incomplete(rest, s, mid);
        lemma_encode_len_min(head);
        assert(spec_dec_elems(s, pos, vs.len()) is Incomplete);
    }
}

/// A truncated buffer — a proper prefix of the encoding of a well-formed
/// value — always yields `Incomplete`, never a frame and never `Invalid`;
/// and on `Incomplete` the decoder consumes nothing.
pub proof fn lemma_truncated_incomplete(v: RespSpec, k: int)
    requires
        wf_resp(v),
        0 <= k < spec_encode(v).len(),
    ensures
        spec_dec(spec_encode(v).take(k), 0) is Incomplete,
{
    let s = spec_encode(v).take(k);
    assert(s.subrange(0, s.len() as int) =~= s);
    lemma_prefix_incomplete_at(v, s, 0);
}

/// Decoding the encoding of a well-formed value, with any bytes appended,
/// yields exactly that value with exactly its encoding consumed. Together
/// with `serialize_frame` and `parse_resp_with_remaining` being exactly
/// `spec_encode` and `spec_dec`, this is the encode-then-decode round
/// trip, pipelining included.
pub proof fn lemma_decode_encode(v: RespSpec, rest: Seq<u8>)
    requires
        wf_resp(v),
    ensures
        spec_dec(spec_encode(v) + rest, 0) == DecStep::Frame(v, spec_encode(v).len() as int),
{
    let s = spec_encode(v) + rest;
    assert(s.subrange(0, spec_encode(v).len() as int) =~= spec_encode(v));
    lemma_dec_of_encoding(v, s, 0);
}

/// No two well-formed values share a wire form: a serialization can never
/// be confused with another's.
pub proof fn lemma_encoding_unambiguous(v1: RespSpec, v2: RespSpec)
    requires
        wf_resp(v1),
        wf_resp(v2),
        spec_encode(v1) == spec_encode(v2),
    ensures
        v1 == v2,
{
    lemma_decode_encode(v1, Seq::empty());
    lemma_decode_encode(v2, Seq::empty());
    assert(spec_encode(v1) + Seq::<u8>::empty() =~= spec_encode(v1));
    assert(spec_encode(v2) + Seq::<u8>::empty() =~= spec_encode(v2));
}

} // verus!
