//! The RESP2 wire form of a value, and the frame encoder that produces it.
//!
//! Wire format, bit-exact:
//! - Simple String: `+<text>\r\n`
//! - Error: `-<text>\r\n`
//! - Integer: `:<decimal>\r\n`
//! - Bulk String: `$<byte-length>\r\n<payload>\r\n`; null bulk string `$-1\r\n`
//! - Array: `*<count>\r\n` followed by the encoded elements

use vstd::prelude::*;

use crate::value::RespSpec;
use crate::value::RespValue;
use crate::value::lemma_views_of;
use crate::value::lemma_views_of_push;
use crate::value::resp_view;
use crate::value::views_of;

verus! {

broadcast use vstd::std_specs::vec::group_vec_axioms;

/// The two-byte line terminator `\r\n`.
pub open spec fn crlf() -> Seq<u8> {
    seq![13u8, 10u8]
}

/// Decimal digits of a non-negative number, most significant first.
pub open spec fn spec_digits(n: nat) -> Seq<u8>
    decreases n,
{
    if n < 10 {
        seq![(n + 48) as u8]
    } else {
        spec_digits(n / 10).push((n % 10 + 48) as u8)
    }
}

/// Decimal form of an integer: a minus sign for negative numbers, then digits.
pub open spec fn spec_int_bytes(n: int) -> Seq<u8> {
    if n < 0 {
        seq![45u8] + spec_digits((-n) as nat)
    } else {
        spec_digits(n as nat)
    }
}

/// The exact wire bytes of a value. `Null` has the null-bulk-string form.
pub open spec fn spec_encode(v: RespSpec) -> Seq<u8>
    decreases v,
{
    match v {
        RespSpec::SimpleString(s) => seq![43u8] + s + crlf(),
        RespSpec::Error(s) => seq![45u8] + s + crlf(),
        RespSpec::Integer(n) => seq![58u8] + spec_int_bytes(n) + crlf(),
        RespSpec::BulkString(s) => seq![36u8] + spec_int_bytes(s.len() as int) + crlf() + s
            + crlf(),
        RespSpec::Array(elts) => seq![42u8] + spec_int_bytes(elts.len() as int) + crlf()
            + spec_encode_elems(elts),
        RespSpec::Null => seq![36u8, 45u8, 49u8, 13u8, 10u8],
    }
}

/// The wire bytes of a run of elements, in order.
pub open spec fn spec_encode_elems(vs: Seq<RespSpec>) -> Seq<u8>
    decreases vs,
{
    if vs.len() == 0 {
        Seq::empty()
    } else {
        spec_encode(vs.first()) + spec_encode_elems(vs.drop_first())
    }
}

pub proof fn lemma_encode_elems_push(vs: Seq<RespSpec>, v: RespSpec)
    ensures
        spec_encode_elems(vs.push(v)) == spec_encode_elems(vs) + spec_encode(v),
    decreases vs.len(),
{
    let p = vs.push(v);
    if vs.len() == 0 {
        assert(p.first() == v);
        assert(p.drop_first() =~= Seq::<RespSpec>::empty());
        assert(spec_encode_elems(p) == spec_encode(v) + spec_encode_elems(Seq::<RespSpec>::empty()));
        assert(spec_encode_elems(p) =~= spec_encode_elems(vs) + spec_encode(v));
    } else {
        assert(p.first() == vs.first());
        assert(p.drop_first() =~= vs.drop_first().push(v));
        lemma_encode_elems_push(vs.drop_first(), v);
        assert(spec_encode_elems(p) == spec_encode(vs.first()) + (spec_encode_elems(vs.drop_first())
            + spec_encode(v)));
        vstd::seq_lib::lemma_concat_associative(
            spec_encode(vs.first()),
            spec_encode_elems(vs.drop_first()),
            spec_encode(v),
        );
    }
}

/// Appends the decimal digits of `n` to `out`.
fn push_digits(n: u64, out: &mut Vec<u8>)
    ensures
        final(out)@ == old(out)@ + spec_digits(n as nat),
    decreases n,
{
    if n < 10 {
        out.push((n as u8) + 48);
        assert(out@ =~= old(out)@ + spec_digits(n as nat));
    } else {
        push_digits(n / 10, out);
        out.push((n % 10) as u8 + 48);
        assert(out@ =~= old(out)@ + spec_digits(n as nat));
    }
}

/// Appends the decimal form of `n`, sign included, to `out`.
fn push_int(n: i64, out: &mut Vec<u8>)
    ensures
        final(out)@ == old(out)@ + spec_int_bytes(n as int),
{
    if n < 0 {
        out.push(45u8);
        let magnitude: u64 = (-(n as i128)) as u64;
        push_digits(magnitude, out);
        assert(out@ =~= old(out)@ + spec_int_bytes(n as int));
    } else {
        push_digits(n as u64, out);
    }
}

fn push_crlf(out: &mut Vec<u8>)
    ensures
        final(out)@ == old(out)@ + crlf(),
{
    out.push(13u8);
    out.push(10u8);
    assert(out@ =~= old(out)@ + crlf());
}

/// Appends the payload bytes to `out`.
fn push_bytes(payload: &Vec<u8>, out: &mut Vec<u8>)
    ensures
        final(out)@ == old(out)@ + payload@,
{
    let n = payload.len();
    let mut i: usize = 0;
    while i < n
        invariant
            i <= n,
            n == payload@.len(),
            out@ == old(out)@ + payload@.take(i as int),
        decreases n - i,
    {
        out.push(payload[i]);
        assert(out@ =~= old(out)@ + payload@.take(i + 1));
        i = i + 1;
    }
    assert(payload@.take(n as int) =~= payload@);
}

/// Appends the wire bytes of `v` to `out`.
fn encode_into(v: &RespValue, out: &mut Vec<u8>)
    ensures
        final(out)@ == old(out)@ + spec_encode(v@),
    decreases v,
{
    match v {
        RespValue::SimpleString(s) => {
            out.push(43u8);
            push_bytes(s, out);
            push_crlf(out);
            assert(out@ =~= old(out)@ + spec_encode(v@));
        },
        RespValue::Error(s) => {
            out.push(45u8);
            push_bytes(s, out);
            push_crlf(out);
            assert(out@ =~= old(out)@ + spec_encode(v@));
        },
        RespValue::Integer(n) => {
            out.push(58u8);
            push_int(*n, out);
            push_crlf(out);
            assert(out@ =~= old(out)@ + spec_encode(v@));
        },
        RespValue::BulkString(s) => {
            out.push(36u8);
            push_digits(s.len() as u64, out);
            push_crlf(out);
            push_bytes(s, out);
            push_crlf(out);
            assert(out@ =~= old(out)@ + spec_encode(v@));
        },
        RespValue::Array(elts) => {
            proof {
                lemma_views_of(elts@);
            }
            out.push(42u8);
            push_digits(elts.len() as u64, out);
            push_crlf(out);
            let ghost base = out@;
            let n = elts.len();
            let mut i: usize = 0;
            while i < n
                invariant
                    i <= n,
                    n == elts@.len(),
                    *v is Array,
                    (*v)->Array_0 == *elts,
                    out@ == base + spec_encode_elems(views_of(elts@.take(i as int))),
                decreases n - i,
            {
                proof {
                    assert(*v is Array);
                    assert(decreases_to!(*v => (*v)->Array_0));
                    assert((*v)->Array_0 == *elts);
                    assert(decreases_to!(*elts => elts@));
                    assert(decreases_to!(elts@ => elts@[i as int]));
                    assert(decreases_to!(*v => elts@[i as int]));
                }
                encode_into(&elts[i], out);
                proof {
                    lemma_views_of_push(elts@.take(i as int), elts@[i as int]);
                    lemma_encode_elems_push(
                        views_of(elts@.take(i as int)),
                        resp_view(elts@[i as int]),
                    );
                    assert(elts@.take(i + 1) =~= elts@.take(i as int).push(elts@[i as int]));
                }
                i = i + 1;
            }
            assert(elts@.take(n as int) =~= elts@);
            assert(out@ =~= old(out)@ + spec_encode(v@));
        },
        RespValue::Null => {
            out.push(36u8);
            out.push(45u8);
            out.push(49u8);
            push_crlf(out);
            assert(out@ =~= old(out)@ + spec_encode(v@));
        },
    }
}

/// Serializes a value to its exact wire bytes. Deterministic and total:
/// every representable value has exactly one wire form, and encoding a
/// well-formed constructed value cannot fail.
pub fn serialize_frame(frame: &RespValue) -> (out: Vec<u8>)
    ensures
        out@ == spec_encode(frame@),
{
    let mut out: Vec<u8> = Vec::new();
    encode_into(frame, &mut out);
    out
}

} // verus!
