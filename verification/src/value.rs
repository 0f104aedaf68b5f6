//! The RESP2 protocol value: one decoded frame, and its mathematical model.

use vstd::prelude::*;

verus! {

/// One RESP2-typed protocol unit. A bulk string is a length-prefixed,
/// binary-safe byte sequence; `Null` stands for both the null bulk string
/// and the null array, which the decoder does not tell apart.
#[derive(Debug, PartialEq)]
pub enum RespValue {
    SimpleString(Vec<u8>),
    Error(Vec<u8>),
    Integer(i64),
    BulkString(Vec<u8>),
    Array(Vec<RespValue>),
    Null,
}

/// Mathematical model of a protocol unit: byte payloads become sequences,
/// the integer is unbounded.
pub enum RespSpec {
    SimpleString(Seq<u8>),
    Error(Seq<u8>),
    Integer(int),
    BulkString(Seq<u8>),
    Array(Seq<RespSpec>),
    Null,
}

/// The model of a value: payloads viewed as sequences, arrays element-wise.
pub open spec fn resp_view(v: RespValue) -> RespSpec
    decreases v,
{
    match v {
        RespValue::SimpleString(s) => RespSpec::SimpleString(s@),
        RespValue::Error(s) => RespSpec::Error(s@),
        RespValue::Integer(n) => RespSpec::Integer(n as int),
        RespValue::BulkString(s) => RespSpec::BulkString(s@),
        RespValue::Array(elts) => RespSpec::Array(views_of(elts@)),
        RespValue::Null => RespSpec::Null,
    }
}

/// Element-wise model of a sequence of values.
pub open spec fn views_of(vs: Seq<RespValue>) -> Seq<RespSpec>
    decreases vs,
{
    if vs.len() == 0 {
        Seq::empty()
    } else {
        views_of(vs.drop_last()).push(resp_view(vs.last()))
    }
}

pub proof fn lemma_views_of(vs: Seq<RespValue>)
    ensures
        views_of(vs).len() == vs.len(),
        forall|i: int| 0 <= i < vs.len() ==> views_of(vs)[i] == resp_view(vs[i]),
    decreases vs.len(),
{
    if vs.len() > 0 {
        lemma_views_of(vs.drop_last());
    }
}

pub proof fn lemma_views_of_push(vs: Seq<RespValue>, v: RespValue)
    ensures
        views_of(vs.push(v)) == views_of(vs).push(resp_view(v)),
{
    assert(vs.push(v).drop_last() =~= vs);
    assert(vs.push(v).last() == v);
}

impl View for RespValue {
    type V = RespSpec;

    open spec fn view(&self) -> RespSpec {
        resp_view(*self)
    }
}

} // verus!
