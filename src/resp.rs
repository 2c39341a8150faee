//! RESP values, their mathematical model, and the encoder.
use vstd::prelude::*;
use crate::bytes::append;
use crate::decimal::{int_text, nat_text, push_int_text, push_nat_text};

verus! {

pub const CR: u8 = 13;

pub const LF: u8 = 10;

/// A RESP value as the library holds it.
#[derive(Debug, PartialEq, Eq)]
pub enum RespType {
    Integer(i64),
    SimpleString(Vec<u8>),
    Error(Vec<u8>),
    BulkString(Option<Vec<u8>>),
    Array(Vec<RespType>),
    NullArray,
}

/// What a RESP value is, as a mathematical object.
pub enum RespValue {
    Integer(int),
    SimpleString(Seq<u8>),
    Error(Seq<u8>),
    BulkString(Option<Seq<u8>>),
    Array(Seq<RespValue>),
    NullArray,
}

pub open spec fn resp_view(v: RespType) -> RespValue
    decreases v,
{
    match v {
        RespType::Integer(n) => RespValue::Integer(n as int),
        RespType::SimpleString(t) => RespValue::SimpleString(t@),
        RespType::Error(t) => RespValue::Error(t@),
        RespType::BulkString(None) => RespValue::BulkString(None),
        RespType::BulkString(Some(b)) => RespValue::BulkString(Some(b@)),
        RespType::Array(items) => RespValue::Array(resp_items_view(items@)),
        RespType::NullArray => RespValue::NullArray,
    }
}

pub open spec fn resp_items_view(s: Seq<RespType>) -> Seq<RespValue>
    decreases s,
{
    if s.len() == 0 {
        Seq::empty()
    } else {
        resp_items_view(s.drop_last()).push(resp_view(s.last()))
    }
}

impl View for RespType {
    type V = RespValue;

    open spec fn view(&self) -> RespValue {
        resp_view(*self)
    }
}

pub open spec fn crlf() -> Seq<u8> {
    seq![CR, LF]
}

/// A value that RESP can carry unchanged: no CR inside a one-line text, and
/// integers within `i64`.
pub open spec fn resp_wf(v: RespValue) -> bool
    decreases v,
{
    match v {
        RespValue::Integer(n) => i64::MIN <= n <= i64::MAX,
        RespValue::SimpleString(t) => !t.contains(CR),
        RespValue::Error(t) => !t.contains(CR),
        RespValue::BulkString(None) => true,
        RespValue::BulkString(Some(b)) => b.len() <= i64::MAX,
        RespValue::Array(items) => items.len() <= i64::MAX && resp_items_wf(items),
        RespValue::NullArray => true,
    }
}

pub open spec fn resp_items_wf(items: Seq<RespValue>) -> bool
    decreases items,
{
    if items.len() == 0 {
        true
    } else {
        resp_wf(items[0]) && resp_items_wf(items.drop_first())
    }
}

/// The bytes of a value on the wire.
pub open spec fn encode(v: RespValue) -> Seq<u8>
    decreases v,
{
    match v {
        RespValue::Integer(n) => seq![58u8] + int_text(n) + crlf(),
        RespValue::SimpleString(t) => seq![43u8] + t + crlf(),
        RespValue::Error(t) => seq![45u8] + t + crlf(),
        RespValue::BulkString(None) => seq![36u8, 45u8, 49u8] + crlf(),
        RespValue::BulkString(Some(b)) => seq![36u8] + nat_text(b.len()) + crlf() + b + crlf(),
        RespValue::Array(items) => seq![42u8] + nat_text(items.len()) + crlf() + encode_items(items),
        RespValue::NullArray => seq![42u8, 45u8, 49u8] + crlf(),
    }
}

/// The frames of several values, one after the other.
pub open spec fn encode_items(items: Seq<RespValue>) -> Seq<u8>
    decreases items,
{
    if items.len() == 0 {
        Seq::empty()
    } else {
        encode(items[0]) + encode_items(items.drop_first())
    }
}

pub proof fn lemma_items_wf(items: Seq<RespValue>)
    requires
        forall|i: int| 0 <= i < items.len() ==> resp_wf(#[trigger] items[i]),
    ensures
        resp_items_wf(items),
    decreases items.len(),
{
    if items.len() > 0 {
        assert(resp_wf(items[0]));
        assert forall|i: int| 0 <= i < items.drop_first().len() implies resp_wf(
            #[trigger] items.drop_first()[i],
        ) by {
            assert(items.drop_first()[i] == items[i + 1]);
        }
        lemma_items_wf(items.drop_first());
    }
}

pub proof fn lemma_resp_items_view_len(s: Seq<RespType>)
    ensures
        resp_items_view(s).len() == s.len(),
        forall|i: int| 0 <= i < s.len() ==> #[trigger] resp_items_view(s)[i] == resp_view(s[i]),
    decreases s.len(),
{
    if s.len() > 0 {
        lemma_resp_items_view_len(s.drop_last());
    }
}

pub proof fn lemma_encode_items_push(items: Seq<RespValue>, x: RespValue)
    ensures
        encode_items(items.push(x)) == encode_items(items) + encode(x),
    decreases items.len(),
{
    if items.len() == 0 {
        assert(items.push(x).drop_first() =~= Seq::<RespValue>::empty());
        assert(encode_items(items.push(x).drop_first()) =~= Seq::<u8>::empty());
        assert(encode_items(items.push(x)) =~= encode(x));
    } else {
        lemma_encode_items_push(items.drop_first(), x);
        assert(items.push(x).drop_first() =~= items.drop_first().push(x));
        assert(encode_items(items.push(x)) =~= encode_items(items) + encode(x));
    }
}

fn push_crlf(out: &mut Vec<u8>)
    ensures
        final(out)@ == old(out)@ + crlf(),
{
    out.push(CR);
    out.push(LF);
    assert(out@ =~= old(out)@ + crlf());
}

/// Appends the frame of `v`.
pub fn encode_into(v: &RespType, out: &mut Vec<u8>)
    ensures
        final(out)@ == old(out)@ + encode(v@),
    decreases v,
{
    match v {
        RespType::Integer(n) => {
            out.push(58u8);
            push_int_text(out, *n);
            push_crlf(out);
            assert(out@ =~= old(out)@ + encode(v@));
        },
        RespType::SimpleString(t) => {
            out.push(43u8);
            append(out, t.as_slice());
            push_crlf(out);
            assert(out@ =~= old(out)@ + encode(v@));
        },
        RespType::Error(t) => {
            out.push(45u8);
            append(out, t.as_slice());
            push_crlf(out);
            assert(out@ =~= old(out)@ + encode(v@));
        },
        RespType::BulkString(None) => {
            out.push(36u8);
            out.push(45u8);
            out.push(49u8);
            push_crlf(out);
            assert(out@ =~= old(out)@ + encode(v@));
        },
        RespType::BulkString(Some(b)) => {
            out.push(36u8);
            push_nat_text(out, b.len() as u64);
            push_crlf(out);
            append(out, b.as_slice());
            push_crlf(out);
            assert(out@ =~= old(out)@ + encode(v@));
        },
        RespType::Array(items) => {
            proof {
                lemma_resp_items_view_len(items@);
            }
            let ghost model = resp_items_view(items@);
            out.push(42u8);
            push_nat_text(out, items.len() as u64);
            push_crlf(out);
            let ghost header = out@;
            assert(encode_items(model.subrange(0, 0)) =~= Seq::<u8>::empty());
            let mut i: usize = 0;
            while i < items.len()
                invariant
                    i <= items@.len(),
                    *v == RespType::Array(*items),
                    model == resp_items_view(items@),
                    model.len() == items@.len(),
                    forall|j: int| 0 <= j < items@.len() ==> #[trigger] model[j] == resp_view(items@[j]),
                    out@ == header + encode_items(model.subrange(0, i as int)),
                decreases items@.len() - i,
            {
                proof {
                    assert(decreases_to!(*v => (*v)->Array_0));
                    assert(decreases_to!(*items => items[i as int]));
                    assert(decreases_to!(*v => items[i as int]));
                }
                encode_into(&items[i], out);
                proof {
                    lemma_encode_items_push(model.subrange(0, i as int), model[i as int]);
                    assert(model.subrange(0, i as int).push(model[i as int]) =~= model.subrange(0, i + 1));
                }
                i = i + 1;
            }
            assert(model.subrange(0, i as int) =~= model);
            assert(out@ =~= old(out)@ + encode(v@));
        },
        RespType::NullArray => {
            out.push(42u8);
            out.push(45u8);
            out.push(49u8);
            push_crlf(out);
            assert(out@ =~= old(out)@ + encode(v@));
        },
    }
}

/// The frame of a value.
pub fn serialize_resp_data(data: RespType) -> (r: Vec<u8>)
    ensures
        r@ == encode(data@),
{
    let mut out: Vec<u8> = Vec::new();
    encode_into(&data, &mut out);
    assert(out@ =~= encode(data@));
    out
}

/// The null bulk string, `$-1` and CRLF.
pub fn create_null_string() -> (r: Vec<u8>)
    ensures
        r@ == encode(RespValue::BulkString(None)),
{
    let mut out: Vec<u8> = Vec::new();
    encode_into(&RespType::BulkString(None), &mut out);
    assert(out@ =~= encode(RespValue::BulkString(None)));
    out
}

} // verus!
