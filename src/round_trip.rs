//! What the decoder makes of what the encoder writes.
use vstd::prelude::*;
use crate::decimal::{
    digits_value, i64_text_value, int_text, is_numeral, lemma_int_text_value,
    lemma_nat_text_numeral, nat_text,
};
use crate::decoder::{cr_at_or_after, lemma_parse_bounds, parse, parse_at, parse_items, Parsed};
use crate::resp::{crlf, encode, encode_items, resp_items_wf, resp_wf, RespValue, CR, LF};

verus! {

proof fn lemma_cr_first(s: Seq<u8>, from: int, c: int)
    requires
        0 <= from <= c < s.len(),
        s[c] == CR,
        forall|j: int| from <= j < c ==> s[j] != CR,
    ensures
        cr_at_or_after(s, from) == Some(c),
    decreases c - from,
{
    if from < c {
        lemma_cr_first(s, from + 1, c);
    }
}

pub proof fn lemma_int_text_no_cr(n: int)
    ensures
        !int_text(n).contains(CR),
        int_text(n).len() > 0,
{
    if n < 0 {
        lemma_nat_text_numeral((-n) as nat);
        let t = int_text(n);
        assert forall|i: int| 0 <= i < t.len() implies t[i] != CR by {
            if i > 0 {
                assert(t[i] == nat_text((-n) as nat)[i - 1]);
            }
        }
    } else {
        lemma_nat_text_numeral(n as nat);
        let t = int_text(n);
        assert forall|i: int| 0 <= i < t.len() implies t[i] != CR by {
            assert(crate::decimal::is_digit(t[i]));
        }
    }
}

proof fn lemma_minus_one_text()
    ensures
        i64_text_value(seq![45u8, 49u8]) == Some(-1int),
{
    let t = seq![45u8, 49u8];
    let d = t.drop_first();
    assert(d =~= seq![49u8]);
    assert(d.drop_last() =~= Seq::<u8>::empty());
    assert(digits_value(d.drop_last()) == 0);
    assert(d.last() == 49u8);
    assert(digits_value(d) == 1);
    assert(is_numeral(d));
}

/// A one-line frame: a tag, a text free of CR, then CRLF, found at `p`.
pub proof fn lemma_line_at(s: Seq<u8>, p: int, tag: u8, t: Seq<u8>)
    requires
        0 <= p,
        p + t.len() + 3 <= s.len(),
        s.subrange(p, p + t.len() + 3) == seq![tag] + t + crlf(),
        !t.contains(CR),
    ensures
        s[p] == tag,
        cr_at_or_after(s, p + 1) == Some(p + 1 + t.len()),
        s[p + 1 + t.len() + 1] == LF,
        s.subrange(p + 1, p + 1 + t.len()) == t,
{
    let e = seq![tag] + t + crlf();
    assert forall|i: int| 0 <= i < e.len() implies s[p + i] == e[i] by {
        assert(s.subrange(p, p + t.len() + 3)[i] == s[p + i]);
    }
    assert(s[p] == e[0]);
    assert forall|j: int| p + 1 <= j < p + 1 + t.len() implies s[j] != CR by {
        assert(s[j] == e[j - p]);
        assert(e[j - p] == t[j - p - 1]);
    }
    assert(s[p + 1 + t.len()] == e[1 + t.len() as int]);
    assert(s[p + 1 + t.len() + 1] == e[2 + t.len() as int]);
    lemma_cr_first(s, p + 1, p + 1 + t.len());
    assert forall|i: int| 0 <= i < t.len() implies s.subrange(p + 1, p + 1 + t.len())[i] == t[i] by {
        assert(s[p + 1 + i] == e[1 + i]);
    }
    assert(s.subrange(p + 1, p + 1 + t.len()) =~= t);
}

/// Where the frame of a well-formed value stands at `p`, the grammar finds
/// that value there and ends right after the frame.
pub proof fn lemma_parse_encoded(s: Seq<u8>, p: int, v: RespValue)
    requires
        resp_wf(v),
        0 <= p,
        p + encode(v).len() <= s.len(),
        s.subrange(p, p + encode(v).len()) == encode(v),
    ensures
        parse_at(s, p) == Parsed::Done(v, p + encode(v).len()),
    decreases v,
{
    let e = encode(v);
    assert forall|i: int| 0 <= i < e.len() implies s[p + i] == e[i] by {
        assert(s.subrange(p, p + e.len())[i] == s[p + i]);
    }
    match v {
        RespValue::Integer(n) => {
            lemma_int_text_no_cr(n);
            lemma_line_at(s, p, 58u8, int_text(n));
            lemma_int_text_value(n);
        },
        RespValue::SimpleString(t) => {
            lemma_line_at(s, p, 43u8, t);
        },
        RespValue::Error(t) => {
            lemma_line_at(s, p, 45u8, t);
        },
        RespValue::BulkString(None) => {
            assert(e =~= seq![36u8] + seq![45u8, 49u8] + crlf());
            assert(!seq![45u8, 49u8].contains(CR));
            lemma_line_at(s, p, 36u8, seq![45u8, 49u8]);
            lemma_minus_one_text();
        },
        RespValue::BulkString(Some(b)) => {
            let t = nat_text(b.len());
            lemma_int_text_no_cr(b.len() as int);
            lemma_int_text_value(b.len() as int);
            let h = seq![36u8] + t + crlf();
            assert(e =~= h + b + crlf());
            assert(s.subrange(p, p + h.len()) =~= h) by {
                assert forall|i: int| 0 <= i < h.len() implies s.subrange(p, p + h.len())[i] == h[i] by {
                    assert(s[p + i] == e[i]);
                }
            }
            lemma_line_at(s, p, 36u8, t);
            let next = p + h.len();
            assert(s.subrange(next, next + b.len()) =~= b) by {
                assert forall|i: int| 0 <= i < b.len() implies s.subrange(next, next + b.len())[i] == b[i] by {
                    assert(s[next + i] == e[h.len() + i]);
                }
            }
            assert(s[next + b.len()] == e[h.len() + b.len() as int]);
            assert(s[next + b.len() + 1] == e[h.len() + b.len() as int + 1]);
        },
        RespValue::Array(items) => {
            let t = nat_text(items.len());
            lemma_int_text_no_cr(items.len() as int);
            lemma_int_text_value(items.len() as int);
            let h = seq![42u8] + t + crlf();
            let body = encode_items(items);
            assert(e =~= h + body);
            assert(s.subrange(p, p + h.len()) =~= h) by {
                assert forall|i: int| 0 <= i < h.len() implies s.subrange(p, p + h.len())[i] == h[i] by {
                    assert(s[p + i] == e[i]);
                }
            }
            lemma_line_at(s, p, 42u8, t);
            let next = p + h.len();
            assert(s.subrange(next, next + body.len()) =~= body) by {
                assert forall|i: int| 0 <= i < body.len() implies s.subrange(next, next + body.len())[i] == body[i] by {
                    assert(s[next + i] == e[h.len() + i]);
                }
            }
            lemma_parse_items_encoded(s, next, items, Seq::empty());
            assert(Seq::<RespValue>::empty() + items =~= items);
        },
        RespValue::NullArray => {
            assert(e =~= seq![42u8] + seq![45u8, 49u8] + crlf());
            assert(!seq![45u8, 49u8].contains(CR));
            lemma_line_at(s, p, 42u8, seq![45u8, 49u8]);
            lemma_minus_one_text();
        },
    }
}

/// The frames of well-formed values, laid one after another at `p`, are
/// found there in order as the elements of an array.
pub proof fn lemma_parse_items_encoded(
    s: Seq<u8>,
    p: int,
    items: Seq<RespValue>,
    acc: Seq<RespValue>,
)
    requires
        resp_items_wf(items),
        0 <= p,
        p + encode_items(items).len() <= s.len(),
        s.subrange(p, p + encode_items(items).len()) == encode_items(items),
    ensures
        parse_items(s, p, items.len() as int, acc) == Parsed::Done(
            RespValue::Array(acc + items),
            p + encode_items(items).len(),
        ),
    decreases items,
{
    if items.len() == 0 {
        assert(acc + items =~= acc);
    } else {
        let e = encode_items(items);
        let e0 = encode(items[0]);
        let rest = items.drop_first();
        let er = encode_items(rest);
        assert(e == e0 + er);
        assert forall|i: int| 0 <= i < e.len() implies s[p + i] == e[i] by {
            assert(s.subrange(p, p + e.len())[i] == s[p + i]);
        }
        assert(s.subrange(p, p + e0.len()) =~= e0) by {
            assert forall|i: int| 0 <= i < e0.len() implies s.subrange(p, p + e0.len())[i] == e0[i] by {
                assert(s[p + i] == e[i]);
            }
        }
        lemma_parse_encoded(s, p, items[0]);
        let q = p + e0.len();
        assert(s.subrange(q, q + er.len()) =~= er) by {
            assert forall|i: int| 0 <= i < er.len() implies s.subrange(q, q + er.len())[i] == er[i] by {
                assert(s[q + i] == e[e0.len() + i]);
            }
        }
        assert(e0.len() > 0) by {
            reveal_with_fuel(encode, 1);
            lemma_encode_nonempty(items[0]);
        }
        lemma_parse_items_encoded(s, q, rest, acc.push(items[0]));
        assert(acc.push(items[0]) + rest =~= acc + items);
    }
}

proof fn lemma_encode_nonempty(v: RespValue)
    ensures
        encode(v).len() > 0,
{
    assert(encode(v)[0] == encode(v)[0]);
    match v {
        RespValue::Array(items) => {
            assert(encode(v).len() >= 1);
        },
        _ => {},
    }
}

/// Round trip: the decoder, given the frame that the encoder writes for a
/// well-formed value, with any bytes after it, returns that value and the
/// length of the frame.
pub proof fn lemma_round_trip(v: RespValue, rest: Seq<u8>)
    requires
        resp_wf(v),
    ensures
        parse(encode(v) + rest) == Parsed::Done(v, encode(v).len() as int),
{
    let s = encode(v) + rest;
    assert(s.subrange(0, encode(v).len() as int) =~= encode(v));
    lemma_parse_encoded(s, 0, v);
}

/// The values that successive calls of the decoder take from a buffer, until
/// it finds no complete frame.
pub open spec fn parse_stream(s: Seq<u8>) -> Seq<RespValue>
    decreases s.len(),
{
    match parse(s) {
        Parsed::Done(v, n) => {
            if 0 < n <= s.len() {
                seq![v] + parse_stream(s.subrange(n, s.len() as int))
            } else {
                Seq::empty()
            }
        },
        _ => Seq::empty(),
    }
}

/// One call of the decoder (`RespParser::next_value`, which takes
/// `parse` of its buffer and keeps the bytes after the frame) returns the
/// first value of the buffer's stream, and leaves a buffer whose stream is
/// the rest; on a buffer whose stream is empty it returns no value. So N
/// successive calls return the stream's values in order.
pub proof fn lemma_stream_step(s: Seq<u8>)
    ensures
        parse_stream(s).len() > 0 ==> (parse(s) matches Parsed::Done(v, n) && v == parse_stream(s)[0]
            && 0 < n <= s.len() && parse_stream(s.subrange(n, s.len() as int)) == parse_stream(
            s,
        ).drop_first()),
        parse_stream(s).len() == 0 ==> !(parse(s) is Done),
{
    lemma_parse_bounds(s, 0);
    if let Parsed::Done(v, n) = parse(s) {
        let rest = parse_stream(s.subrange(n, s.len() as int));
        assert(parse_stream(s) == seq![v] + rest);
        assert((seq![v] + rest).drop_first() =~= rest);
    }
}

/// The decoder, fed the frames of N well-formed values one after another,
/// returns exactly those N values, in order.
pub proof fn lemma_stream_in_order(vs: Seq<RespValue>)
    requires
        resp_items_wf(vs),
    ensures
        parse_stream(encode_items(vs)) == vs,
    decreases vs.len(),
{
    let s = encode_items(vs);
    if vs.len() == 0 {
        assert(parse(s) == Parsed::Incomplete);
        assert(vs =~= Seq::<RespValue>::empty());
    } else {
        let e0 = encode(vs[0]);
        let rest = vs.drop_first();
        lemma_round_trip(vs[0], encode_items(rest));
        lemma_encode_nonempty(vs[0]);
        assert(s.subrange(e0.len() as int, s.len() as int) =~= encode_items(rest));
        lemma_stream_in_order(rest);
        assert(seq![vs[0]] + rest =~= vs);
    }
}

/// `s` from `p` on holds a proper prefix of `e`: the bytes received so far of a frame.
pub open spec fn holds_proper_prefix(s: Seq<u8>, p: int, e: Seq<u8>) -> bool {
    0 <= p <= s.len() && s.len() - p < e.len() && s.subrange(p, s.len() as int) == e.subrange(
        0,
        s.len() - p,
    )
}

/// A one-line frame cut before its end: the grammar waits for more.
proof fn lemma_line_cut(s: Seq<u8>, p: int, tag: u8, t: Seq<u8>)
    requires
        crate::decoder::is_resp_tag(tag),
        !t.contains(CR),
        0 <= p <= s.len(),
        s.len() - p < t.len() + 3,
        forall|j: int| p <= j < s.len() ==> s[j] == (seq![tag] + t + crlf())[j - p],
    ensures
        parse_at(s, p) == Parsed::Incomplete,
{
    let e = seq![tag] + t + crlf();
    if p < s.len() {
        assert(s[p] == e[0]);
        lemma_cr_at_or_after_none_or_last(s, p, t, tag);
    }
}

proof fn lemma_cr_at_or_after_none_or_last(s: Seq<u8>, p: int, t: Seq<u8>, tag: u8)
    requires
        !t.contains(CR),
        0 <= p < s.len(),
        s.len() - p < t.len() + 3,
        forall|j: int| p <= j < s.len() ==> s[j] == (seq![tag] + t + crlf())[j - p],
    ensures
        cr_at_or_after(s, p + 1) is None || cr_at_or_after(s, p + 1) == Some(s.len() - 1),
{
    let e = seq![tag] + t + crlf();
    let c = p + 1 + t.len();
    if c < s.len() {
        assert(s[c] == e[1 + t.len() as int]);
        assert forall|j: int| p + 1 <= j < c implies s[j] != CR by {
            assert(s[j] == e[j - p]);
            assert(e[j - p] == t[j - p - 1]);
        }
        lemma_cr_first(s, p + 1, c);
    } else {
        assert forall|j: int| p + 1 <= j < s.len() implies s[j] != CR by {
            assert(s[j] == e[j - p]);
            assert(e[j - p] == t[j - p - 1]);
        }
        lemma_no_cr(s, p + 1);
    }
}

proof fn lemma_no_cr(s: Seq<u8>, from: int)
    requires
        0 <= from,
        forall|j: int| from <= j < s.len() ==> s[j] != CR,
    ensures
        cr_at_or_after(s, from) is None,
    decreases s.len() - from,
{
    if from < s.len() {
        lemma_no_cr(s, from + 1);
    }
}

/// The bytes received so far of a well-formed value's frame, cut anywhere
/// before its end: the grammar waits for more, so a frame split across
/// reads decodes as the whole frame does once the rest arrives.
pub proof fn lemma_cut_frame_incomplete(s: Seq<u8>, p: int, v: RespValue)
    requires
        resp_wf(v),
        holds_proper_prefix(s, p, encode(v)),
    ensures
        parse_at(s, p) == Parsed::Incomplete,
    decreases v,
{
    let e = encode(v);
    assert forall|j: int| p <= j < s.len() implies s[j] == e[j - p] by {
        assert(s.subrange(p, s.len() as int)[j - p] == s[j]);
        assert(e.subrange(0, s.len() - p)[j - p] == e[j - p]);
    }
    match v {
        RespValue::Integer(n) => {
            lemma_int_text_no_cr(n);
            lemma_line_cut(s, p, 58u8, int_text(n));
        },
        RespValue::SimpleString(t) => {
            lemma_line_cut(s, p, 43u8, t);
        },
        RespValue::Error(t) => {
            lemma_line_cut(s, p, 45u8, t);
        },
        RespValue::BulkString(None) => {
            assert(e =~= seq![36u8] + seq![45u8, 49u8] + crlf());
            assert(!seq![45u8, 49u8].contains(CR));
            lemma_line_cut(s, p, 36u8, seq![45u8, 49u8]);
        },
        RespValue::NullArray => {
            assert(e =~= seq![42u8] + seq![45u8, 49u8] + crlf());
            assert(!seq![45u8, 49u8].contains(CR));
            lemma_line_cut(s, p, 42u8, seq![45u8, 49u8]);
        },
        RespValue::BulkString(Some(b)) => {
            let t = nat_text(b.len());
            lemma_int_text_no_cr(b.len() as int);
            lemma_int_text_value(b.len() as int);
            let h = seq![36u8] + t + crlf();
            assert(e =~= h + b + crlf());
            if s.len() - p < h.len() {
                assert forall|j: int| p <= j < s.len() implies s[j] == h[j - p] by {
                    assert(e[j - p] == h[j - p]);
                }
                lemma_line_cut(s, p, 36u8, t);
            } else {
                assert(s.subrange(p, p + h.len()) =~= h) by {
                    assert forall|i: int| 0 <= i < h.len() implies s.subrange(p, p + h.len())[i] == h[i] by {
                        assert(s[p + i] == e[i]);
                    }
                }
                lemma_line_at(s, p, 36u8, t);
            }
        },
        RespValue::Array(items) => {
            let t = nat_text(items.len());
            lemma_int_text_no_cr(items.len() as int);
            lemma_int_text_value(items.len() as int);
            let h = seq![42u8] + t + crlf();
            let body = encode_items(items);
            assert(e =~= h + body);
            if s.len() - p < h.len() {
                assert forall|j: int| p <= j < s.len() implies s[j] == h[j - p] by {
                    assert(e[j - p] == h[j - p]);
                }
                lemma_line_cut(s, p, 42u8, t);
            } else {
                assert(s.subrange(p, p + h.len()) =~= h) by {
                    assert forall|i: int| 0 <= i < h.len() implies s.subrange(p, p + h.len())[i] == h[i] by {
                        assert(s[p + i] == e[i]);
                    }
                }
                lemma_line_at(s, p, 42u8, t);
                let next = p + h.len();
                assert(s.subrange(next, s.len() as int) =~= body.subrange(0, s.len() - next)) by {
                    assert forall|i: int| 0 <= i < s.len() - next implies s.subrange(next, s.len() as int)[i]
                        == body.subrange(0, s.len() - next)[i] by {
                        assert(s[next + i] == e[h.len() + i]);
                    }
                }
                lemma_cut_items_incomplete(s, next, items, Seq::empty());
            }
        },
    }
}

/// A well-formed value's frame cut after any `k` of its bytes, short of the
/// whole, decodes as nothing yet.
pub proof fn lemma_split_frame(v: RespValue, k: int)
    requires
        resp_wf(v),
        0 <= k < encode(v).len(),
    ensures
        parse(encode(v).subrange(0, k)) == Parsed::Incomplete,
{
    let s = encode(v).subrange(0, k);
    assert(s.subrange(0, s.len() as int) =~= encode(v).subrange(0, s.len() as int));
    lemma_cut_frame_incomplete(s, 0, v);
}

/// The frames of several well-formed values, cut anywhere before their end:
/// the grammar waits for more.
pub proof fn lemma_cut_items_incomplete(s: Seq<u8>, p: int, items: Seq<RespValue>, acc: Seq<RespValue>)
    requires
        resp_items_wf(items),
        holds_proper_prefix(s, p, encode_items(items)),
    ensures
        parse_items(s, p, items.len() as int, acc) == Parsed::Incomplete,
    decreases items,
{
    let e = encode_items(items);
    assert(items.len() > 0);
    let e0 = encode(items[0]);
    let rest = items.drop_first();
    let er = encode_items(rest);
    assert(e == e0 + er);
    assert forall|j: int| p <= j < s.len() implies s[j] == e[j - p] by {
        assert(s.subrange(p, s.len() as int)[j - p] == s[j]);
        assert(e.subrange(0, s.len() - p)[j - p] == e[j - p]);
    }
    if s.len() - p < e0.len() {
        assert(s.subrange(p, s.len() as int) =~= e0.subrange(0, s.len() - p)) by {
            assert forall|i: int| 0 <= i < s.len() - p implies s.subrange(p, s.len() as int)[i]
                == e0.subrange(0, s.len() - p)[i] by {
                assert(s[p + i] == e[i]);
            }
        }
        lemma_cut_frame_incomplete(s, p, items[0]);
    } else {
        assert(s.subrange(p, p + e0.len()) =~= e0) by {
            assert forall|i: int| 0 <= i < e0.len() implies s.subrange(p, p + e0.len())[i] == e0[i] by {
                assert(s[p + i] == e[i]);
            }
        }
        lemma_parse_encoded(s, p, items[0]);
        lemma_encode_nonempty(items[0]);
        let q = p + e0.len();
        assert(s.subrange(q, s.len() as int) =~= er.subrange(0, s.len() - q)) by {
            assert forall|i: int| 0 <= i < s.len() - q implies s.subrange(q, s.len() as int)[i]
                == er.subrange(0, s.len() - q)[i] by {
                assert(s[q + i] == e[e0.len() + i]);
            }
        }
        lemma_cut_items_incomplete(s, q, rest, acc.push(items[0]));
    }
}

} // verus!
