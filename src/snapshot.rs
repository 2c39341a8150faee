//! The snapshot a leader ships at the end of a handshake: a fixed empty
//! snapshot, and the frames that announce and carry it.
use vstd::prelude::*;
use crate::bytes::append;
use crate::decimal::{lemma_nat_text_numeral, nat_text, push_nat_text};
use crate::decoder::{parse, parse_snapshot, Parsed, SnapshotParsed};
use crate::handshake::{is_fullresync, word_fullresync};
use crate::resp::{crlf, encode, RespValue, CR, LF};
use crate::round_trip::{lemma_int_text_no_cr, lemma_line_at, lemma_round_trip};

verus! {

#[verifier::external_type_specification]
#[verifier::external_body]
pub struct ExDecodeError(base64::DecodeError);

/// The bytes that a base64 text (standard alphabet, padded) encodes, if it is valid.
pub uninterp spec fn base64_decoded(text: Seq<char>) -> Option<Seq<u8>>;

/// Relies on base64::decode (standard alphabet, canonical padding): the
/// bytes that `text` encodes, or an error when it is not valid base64. The
/// result depends on the text alone.
#[verifier::external_body]
#[allow(deprecated)]
fn decode_base64(text: &str) -> (r: Result<Vec<u8>, base64::DecodeError>)
    ensures
        match r {
            Ok(b) => base64_decoded(text@) == Some(b@),
            Err(_) => base64_decoded(text@) is None,
        },
{
    base64::decode(text)
}

/// An empty snapshot in the RDB format, in base64.
pub const EMPTY_RDB_B64: &'static str = "UkVESVMwMDEx+glyZWRpcy12ZXIFNy4yLjD6CnJlZGlzLWJpdHPAQPoFY3RpbWXCbQi8ZfoIdXNlZC1tZW3CsMQQAPoIYW9mLWJhc2XAAP/wbjv+wP9aog==";

/// The snapshot could not be built.
#[derive(PartialEq, Eq, Structural, Debug, Clone, Copy)]
pub enum SnapshotError {
    InvalidEncoding,
}

/// The empty snapshot's bytes.
pub fn construct_rdb() -> (r: Result<Vec<u8>, SnapshotError>)
    ensures
        match r {
            Ok(b) => base64_decoded(EMPTY_RDB_B64@) == Some(b@),
            Err(e) => base64_decoded(EMPTY_RDB_B64@) is None && e == SnapshotError::InvalidEncoding,
        },
{
    match decode_base64(EMPTY_RDB_B64) {
        Ok(b) => Ok(b),
        Err(_) => Err(SnapshotError::InvalidEncoding),
    }
}

/// A snapshot on the wire: `$`, its length, CRLF, then its bytes with no CRLF after them.
pub open spec fn snapshot_frame(payload: Seq<u8>) -> Seq<u8> {
    seq![36u8] + nat_text(payload.len()) + crlf() + payload
}

/// `FULLRESYNC <replid> 0`, the text of a leader's answer to PSYNC.
pub open spec fn fullresync_text(replid: Seq<u8>) -> Seq<u8> {
    seq![70u8, 85, 76, 76, 82, 69, 83, 89, 78, 67, 32] + replid + seq![32u8, 48]
}

/// A leader's whole answer to PSYNC: the FULLRESYNC line, then the snapshot.
pub open spec fn psync_answer(replid: Seq<u8>, payload: Seq<u8>) -> Seq<u8> {
    encode(RespValue::SimpleString(fullresync_text(replid))) + snapshot_frame(payload)
}

/// The bytes a leader sends in answer to PSYNC.
pub fn psync_reply(replid: &Vec<u8>, payload: &Vec<u8>) -> (r: Vec<u8>)
    ensures
        r@ == psync_answer(replid@, payload@),
{
    let mut out: Vec<u8> = Vec::new();
    append(&mut out, &[43u8, 70, 85, 76, 76, 82, 69, 83, 89, 78, 67, 32]);
    append(&mut out, replid.as_slice());
    append(&mut out, &[32u8, 48, CR, LF, 36]);
    push_nat_text(&mut out, payload.len() as u64);
    append(&mut out, &[CR, LF]);
    append(&mut out, payload.as_slice());
    assert(out@ =~= psync_answer(replid@, payload@));
    out
}

/// A snapshot frame, with any bytes after it, reads back as its payload;
/// what follows stays for the decoder.
pub proof fn lemma_snapshot_round_trip(payload: Seq<u8>, rest: Seq<u8>)
    requires
        payload.len() <= u64::MAX,
    ensures
        parse_snapshot(snapshot_frame(payload) + rest) == SnapshotParsed::Done(
            payload,
            snapshot_frame(payload).len() as int,
        ),
{
    let t = nat_text(payload.len());
    let s = snapshot_frame(payload) + rest;
    let h = seq![36u8] + t + crlf();
    lemma_int_text_no_cr(payload.len() as int);
    lemma_nat_text_numeral(payload.len());
    assert(s.subrange(0, t.len() + 3 as int) =~= h);
    lemma_line_at(s, 0, 36u8, t);
    assert(s.subrange(h.len() as int, h.len() + payload.len() as int) =~= payload);
}

/// A leader's answer to PSYNC, with any bytes after it, reads back on a
/// follower as the FULLRESYNC line, which the handshake accepts, and then
/// exactly the snapshot.
pub proof fn lemma_psync_answer_reads_back(replid: Seq<u8>, payload: Seq<u8>, rest: Seq<u8>)
    requires
        !replid.contains(CR),
        payload.len() <= u64::MAX,
    ensures
        ({
            let line = RespValue::SimpleString(fullresync_text(replid));
            let all = psync_answer(replid, payload) + rest;
            let k = encode(line).len() as int;
            &&& is_fullresync(line)
            &&& parse(all) == Parsed::Done(line, k)
            &&& parse_snapshot(all.subrange(k, all.len() as int)) == SnapshotParsed::Done(
                payload,
                snapshot_frame(payload).len() as int,
            )
        }),
{
    let text = fullresync_text(replid);
    let line = RespValue::SimpleString(text);
    assert forall|i: int| 0 <= i < text.len() implies text[i] != CR by {
        if 11 <= i < 11 + replid.len() {
            assert(text[i] == replid[i - 11]);
        }
    }
    assert(!text.contains(CR));
    assert(text.subrange(0, 10) =~= word_fullresync());
    let all = psync_answer(replid, payload) + rest;
    assert(all =~= encode(line) + (snapshot_frame(payload) + rest));
    lemma_round_trip(line, snapshot_frame(payload) + rest);
    let k = encode(line).len() as int;
    assert(all.subrange(k, all.len() as int) =~= snapshot_frame(payload) + rest);
    lemma_snapshot_round_trip(payload, rest);
}

} // verus!
