//! The RESP decoder: a grammar over bytes, an executable decoder that follows
//! it, and a buffer that keeps what a connection has received but not framed.
use vstd::prelude::*;
use crate::decimal::{digits_value, i64_text_value, is_numeral, parse_i64_text, parse_numeral};
use crate::commands::{command_from_frame, parse_command, result_view, Command, CommandError};
use crate::resp::{resp_items_view, RespType, RespValue, CR, LF};

verus! {

/// What the grammar finds at a position: a value and the position after it,
/// a frame cut short, or bytes that no frame starts with.
pub enum Parsed {
    Done(RespValue, int),
    Incomplete,
    Malformed,
}

pub open spec fn is_resp_tag(b: u8) -> bool {
    b == 43u8 || b == 45u8 || b == 58u8 || b == 36u8 || b == 42u8
}

/// The first CR at or after `from`.
pub open spec fn cr_at_or_after(s: Seq<u8>, from: int) -> Option<int>
    decreases s.len() - from,
{
    if from < 0 || from >= s.len() {
        None
    } else if s[from] == CR {
        Some(from)
    } else {
        cr_at_or_after(s, from + 1)
    }
}

pub proof fn lemma_cr_at_or_after(s: Seq<u8>, from: int)
    requires
        0 <= from,
    ensures
        match cr_at_or_after(s, from) {
            Some(c) => from <= c < s.len() && s[c] == CR && forall|j: int|
                from <= j < c ==> s[j] != CR,
            None => forall|j: int| from <= j < s.len() ==> s[j] != CR,
        },
    decreases s.len() - from,
{
    if from < s.len() && s[from] != CR {
        lemma_cr_at_or_after(s, from + 1);
    }
}

/// The value that starts at `p`, by RESP's grammar.
pub open spec fn parse_at(s: Seq<u8>, p: int) -> Parsed
    decreases s.len() - p, 0int,
{
    if p < 0 || p >= s.len() {
        Parsed::Incomplete
    } else if !is_resp_tag(s[p]) {
        Parsed::Malformed
    } else {
        match cr_at_or_after(s, p + 1) {
            None => Parsed::Incomplete,
            Some(c) => {
                if c + 1 >= s.len() {
                    Parsed::Incomplete
                } else if s[c + 1] != LF {
                    Parsed::Malformed
                } else {
                    let text = s.subrange(p + 1, c);
                    let next = c + 2;
                    if s[p] == 43u8 {
                        Parsed::Done(RespValue::SimpleString(text), next)
                    } else if s[p] == 45u8 {
                        Parsed::Done(RespValue::Error(text), next)
                    } else {
                        match i64_text_value(text) {
                            None => Parsed::Malformed,
                            Some(n) => {
                                if s[p] == 58u8 {
                                    Parsed::Done(RespValue::Integer(n), next)
                                } else if n == -1 {
                                    if s[p] == 36u8 {
                                        Parsed::Done(RespValue::BulkString(None), next)
                                    } else {
                                        Parsed::Done(RespValue::NullArray, next)
                                    }
                                } else if n < 0 {
                                    Parsed::Malformed
                                } else if s[p] == 36u8 {
                                    if next + n + 2 > s.len() {
                                        Parsed::Incomplete
                                    } else if s[next + n] == CR && s[next + n + 1] == LF {
                                        Parsed::Done(
                                            RespValue::BulkString(Some(s.subrange(next, next + n))),
                                            next + n + 2,
                                        )
                                    } else {
                                        Parsed::Malformed
                                    }
                                } else {
                                    proof {
                                        lemma_cr_at_or_after(s, p + 1);
                                    }
                                    parse_items(s, next, n, Seq::empty())
                                }
                            },
                        }
                    }
                }
            },
        }
    }
}

/// The `n` values that start at `p`, appended to `acc`, as the elements of an array.
pub open spec fn parse_items(s: Seq<u8>, p: int, n: int, acc: Seq<RespValue>) -> Parsed
    decreases s.len() - p, 1int,
{
    if n <= 0 {
        Parsed::Done(RespValue::Array(acc), p)
    } else {
        match parse_at(s, p) {
            Parsed::Done(v, q) => {
                if p < q && q <= s.len() {
                    parse_items(s, q, n - 1, acc.push(v))
                } else {
                    Parsed::Malformed
                }
            },
            Parsed::Incomplete => Parsed::Incomplete,
            Parsed::Malformed => Parsed::Malformed,
        }
    }
}

/// The value at the front of a buffer.
pub open spec fn parse(s: Seq<u8>) -> Parsed {
    parse_at(s, 0)
}

pub proof fn lemma_parse_bounds(s: Seq<u8>, p: int)
    ensures
        parse_at(s, p) matches Parsed::Done(_, q) ==> p < q <= s.len(),
    decreases s.len() - p, 0int,
{
    if 0 <= p < s.len() && is_resp_tag(s[p]) {
        lemma_cr_at_or_after(s, p + 1);
        if let Some(c) = cr_at_or_after(s, p + 1) {
            if c + 1 < s.len() && s[c + 1] == LF && s[p] == 42u8 {
                if let Some(n) = i64_text_value(s.subrange(p + 1, c)) {
                    if n >= 0 {
                        lemma_items_bounds(s, c + 2, n, Seq::empty());
                    }
                }
            }
        }
    }
}

pub proof fn lemma_items_bounds(s: Seq<u8>, p: int, n: int, acc: Seq<RespValue>)
    requires
        p <= s.len(),
    ensures
        parse_items(s, p, n, acc) matches Parsed::Done(_, q) ==> p <= q <= s.len(),
    decreases s.len() - p, 1int,
{
    if n > 0 {
        lemma_parse_bounds(s, p);
        if let Parsed::Done(v, q) = parse_at(s, p) {
            if p < q && q <= s.len() {
                lemma_items_bounds(s, q, n - 1, acc.push(v));
            }
        }
    }
}

/// What the executable decoder finds at a position.
pub enum Decoded {
    Done(RespType, usize),
    Incomplete,
    Malformed,
}

impl View for Decoded {
    type V = Parsed;

    open spec fn view(&self) -> Parsed {
        match self {
            Decoded::Done(v, q) => Parsed::Done(v@, *q as int),
            Decoded::Incomplete => Parsed::Incomplete,
            Decoded::Malformed => Parsed::Malformed,
        }
    }
}

fn find_cr(buf: &Vec<u8>, from: usize) -> (r: Option<usize>)
    ensures
        match r {
            Some(c) => cr_at_or_after(buf@, from as int) == Some(c as int),
            None => cr_at_or_after(buf@, from as int) is None,
        },
{
    let mut i: usize = from;
    while i < buf.len()
        invariant
            from <= i,
            cr_at_or_after(buf@, from as int) == cr_at_or_after(buf@, i as int),
        decreases buf@.len() - i,
    {
        if buf[i] == CR {
            return Some(i);
        }
        i = i + 1;
    }
    None
}

fn copy_range(buf: &Vec<u8>, from: usize, to: usize) -> (r: Vec<u8>)
    requires
        from <= to <= buf@.len(),
    ensures
        r@ == buf@.subrange(from as int, to as int),
{
    let mut out: Vec<u8> = Vec::new();
    let mut i: usize = from;
    while i < to
        invariant
            from <= i <= to <= buf@.len(),
            out@ == buf@.subrange(from as int, i as int),
        decreases to - i,
    {
        out.push(buf[i]);
        i = i + 1;
        assert(out@ =~= buf@.subrange(from as int, i as int));
    }
    out
}

proof fn lemma_items_view_push(s: Seq<RespType>, x: RespType)
    ensures
        resp_items_view(s.push(x)) == resp_items_view(s).push(x@),
{
    assert(s.push(x).drop_last() =~= s);
}

/// Decodes the value that starts at `p`.
pub fn decode_at(buf: &Vec<u8>, p: usize) -> (r: Decoded)
    ensures
        r@ == parse_at(buf@, p as int),
    decreases buf@.len() - p,
{
    let ghost s = buf@;
    if p >= buf.len() {
        return Decoded::Incomplete;
    }
    let tag = buf[p];
    if !(tag == 43u8 || tag == 45u8 || tag == 58u8 || tag == 36u8 || tag == 42u8) {
        return Decoded::Malformed;
    }
    let c = match find_cr(buf, p + 1) {
        None => {
            return Decoded::Incomplete;
        },
        Some(c) => c,
    };
    proof {
        lemma_cr_at_or_after(s, p + 1);
    }
    if c + 1 >= buf.len() {
        return Decoded::Incomplete;
    }
    if buf[c + 1] != LF {
        return Decoded::Malformed;
    }
    let next = c + 2;
    if tag == 43u8 {
        return Decoded::Done(RespType::SimpleString(copy_range(buf, p + 1, c)), next);
    }
    if tag == 45u8 {
        return Decoded::Done(RespType::Error(copy_range(buf, p + 1, c)), next);
    }
    let n = match parse_i64_text(buf.as_slice(), p + 1, c) {
        None => {
            return Decoded::Malformed;
        },
        Some(n) => n,
    };
    if tag == 58u8 {
        return Decoded::Done(RespType::Integer(n), next);
    }
    if n == -1 {
        if tag == 36u8 {
            return Decoded::Done(RespType::BulkString(None), next);
        } else {
            return Decoded::Done(RespType::NullArray, next);
        }
    }
    if n < 0 {
        return Decoded::Malformed;
    }
    let len = n as u64;
    if tag == 36u8 {
        let avail = (buf.len() - next) as u64;
        if avail < 2 || len > avail - 2 {
            return Decoded::Incomplete;
        }
        let end = next + len as usize;
        if buf[end] == CR && buf[end + 1] == LF {
            return Decoded::Done(RespType::BulkString(Some(copy_range(buf, next, end))), end + 2);
        } else {
            return Decoded::Malformed;
        }
    }
    let mut items: Vec<RespType> = Vec::new();
    let mut pos: usize = next;
    let mut k: u64 = 0;
    while k < len
        invariant
            p < next <= pos <= s.len(),
            s == buf@,
            k <= len,
            len == n,
            parse_at(s, p as int) == parse_items(s, next as int, n as int, Seq::empty()),
            parse_items(s, next as int, n as int, Seq::empty()) == parse_items(
                s,
                pos as int,
                (len - k) as int,
                resp_items_view(items@),
            ),
        decreases s.len() - pos,
    {
        match decode_at(buf, pos) {
            Decoded::Done(v, q) => {
                if q <= pos || q > buf.len() {
                    return Decoded::Malformed;
                }
                proof {
                    lemma_items_view_push(items@, v);
                }
                items.push(v);
                pos = q;
                k = k + 1;
            },
            Decoded::Incomplete => {
                return Decoded::Incomplete;
            },
            Decoded::Malformed => {
                return Decoded::Malformed;
            },
        }
    }
    Decoded::Done(RespType::Array(items), pos)
}

/// What the snapshot frame at the front of a buffer holds: `$`, a length,
/// CRLF, then that many raw bytes with no CRLF after them.
pub enum SnapshotParsed {
    Done(Seq<u8>, int),
    Incomplete,
    Malformed,
}

pub open spec fn parse_snapshot(s: Seq<u8>) -> SnapshotParsed {
    if s.len() == 0 {
        SnapshotParsed::Incomplete
    } else if s[0] != 36u8 {
        SnapshotParsed::Malformed
    } else {
        match cr_at_or_after(s, 1) {
            None => SnapshotParsed::Incomplete,
            Some(c) => {
                if c + 1 >= s.len() {
                    SnapshotParsed::Incomplete
                } else if s[c + 1] != LF {
                    SnapshotParsed::Malformed
                } else {
                    let text = s.subrange(1, c);
                    if !(is_numeral(text) && digits_value(text) <= u64::MAX) {
                        SnapshotParsed::Malformed
                    } else if c + 2 + digits_value(text) > s.len() {
                        SnapshotParsed::Incomplete
                    } else {
                        SnapshotParsed::Done(
                            s.subrange(c + 2, c + 2 + digits_value(text)),
                            c + 2 + digits_value(text),
                        )
                    }
                }
            },
        }
    }
}

/// The next value framed from a connection's buffer.
#[derive(Debug, PartialEq, Eq)]
pub enum NextValue {
    /// A value and the number of bytes its frame took.
    Value(RespType, usize),
    /// The buffer holds no complete frame yet: read more from the peer.
    NeedMore,
    /// The buffer starts with bytes that no frame starts with.
    Malformed,
}

/// The next command framed from a connection's buffer.
#[derive(Debug, PartialEq, Eq)]
pub enum NextCommand {
    /// The command that the next frame carries (or why it carries none), and
    /// the number of bytes the frame took.
    Command(Result<Command, CommandError>, usize),
    NeedMore,
    Malformed,
}

/// The snapshot payload framed from a connection's buffer.
#[derive(Debug, PartialEq, Eq)]
pub enum NextSnapshot {
    Payload(Vec<u8>),
    NeedMore,
    Malformed,
}

/// The bytes a connection has received and not yet framed.
pub struct RespParser {
    buf: Vec<u8>,
}

impl View for RespParser {
    type V = Seq<u8>;

    closed spec fn view(&self) -> Seq<u8> {
        self.buf@
    }
}

impl RespParser {
    pub fn new() -> (r: RespParser)
        ensures
            r@ == Seq::<u8>::empty(),
    {
        RespParser { buf: Vec::new() }
    }

    /// Appends bytes read from the peer.
    pub fn feed(&mut self, data: &[u8])
        ensures
            final(self)@ == old(self)@ + data@,
    {
        let mut i: usize = 0;
        while i < data.len()
            invariant
                i <= data@.len(),
                self.buf@ == old(self)@ + data@.subrange(0, i as int),
            decreases data@.len() - i,
        {
            self.buf.push(data[i]);
            i = i + 1;
            assert(self.buf@ =~= old(self)@ + data@.subrange(0, i as int));
        }
        assert(data@.subrange(0, i as int) =~= data@);
    }

    /// The unframed bytes.
    pub fn pending(&self) -> (r: &Vec<u8>)
        ensures
            r@ == self@,
    {
        &self.buf
    }

    fn drop_front(&mut self, n: usize)
        requires
            n <= old(self)@.len(),
        ensures
            final(self)@ == old(self)@.subrange(n as int, old(self)@.len() as int),
    {
        let rest = self.buf.split_off(n);
        self.buf = rest;
    }

    /// Frames the next value; on success its bytes leave the buffer and any
    /// bytes after them stay.
    pub fn next_value(&mut self) -> (r: NextValue)
        ensures
            match r {
                NextValue::Value(v, n) => parse(old(self)@) == Parsed::Done(v@, n as int)
                    && final(self)@ == old(self)@.subrange(n as int, old(self)@.len() as int),
                NextValue::NeedMore => parse(old(self)@) is Incomplete && final(self)@ == old(self)@,
                NextValue::Malformed => parse(old(self)@) is Malformed && final(self)@ == old(self)@,
            },
    {
        match decode_at(&self.buf, 0) {
            Decoded::Done(v, n) => {
                proof {
                    lemma_parse_bounds(self.buf@, 0);
                }
                self.drop_front(n);
                NextValue::Value(v, n)
            },
            Decoded::Incomplete => NextValue::NeedMore,
            Decoded::Malformed => NextValue::Malformed,
        }
    }

    /// Frames the next value and reads it as a command; on success the
    /// frame's bytes leave the buffer and any bytes after them stay.
    pub fn parse_command(&mut self) -> (r: NextCommand)
        ensures
            match r {
                NextCommand::Command(c, n) => (parse(old(self)@) matches Parsed::Done(v, m) && m == n
                    && result_view(c) == command_from_frame(v)) && final(self)@ == old(self)@.subrange(
                    n as int,
                    old(self)@.len() as int,
                ),
                NextCommand::NeedMore => parse(old(self)@) is Incomplete && final(self)@ == old(self)@,
                NextCommand::Malformed => parse(old(self)@) is Malformed && final(self)@ == old(self)@,
            },
    {
        match self.next_value() {
            NextValue::Value(v, n) => NextCommand::Command(parse_command(v), n),
            NextValue::NeedMore => NextCommand::NeedMore,
            NextValue::Malformed => NextCommand::Malformed,
        }
    }

    /// Frames the snapshot that follows a full resynchronisation; on success
    /// its bytes leave the buffer and any bytes after them stay.
    pub fn process_rdb_file(&mut self) -> (r: NextSnapshot)
        ensures
            match r {
                NextSnapshot::Payload(b) => parse_snapshot(old(self)@) == SnapshotParsed::Done(
                    b@,
                    old(self)@.len() - final(self)@.len(),
                ) && final(self)@ == old(self)@.subrange(
                    old(self)@.len() - final(self)@.len(),
                    old(self)@.len() as int,
                ),
                NextSnapshot::NeedMore => parse_snapshot(old(self)@) is Incomplete && final(self)@
                    == old(self)@,
                NextSnapshot::Malformed => parse_snapshot(old(self)@) is Malformed && final(self)@
                    == old(self)@,
            },
    {
        let ghost s = self.buf@;
        if self.buf.len() == 0 {
            return NextSnapshot::NeedMore;
        }
        if self.buf[0] != 36u8 {
            return NextSnapshot::Malformed;
        }
        let c = match find_cr(&self.buf, 1) {
            None => {
                return NextSnapshot::NeedMore;
            },
            Some(c) => c,
        };
        proof {
            lemma_cr_at_or_after(s, 1);
        }
        if c + 1 >= self.buf.len() {
            return NextSnapshot::NeedMore;
        }
        if self.buf[c + 1] != LF {
            return NextSnapshot::Malformed;
        }
        let len = match parse_numeral(self.buf.as_slice(), 1, c) {
            None => {
                return NextSnapshot::Malformed;
            },
            Some(len) => len,
        };
        let start = c + 2;
        if len > (self.buf.len() - start) as u64 {
            return NextSnapshot::NeedMore;
        }
        let end = start + len as usize;
        let payload = copy_range(&self.buf, start, end);
        self.drop_front(end);
        NextSnapshot::Payload(payload)
    }
}

} // verus!
