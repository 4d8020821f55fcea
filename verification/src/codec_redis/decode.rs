//! Reading one reply from the front of a buffer.
use super::decimal::{parse_i64, read_i64};
use super::wire::{
    crlf_at, is_line_end, line_end, parse, parse_at, parse_items, Fault, Parsed, ParsedItems, COLON,
    CR, DASH, DOLLAR, LF, PLUS, STAR,
};
use super::{Response, ResponseView};
use crate::codec::Decoder;
use crate::errors::Error;
use crate::text::text_from_utf8;
use vstd::prelude::*;
use vstd::utf8::*;

verus! {

/// The first terminator at or after `from` is where the line ends.
pub proof fn lemma_line_end_is(s: Seq<u8>, from: int, e: int)
    requires
        is_line_end(s, from, e),
    ensures
        line_end(s, from) == Some(e),
{
    let c = choose|c: int| is_line_end(s, from, c);
    if c < e {
        assert(!crlf_at(s, c));
    } else if e < c {
        assert(!crlf_at(s, e));
    }
}

/// Without a terminator at or after `from` the line has no end yet.
pub proof fn lemma_no_line_end(s: Seq<u8>, from: int)
    requires
        forall|j: int| from <= j ==> !crlf_at(s, j),
    ensures
        line_end(s, from) is None,
{
}

/// A run of frames that is incomplete or malformed after `k` frames is the
/// same after any more.
pub proof fn lemma_items_stuck(s: Seq<u8>, at: int, k: nat, n: nat)
    requires
        k <= n,
        !(parse_items(s, at, k) is Items),
    ensures
        parse_items(s, at, n) == parse_items(s, at, k),
    decreases n - k,
{
    if k < n {
        lemma_items_stuck(s, at, k, (n - 1) as nat);
    }
}

/// The text of the fault, as an error carries it.
pub open spec fn fault_text(fault: Fault) -> Seq<char> {
    match fault {
        Fault::Tag => "unexpected leading byte"@,
        Fault::Text => "line is not valid UTF-8"@,
        Fault::Number => "not an integer"@,
        Fault::Length => "negative length"@,
        Fault::Terminator => "bulk string is not terminated"@,
    }
}

/// The parse error that reports `fault`.
pub fn parse_error(fault: Fault) -> (err: Error)
    ensures
        err matches Error::Parse(text) && text@ == fault_text(fault),
{
    let text: &'static str = match fault {
        Fault::Tag => "unexpected leading byte",
        Fault::Text => "line is not valid UTF-8",
        Fault::Number => "not an integer",
        Fault::Length => "negative length",
        Fault::Terminator => "bulk string is not terminated",
    };
    Error::Parse(text.to_owned())
}

/// Where the line that starts at `from` ends.
pub fn find_line_end(buf: &Vec<u8>, from: usize) -> (r: Option<usize>)
    ensures
        match r {
            Some(e) => line_end(buf@, from as int) == Some(e as int) && from <= e && e + 2
                <= buf.len(),
            None => line_end(buf@, from as int) is None,
        },
{
    if buf.len() < 2 {
        proof {
            lemma_no_line_end(buf@, from as int);
        }
        return None;
    }
    let last: usize = buf.len() - 1;
    let mut i: usize = from;
    while i < last
        invariant
            from <= i,
            last == buf.len() - 1,
            forall|j: int| from <= j < i ==> !crlf_at(buf@, j),
        decreases last - i,
    {
        if buf[i] == CR && buf[i + 1] == LF {
            proof {
                lemma_line_end_is(buf@, from as int, i as int);
            }
            return Some(i);
        }
        i += 1;
    }
    proof {
        lemma_no_line_end(buf@, from as int);
    }
    None
}

/// A copy of `buf[from..to]`.
pub fn copy_range(buf: &Vec<u8>, from: usize, to: usize) -> (out: Vec<u8>)
    requires
        from <= to <= buf.len(),
    ensures
        out@ == buf@.subrange(from as int, to as int),
{
    let mut out: Vec<u8> = Vec::new();
    let mut i: usize = from;
    while i < to
        invariant
            from <= i <= to <= buf.len(),
            out@ == buf@.subrange(from as int, i as int),
        decreases to - i,
    {
        out.push(buf[i]);
        i += 1;
        assert(out@ =~= buf@.subrange(from as int, i as int));
    }
    out
}

/// What was found at a position of a buffer.
pub enum Step {
    /// The start of a frame, or nothing.
    Incomplete,
    /// No frame, whatever bytes follow.
    Malformed(Fault),
    /// A reply, and the position behind its frame.
    Frame(Response, usize),
}

impl View for Step {
    type V = Parsed;

    open spec fn view(&self) -> Parsed {
        match self {
            Step::Incomplete => Parsed::Incomplete,
            Step::Malformed(fault) => Parsed::Malformed(*fault),
            Step::Frame(resp, end) => Parsed::Frame(resp@, *end as int),
        }
    }
}

/// Reads the frame that `buf` holds at `at`, and leaves the buffer alone.
pub fn parse_frame(buf: &Vec<u8>, at: usize) -> (step: Step)
    ensures
        step@ == parse_at(buf@, at as int),
        step matches Step::Frame(_, end) ==> at < end <= buf.len(),
    decreases buf.len() - at,
{
    if at >= buf.len() {
        return Step::Incomplete;
    }
    let tag: u8 = buf[at];
    if tag != PLUS && tag != DASH && tag != COLON && tag != DOLLAR && tag != STAR {
        return Step::Malformed(Fault::Tag);
    }
    let e: usize = match find_line_end(buf, at + 1) {
        None => {
            return Step::Incomplete;
        },
        Some(e) => e,
    };
    let next: usize = e + 2;
    if tag == PLUS || tag == DASH {
        let line = copy_range(buf, at + 1, e);
        return match text_from_utf8(line) {
            Some(text) => if tag == PLUS {
                Step::Frame(Response::SimpleString(text), next)
            } else {
                Step::Frame(Response::Error(text), next)
            },
            None => Step::Malformed(Fault::Text),
        };
    }
    let n: i64 = match read_i64(buf, at + 1, e) {
        None => {
            return Step::Malformed(Fault::Number);
        },
        Some(n) => n,
    };
    if tag == COLON {
        return Step::Frame(Response::Integer(n), next);
    }
    if n == -1 {
        return Step::Frame(Response::Bulk(None), next);
    }
    if n < 0 {
        return Step::Malformed(Fault::Length);
    }
    if tag == DOLLAR {
        let rest: usize = buf.len() - next;
        if rest < 2 || ((rest - 2) as u64) < (n as u64) {
            return Step::Incomplete;
        }
        let len: usize = n as usize;
        if buf[next + len] == CR && buf[next + len + 1] == LF {
            let bytes = copy_range(buf, next, next + len);
            return Step::Frame(Response::Bulk(Some(bytes)), next + len + 2);
        }
        return Step::Malformed(Fault::Terminator);
    }
    let count: u64 = n as u64;
    let mut items: Vec<Response> = Vec::new();
    let ghost mut done: Seq<ResponseView> = Seq::empty();
    let mut pos: usize = next;
    let mut i: u64 = 0;
    while i < count
        invariant
            at < buf.len(),
            buf@[at as int] == STAR,
            line_end(buf@, at + 1) == Some(e as int),
            at + 1 <= e,
            next == e + 2,
            parse_i64(buf@.subrange(at + 1, e as int)) == Some(n),
            n >= 0,
            count == n,
            at < next <= pos <= buf.len(),
            i <= count,
            done.len() == items@.len(),
            forall|j: int| 0 <= j < done.len() ==> done[j] == (#[trigger] items@[j])@,
            parse_items(buf@, next as int, i as nat) == ParsedItems::Items(done, pos as int),
        decreases count - i,
    {
        match parse_frame(buf, pos) {
            Step::Frame(resp, end) => {
                proof {
                    done = done.push(resp@);
                }
                items.push(resp);
                pos = end;
                i += 1;
            },
            Step::Incomplete => {
                proof {
                    lemma_items_stuck(buf@, next as int, (i + 1) as nat, count as nat);
                }
                return Step::Incomplete;
            },
            Step::Malformed(fault) => {
                proof {
                    lemma_items_stuck(buf@, next as int, (i + 1) as nat, count as nat);
                }
                return Step::Malformed(fault);
            },
        }
    }
    let resp = Response::Array(items);
    proof {
        assert(resp@->Array_0 =~= done);
    }
    Step::Frame(resp, pos)
}

/// The codec of the protocol: requests out, replies in.
#[derive(Debug, Clone, Copy)]
pub struct Codec {}

impl Decoder for Codec {
    type DecodeItem = Response;

    type DecodeError = Error;

    /// Takes the reply that `src` starts with. A buffer that holds only the
    /// start of a frame is left as it is, to be tried again when more bytes
    /// have been appended; so is one that starts with no frame at all, and
    /// the error says why.
    fn decode(&self, src: &mut Vec<u8>) -> (r: Result<Option<Response>, Error>)
        ensures
            match parse(old(src)@) {
                Parsed::Frame(resp, end) => {
                    &&& r matches Ok(Some(got))
                    &&& got@ == resp
                    &&& 0 < end <= old(src)@.len()
                    &&& final(src)@ == old(src)@.skip(end)
                },
                Parsed::Incomplete => {
                    &&& r matches Ok(None)
                    &&& final(src)@ == old(src)@
                },
                Parsed::Malformed(fault) => {
                    &&& r matches Err(Error::Parse(text))
                    &&& text@ == fault_text(fault)
                    &&& final(src)@ == old(src)@
                },
            },
    {
        match parse_frame(src, 0) {
            Step::Frame(resp, end) => {
                let rest = src.split_off(end);
                *src = rest;
                proof {
                    assert(final(src)@ =~= old(src)@.skip(end as int));
                    assert(final(src)@ =~= old(src)@.skip(old(src)@.len() - final(src)@.len()));
                }
                Ok(Some(resp))
            },
            Step::Incomplete => {
                proof {
                    assert(final(src)@ =~= old(src)@.skip(0));
                }
                Ok(None)
            },
            Step::Malformed(fault) => {
                proof {
                    assert(final(src)@ =~= old(src)@.skip(0));
                }
                Err(parse_error(fault))
            },
        }
    }
}

} // verus!
