//! The wire format, stated on byte sequences: how a request is rendered, how
//! a reply is rendered, and which reply, if any, a buffer starts with.
use super::decimal::{decimal, parse_i64};
use super::{RequestView, ResponseView};
use vstd::prelude::*;
use vstd::utf8::*;

verus! {

/// Carriage return, the first byte of a line's terminator.
pub const CR: u8 = 13;

/// Line feed, the second byte of a line's terminator.
pub const LF: u8 = 10;

/// `+`, the prefix of a simple string.
pub const PLUS: u8 = 43;

/// `-`, the prefix of an error.
pub const DASH: u8 = 45;

/// `:`, the prefix of an integer.
pub const COLON: u8 = 58;

/// `$`, the prefix of a bulk string.
pub const DOLLAR: u8 = 36;

/// `*`, the prefix of an array.
pub const STAR: u8 = 42;

/// The terminator of a line.
pub open spec fn crlf() -> Seq<u8> {
    seq![13u8, 10u8]
}

/// A line that holds a prefix byte and a number.
pub open spec fn header(tag: u8, n: int) -> Seq<u8> {
    seq![tag] + decimal(n) + crlf()
}

/// A bulk string: its length on a line, then its bytes and a terminator.
pub open spec fn bulk(bytes: Seq<u8>) -> Seq<u8> {
    header(36u8, bytes.len() as int) + bytes + crlf()
}

/// The frame of a request as an element: an array is a count and its
/// elements, everything else is one bulk string; an integer is sent as its
/// decimal text.
pub open spec fn frame(req: RequestView) -> Seq<u8>
    decreases req,
{
    match req {
        RequestView::Array(items) => header(42u8, items.len() as int) + frames(items, items.len()),
        RequestView::BulkString(bytes) => bulk(bytes),
        RequestView::BulkInteger(n) => bulk(decimal(n as int)),
        RequestView::StaticToken(text) => bulk(encode_utf8(text)),
        RequestView::Inline(text) => bulk(encode_utf8(text)),
    }
}

/// The frames of the first `n` of `items`, one after the other.
pub open spec fn frames(items: Seq<RequestView>, n: nat) -> Seq<u8>
    decreases items, n,
{
    if n == 0 || n > items.len() {
        Seq::empty()
    } else {
        frames(items, (n - 1) as nat) + frame(items[n - 1])
    }
}

/// The bytes that are sent for a request. A command is always an array: a
/// request that is a single token is sent as an array of that one element.
pub open spec fn encoding(req: RequestView) -> Seq<u8> {
    if req is Array {
        frame(req)
    } else {
        header(42u8, 1) + frame(req)
    }
}

/// The frame of a reply.
pub open spec fn wire(resp: ResponseView) -> Seq<u8>
    decreases resp,
{
    match resp {
        ResponseView::SimpleString(text) => seq![43u8] + encode_utf8(text) + crlf(),
        ResponseView::Error(text) => seq![45u8] + encode_utf8(text) + crlf(),
        ResponseView::Integer(n) => header(58u8, n as int),
        ResponseView::Bulk(None) => header(36u8, -1),
        ResponseView::Bulk(Some(bytes)) => bulk(bytes),
        ResponseView::Array(items) => header(42u8, items.len() as int) + wires(items, items.len()),
    }
}

/// The frames of the first `n` of `items`, one after the other.
pub open spec fn wires(items: Seq<ResponseView>, n: nat) -> Seq<u8>
    decreases items, n,
{
    if n == 0 || n > items.len() {
        Seq::empty()
    } else {
        wires(items, (n - 1) as nat) + wire(items[n - 1])
    }
}

/// Whether a line's terminator stands at `i`.
pub open spec fn crlf_at(s: Seq<u8>, i: int) -> bool {
    0 <= i && i + 1 < s.len() && s[i] == 13 && s[i + 1] == 10
}

/// Whether `e` is where the line that starts at `from` ends: the first
/// terminator at or after `from`.
pub open spec fn is_line_end(s: Seq<u8>, from: int, e: int) -> bool {
    &&& from <= e
    &&& crlf_at(s, e)
    &&& forall|j: int| from <= j < e ==> !crlf_at(s, j)
}

/// Where the line that starts at `from` ends, if the buffer holds all of it.
pub open spec fn line_end(s: Seq<u8>, from: int) -> Option<int> {
    if exists|e: int| is_line_end(s, from, e) {
        Some(choose|e: int| is_line_end(s, from, e))
    } else {
        None
    }
}

/// The text that a line holds, if it is UTF-8.
pub open spec fn text_of(line: Seq<u8>) -> Option<Seq<char>> {
    if valid_utf8(line) {
        Some(decode_utf8(line))
    } else {
        None
    }
}

/// Whether `b` is one of the five prefixes.
pub open spec fn is_tag(b: u8) -> bool {
    b == 43 || b == 45 || b == 58 || b == 36 || b == 42
}

/// What makes a frame malformed.
#[derive(Debug, Clone, Copy, PartialEq, Eq, Structural)]
pub enum Fault {
    /// The leading byte is none of the five prefixes.
    Tag,
    /// The line of a simple string or of an error is not UTF-8.
    Text,
    /// The number on a line is not a signed decimal that fits in 64 bits.
    Number,
    /// A length below -1.
    Length,
    /// The bytes of a bulk string are not followed by a terminator.
    Terminator,
}

/// What a buffer holds at some position.
pub enum Parsed {
    /// The start of a frame, or nothing; more bytes may complete it.
    Incomplete,
    /// No frame, whatever bytes follow.
    Malformed(Fault),
    /// A frame with this reply, which ends before this position.
    Frame(ResponseView, int),
}

/// What a buffer holds at some position where a run of frames is expected.
pub enum ParsedItems {
    Incomplete,
    Malformed(Fault),
    /// The replies of the run, which ends before this position.
    Items(Seq<ResponseView>, int),
}

/// The frame that `s` holds at `at`.
///
/// The first byte decides the kind and the line that it begins holds a text
/// or a number. For an integer the number is the reply. For a bulk string it
/// is a length, -1 for Nil, and as many bytes and a terminator follow. For
/// an array it is a count, -1 for Nil, and as many frames follow.
pub open spec fn parse_at(s: Seq<u8>, at: int) -> Parsed
    decreases s.len() - at, 0nat,
{
    if at < 0 || at >= s.len() {
        Parsed::Incomplete
    } else if !is_tag(s[at]) {
        Parsed::Malformed(Fault::Tag)
    } else {
        match line_end(s, at + 1) {
            None => Parsed::Incomplete,
            Some(e) => {
                let tag = s[at];
                let line = s.subrange(at + 1, e);
                let next = e + 2;
                if tag == 43 {
                    match text_of(line) {
                        Some(text) => Parsed::Frame(ResponseView::SimpleString(text), next),
                        None => Parsed::Malformed(Fault::Text),
                    }
                } else if tag == 45 {
                    match text_of(line) {
                        Some(text) => Parsed::Frame(ResponseView::Error(text), next),
                        None => Parsed::Malformed(Fault::Text),
                    }
                } else {
                    match parse_i64(line) {
                        None => Parsed::Malformed(Fault::Number),
                        Some(n) => {
                            if tag == 58 {
                                Parsed::Frame(ResponseView::Integer(n), next)
                            } else if n == -1 {
                                Parsed::Frame(ResponseView::Bulk(None), next)
                            } else if n < 0 {
                                Parsed::Malformed(Fault::Length)
                            } else if tag == 36 {
                                if s.len() < next + n + 2 {
                                    Parsed::Incomplete
                                } else if crlf_at(s, next + n) {
                                    Parsed::Frame(
                                        ResponseView::Bulk(Some(s.subrange(next, next + n))),
                                        next + n + 2,
                                    )
                                } else {
                                    Parsed::Malformed(Fault::Terminator)
                                }
                            } else {
                                match parse_items(s, next, n as nat) {
                                    ParsedItems::Items(items, end) => Parsed::Frame(
                                        ResponseView::Array(items),
                                        end,
                                    ),
                                    ParsedItems::Incomplete => Parsed::Incomplete,
                                    ParsedItems::Malformed(fault) => Parsed::Malformed(fault),
                                }
                            }
                        },
                    }
                }
            },
        }
    }
}

/// The run of `count` frames that `s` holds at `at`: the run of one frame
/// less, and the frame that follows it. (A run that ends outside the buffer
/// does not occur; the case is there for the recursion to be well founded.)
pub open spec fn parse_items(s: Seq<u8>, at: int, count: nat) -> ParsedItems
    decreases s.len() - at, count + 1,
{
    if count == 0 {
        ParsedItems::Items(Seq::empty(), at)
    } else {
        match parse_items(s, at, (count - 1) as nat) {
            ParsedItems::Items(items, mid) => {
                if mid < at || mid > s.len() {
                    ParsedItems::Incomplete
                } else {
                    match parse_at(s, mid) {
                        Parsed::Frame(resp, end) => ParsedItems::Items(items.push(resp), end),
                        Parsed::Incomplete => ParsedItems::Incomplete,
                        Parsed::Malformed(fault) => ParsedItems::Malformed(fault),
                    }
                }
            },
            other => other,
        }
    }
}

/// What the buffer `s` starts with.
pub open spec fn parse(s: Seq<u8>) -> Parsed {
    parse_at(s, 0)
}

} // verus!
