//! What holds of the wire format: a frame is found by its own bytes alone,
//! no shorter buffer holds it, and what is sent can be read back.
use super::decimal::{decimal, lemma_decimal_round_trip, parse_i64};
use super::decode::{lemma_line_end_is, lemma_no_line_end};
use super::wire::{
    bulk, crlf, crlf_at, encoding, frame, frames, header, is_line_end, line_end, parse, parse_at,
    parse_items, wire, wires, Parsed, ParsedItems,
};
use super::{RequestView, ResponseView};
use vstd::prelude::*;
use vstd::utf8::*;

verus! {

/// Whether `a` and `b` hold the same bytes before `end`.
pub open spec fn same_until(a: Seq<u8>, b: Seq<u8>, end: int) -> bool {
    &&& end <= a.len()
    &&& end <= b.len()
    &&& forall|i: int| 0 <= i < end ==> a[i] == b[i]
}

/// A line that has an end ends at its first terminator.
pub proof fn lemma_line_end_found(s: Seq<u8>, from: int)
    ensures
        line_end(s, from) matches Some(e) ==> is_line_end(s, from, e),
{
}

/// A frame ends behind its first line, inside the buffer; a run of frames
/// has as many replies as were asked for and ends inside the buffer.
pub proof fn lemma_frame_bounds(s: Seq<u8>, at: int)
    ensures
        parse_at(s, at) matches Parsed::Frame(_, end) ==> {
            &&& 0 <= at < end <= s.len()
            &&& line_end(s, at + 1) matches Some(e)
            &&& at + 1 <= e
            &&& e + 2 <= end
        },
    decreases s.len() - at, 0nat,
{
    if parse_at(s, at) is Frame {
        lemma_line_end_found(s, at + 1);
        let e = line_end(s, at + 1)->Some_0;
        let tag = s[at];
        if tag == 42 {
            let n = parse_i64(s.subrange(at + 1, e))->Some_0;
            if n >= 0 {
                lemma_items_bounds(s, e + 2, n as nat);
            }
        }
    }
}

/// See [`lemma_frame_bounds`].
pub proof fn lemma_items_bounds(s: Seq<u8>, at: int, count: nat)
    requires
        0 <= at <= s.len(),
    ensures
        parse_items(s, at, count) matches ParsedItems::Items(items, end) ==> {
            &&& at <= end <= s.len()
            &&& items.len() == count
        },
    decreases s.len() - at, count + 1,
{
    if count > 0 {
        lemma_items_bounds(s, at, (count - 1) as nat);
        match parse_items(s, at, (count - 1) as nat) {
            ParsedItems::Items(items, mid) => {
                lemma_frame_bounds(s, mid);
            },
            _ => {},
        }
    }
}

/// Where a line ends is decided by the bytes up to its terminator.
pub proof fn lemma_line_end_local(a: Seq<u8>, b: Seq<u8>, from: int, e: int)
    requires
        0 <= from,
        is_line_end(a, from, e),
        same_until(a, b, e + 2),
    ensures
        line_end(b, from) == Some(e),
{
    assert(is_line_end(b, from, e)) by {
        assert forall|j: int| from <= j < e implies !crlf_at(b, j) by {
            assert(!crlf_at(a, j));
        }
    }
    lemma_line_end_is(b, from, e);
}

/// A frame is decided by its own bytes: a buffer that holds the same bytes
/// up to the frame's end holds the same frame.
pub proof fn lemma_frame_local(a: Seq<u8>, b: Seq<u8>, at: int)
    requires
        parse_at(a, at) is Frame,
        same_until(a, b, parse_at(a, at)->Frame_1),
    ensures
        parse_at(b, at) == parse_at(a, at),
    decreases a.len() - at, 0nat,
{
    lemma_frame_bounds(a, at);
    lemma_line_end_found(a, at + 1);
    let end = parse_at(a, at)->Frame_1;
    let e = line_end(a, at + 1)->Some_0;
    let next = e + 2;
    lemma_line_end_local(a, b, at + 1, e);
    assert(b.subrange(at + 1, e) =~= a.subrange(at + 1, e));
    let tag = a[at];
    assert(b[at] == tag);
    if tag == 36 || tag == 42 {
        let n = parse_i64(a.subrange(at + 1, e))->Some_0;
        if n >= 0 {
            if tag == 36 {
                assert(b.subrange(next, next + n) =~= a.subrange(next, next + n));
                assert(crlf_at(b, next + n));
            } else {
                lemma_items_local(a, b, next, n as nat);
            }
        }
    }
}

/// See [`lemma_frame_local`].
pub proof fn lemma_items_local(a: Seq<u8>, b: Seq<u8>, at: int, count: nat)
    requires
        0 <= at <= a.len(),
        parse_items(a, at, count) is Items,
        same_until(a, b, parse_items(a, at, count)->Items_1),
    ensures
        parse_items(b, at, count) == parse_items(a, at, count),
    decreases a.len() - at, count + 1,
{
    lemma_items_bounds(a, at, count);
    if count > 0 {
        let before = parse_items(a, at, (count - 1) as nat);
        lemma_items_bounds(a, at, (count - 1) as nat);
        let mid = before->Items_1;
        lemma_frame_bounds(a, mid);
        lemma_items_local(a, b, at, (count - 1) as nat);
        lemma_frame_local(a, b, mid);
    }
}

/// No proper prefix of a frame is a frame, or malformed: until its last
/// byte has arrived, a frame is incomplete.
pub proof fn lemma_prefix_incomplete(a: Seq<u8>, at: int, k: int)
    requires
        parse_at(a, at) is Frame,
        0 <= at <= k < parse_at(a, at)->Frame_1,
    ensures
        parse_at(a.subrange(0, k), at) is Incomplete,
    decreases a.len() - at, 0nat,
{
    lemma_frame_bounds(a, at);
    lemma_line_end_found(a, at + 1);
    let b = a.subrange(0, k);
    let end = parse_at(a, at)->Frame_1;
    let e = line_end(a, at + 1)->Some_0;
    let next = e + 2;
    if at < k {
        assert(b[at] == a[at]);
        if k < next {
            assert forall|j: int| at + 1 <= j implies !crlf_at(b, j) by {
                if crlf_at(b, j) {
                    assert(crlf_at(a, j));
                    assert(j < e);
                }
            }
            lemma_no_line_end(b, at + 1);
        } else {
            assert(same_until(a, b, next));
            lemma_line_end_local(a, b, at + 1, e);
            assert(b.subrange(at + 1, e) =~= a.subrange(at + 1, e));
            let tag = a[at];
            if tag == 42 {
                let n = parse_i64(a.subrange(at + 1, e))->Some_0;
                if n >= 0 {
                    lemma_items_prefix(a, next, n as nat, k);
                }
            }
        }
    }
}

/// See [`lemma_prefix_incomplete`].
pub proof fn lemma_items_prefix(a: Seq<u8>, at: int, count: nat, k: int)
    requires
        0 <= at <= k,
        at <= a.len(),
        parse_items(a, at, count) is Items,
        k < parse_items(a, at, count)->Items_1,
    ensures
        parse_items(a.subrange(0, k), at, count) is Incomplete,
    decreases a.len() - at, count + 1,
{
    lemma_items_bounds(a, at, count);
    if count > 0 {
        let b = a.subrange(0, k);
        let before = parse_items(a, at, (count - 1) as nat);
        lemma_items_bounds(a, at, (count - 1) as nat);
        let mid = before->Items_1;
        lemma_frame_bounds(a, mid);
        if k < mid {
            lemma_items_prefix(a, at, (count - 1) as nat, k);
        } else {
            assert(same_until(a, b, mid));
            lemma_items_local(a, b, at, (count - 1) as nat);
            lemma_prefix_incomplete(a, mid, k);
        }
    }
}

/// A reply that arrives in two reads is incomplete after the first, and
/// after the second it is the reply that a single read would have brought:
/// wherever the frame is cut, and whatever follows it.
pub proof fn lemma_split_read(stream: Seq<u8>, cut: int)
    requires
        parse(stream) is Frame,
        0 <= cut < parse(stream)->Frame_1,
    ensures
        parse(stream.subrange(0, cut)) is Incomplete,
        stream.subrange(0, cut) + stream.subrange(cut, stream.len() as int) == stream,
{
    lemma_frame_bounds(stream, 0);
    lemma_prefix_incomplete(stream, 0, cut);
    assert(stream.subrange(0, cut) + stream.subrange(cut, stream.len() as int) =~= stream);
}

/// Bytes that follow a frame do not change it.
pub proof fn lemma_frame_before_more(head: Seq<u8>, more: Seq<u8>)
    requires
        parse(head) is Frame,
    ensures
        parse(head + more) == parse(head),
{
    lemma_frame_bounds(head, 0);
    lemma_frame_local(head, head + more, 0);
}

/// Whether `s` holds the bytes `w` at `at`.
pub open spec fn holds(s: Seq<u8>, at: int, w: Seq<u8>) -> bool {
    &&& 0 <= at
    &&& at + w.len() <= s.len()
    &&& forall|i: int| 0 <= i < w.len() ==> s[at + i] == #[trigger] w[i]
}

/// A buffer that holds two runs of bytes in a row holds each of them.
pub proof fn lemma_holds_split(s: Seq<u8>, at: int, x: Seq<u8>, y: Seq<u8>)
    requires
        holds(s, at, x + y),
    ensures
        holds(s, at, x),
        holds(s, at + x.len(), y),
{
    let w = x + y;
    assert forall|i: int| 0 <= i < x.len() implies s[at + i] == #[trigger] x[i] by {
        assert(w[i] == x[i]);
    }
    assert forall|i: int| 0 <= i < y.len() implies s[at + x.len() + i] == #[trigger] y[i] by {
        assert(w[x.len() + i] == y[i]);
    }
}

/// Whether no line terminator stands anywhere in `bytes`.
pub open spec fn no_crlf(bytes: Seq<u8>) -> bool {
    forall|i: int| !crlf_at(bytes, i)
}

/// The replies that have a frame: a text holds no line terminator, and
/// every length fits the 64 bits in which it is read.
pub open spec fn well_formed(resp: ResponseView) -> bool
    decreases resp,
{
    match resp {
        ResponseView::SimpleString(text) => no_crlf(encode_utf8(text)),
        ResponseView::Error(text) => no_crlf(encode_utf8(text)),
        ResponseView::Integer(_) => true,
        ResponseView::Bulk(None) => true,
        ResponseView::Bulk(Some(bytes)) => bytes.len() <= i64::MAX,
        ResponseView::Array(items) => {
            &&& items.len() <= i64::MAX
            &&& forall|i: int| 0 <= i < items.len() ==> well_formed(#[trigger] items[i])
        },
    }
}

/// The line of a header ends where its number ends, and holds that number.
pub proof fn lemma_header_line(s: Seq<u8>, at: int, tag: u8, n: int)
    requires
        holds(s, at, header(tag, n)),
        i64::MIN <= n <= i64::MAX,
    ensures
        s[at] == tag,
        header(tag, n).len() == decimal(n).len() + 3,
        line_end(s, at + 1) == Some(at + 1 + decimal(n).len()),
        parse_i64(s.subrange(at + 1, at + 1 + decimal(n).len())) == Some(n as i64),
{
    lemma_decimal_round_trip(n);
    let h = header(tag, n);
    let d = decimal(n);
    let e = at + 1 + d.len();
    assert(h[0] == tag);
    assert forall|j: int| at + 1 <= j < e implies !crlf_at(s, j) by {
        assert(h[j - at] == d[j - at - 1]);
        assert(s[at + (j - at)] == h[j - at]);
    }
    let dl = d.len() as int;
    assert(h[dl + 1] == 13);
    assert(h[dl + 2] == 10);
    assert(s[at + (dl + 1)] == h[dl + 1]);
    assert(s[at + (dl + 2)] == h[dl + 2]);
    lemma_line_end_is(s, at + 1, e);
    assert(s.subrange(at + 1, e) =~= d) by {
        assert forall|i: int| 0 <= i < d.len() implies s[at + 1 + i] == d[i] by {
            assert(h[i + 1] == d[i]);
            assert(s[at + (i + 1)] == h[i + 1]);
        }
    }
}

/// The line of a text ends where the text ends, and holds the text.
pub proof fn lemma_text_line(s: Seq<u8>, at: int, tag: u8, bytes: Seq<u8>)
    requires
        holds(s, at, seq![tag] + bytes + crlf()),
        no_crlf(bytes),
    ensures
        s[at] == tag,
        line_end(s, at + 1) == Some(at + 1 + bytes.len()),
        s.subrange(at + 1, at + 1 + bytes.len()) == bytes,
{
    let w = seq![tag] + bytes + crlf();
    let e = at + 1 + bytes.len();
    assert(w[0] == tag);
    let bl = bytes.len() as int;
    assert(w[bl + 1] == 13);
    assert(w[bl + 2] == 10);
    assert(s[at + (bl + 1)] == w[bl + 1]);
    assert(s[at + (bl + 2)] == w[bl + 2]);
    assert forall|i: int| 0 <= i < bytes.len() implies s[at + 1 + i] == bytes[i] by {
        assert(w[i + 1] == bytes[i]);
        assert(s[at + (i + 1)] == w[i + 1]);
    }
    assert forall|j: int| at + 1 <= j < e implies !crlf_at(s, j) by {
        if crlf_at(s, j) {
            if j + 1 < e {
                assert(s[at + 1 + (j - at - 1)] == bytes[j - at - 1]);
                assert(s[at + 1 + (j - at)] == bytes[j - at]);
                assert(crlf_at(bytes, j - at - 1));
            }
        }
    }
    lemma_line_end_is(s, at + 1, e);
    assert(s.subrange(at + 1, e) =~= bytes);
}

/// A buffer that holds the frame of a reply holds that reply.
pub proof fn lemma_wire_parses(resp: ResponseView, s: Seq<u8>, at: int)
    requires
        well_formed(resp),
        holds(s, at, wire(resp)),
    ensures
        parse_at(s, at) == Parsed::Frame(resp, at + wire(resp).len()),
    decreases resp,
{
    match resp {
        ResponseView::SimpleString(text) => {
            lemma_text_line(s, at, 43u8, encode_utf8(text));
            encode_utf8_valid_utf8(text);
            encode_utf8_decode_utf8(text);
        },
        ResponseView::Error(text) => {
            lemma_text_line(s, at, 45u8, encode_utf8(text));
            encode_utf8_valid_utf8(text);
            encode_utf8_decode_utf8(text);
        },
        ResponseView::Integer(n) => {
            lemma_header_line(s, at, 58u8, n as int);
        },
        ResponseView::Bulk(None) => {
            lemma_header_line(s, at, 36u8, -1);
        },
        ResponseView::Bulk(Some(bytes)) => {
            let h = header(36u8, bytes.len() as int);
            assert(wire(resp) =~= h + (bytes + crlf()));
            lemma_holds_split(s, at, h, bytes + crlf());
            lemma_header_line(s, at, 36u8, bytes.len() as int);
            let next = at + h.len();
            lemma_holds_split(s, next, bytes, crlf());
            assert(crlf()[0] == 13 && crlf()[1] == 10);
            assert(s[next + bytes.len() + 0] == crlf()[0]);
            assert(s[next + bytes.len() + 1] == crlf()[1]);
            assert(s.subrange(next, next + bytes.len()) =~= bytes);
        },
        ResponseView::Array(items) => {
            let h = header(42u8, items.len() as int);
            lemma_holds_split(s, at, h, wires(items, items.len()));
            lemma_header_line(s, at, 42u8, items.len() as int);
            lemma_wires_parse(items, items.len(), s, at + h.len());
            assert(items.subrange(0, items.len() as int) =~= items);
        },
    }
}

/// A buffer that holds the frames of replies in a row holds those replies.
pub proof fn lemma_wires_parse(items: Seq<ResponseView>, k: nat, s: Seq<u8>, at: int)
    requires
        k <= items.len(),
        forall|i: int| 0 <= i < items.len() ==> well_formed(#[trigger] items[i]),
        holds(s, at, wires(items, k)),
    ensures
        parse_items(s, at, k) == ParsedItems::Items(
            items.subrange(0, k as int),
            at + wires(items, k).len(),
        ),
    decreases items, k,
{
    if k == 0 {
        assert(items.subrange(0, 0) =~= Seq::<ResponseView>::empty());
    } else {
        let before = wires(items, (k - 1) as nat);
        let last = items[k - 1];
        lemma_holds_split(s, at, before, wire(last));
        lemma_wires_parse(items, (k - 1) as nat, s, at);
        lemma_wire_parses(last, s, at + before.len());
        assert(items.subrange(0, k - 1).push(last) =~= items.subrange(0, k as int));
    }
}

/// Every buffer that starts with the frame of a reply starts with that
/// reply, whatever follows.
pub proof fn lemma_wire_round_trip(resp: ResponseView, more: Seq<u8>)
    requires
        well_formed(resp),
    ensures
        parse(wire(resp) + more) == Parsed::Frame(resp, wire(resp).len() as int),
{
    let s = wire(resp) + more;
    assert(holds(s, 0, wire(resp)));
    lemma_wire_parses(resp, s, 0);
}

/// The reply that a peer reads when a request's frame is played back to it:
/// arrays stay arrays, and everything else is the bulk string that was sent.
pub open spec fn reply_shape(req: RequestView) -> ResponseView
    decreases req,
{
    match req {
        RequestView::Array(items) => ResponseView::Array(
            Seq::new(
                items.len(),
                |i: int|
                    if 0 <= i < items.len() {
                        reply_shape(items[i])
                    } else {
                        ResponseView::Bulk(None)
                    },
            ),
        ),
        RequestView::BulkString(bytes) => ResponseView::Bulk(Some(bytes)),
        RequestView::BulkInteger(n) => ResponseView::Bulk(Some(decimal(n as int))),
        RequestView::StaticToken(text) => ResponseView::Bulk(Some(encode_utf8(text))),
        RequestView::Inline(text) => ResponseView::Bulk(Some(encode_utf8(text))),
    }
}

/// The reply that a peer reads from the bytes that are sent for a request.
pub open spec fn command_shape(req: RequestView) -> ResponseView {
    if req is Array {
        reply_shape(req)
    } else {
        ResponseView::Array(seq![reply_shape(req)])
    }
}

/// The requests whose lengths fit the 64 bits in which a length is read.
pub open spec fn sendable(req: RequestView) -> bool
    decreases req,
{
    match req {
        RequestView::Array(items) => {
            &&& items.len() <= i64::MAX
            &&& forall|i: int| 0 <= i < items.len() ==> sendable(#[trigger] items[i])
        },
        RequestView::BulkString(bytes) => bytes.len() <= i64::MAX,
        RequestView::BulkInteger(_) => true,
        RequestView::StaticToken(text) => encode_utf8(text).len() <= i64::MAX,
        RequestView::Inline(text) => encode_utf8(text).len() <= i64::MAX,
    }
}

/// A number has few digits.
pub proof fn lemma_digits_len(n: nat)
    ensures
        super::decimal::digits(n).len() <= 1 + n / 10,
    decreases n,
{
    if n >= 10 {
        lemma_digits_len(n / 10);
    }
}

/// The frame of a request is the frame of its reply shape.
pub proof fn lemma_frame_is_wire(req: RequestView)
    requires
        sendable(req),
    ensures
        frame(req) == wire(reply_shape(req)),
        well_formed(reply_shape(req)),
    decreases req,
{
    match req {
        RequestView::Array(items) => {
            let shapes = reply_shape(req)->Array_0;
            assert forall|i: int| 0 <= i < shapes.len() implies well_formed(
                #[trigger] shapes[i],
            ) by {
                lemma_frame_is_wire(items[i]);
            }
            lemma_frames_are_wires(items, items.len());
        },
        RequestView::BulkInteger(n) => {
            if n < 0 {
                lemma_digits_len((-n) as nat);
            } else {
                lemma_digits_len(n as nat);
            }
        },
        _ => {},
    }
}

/// See [`lemma_frame_is_wire`].
pub proof fn lemma_frames_are_wires(items: Seq<RequestView>, k: nat)
    requires
        k <= items.len(),
        forall|i: int| 0 <= i < items.len() ==> sendable(#[trigger] items[i]),
    ensures
        frames(items, k) == wires(reply_shape(RequestView::Array(items))->Array_0, k),
    decreases items, k,
{
    if k > 0 {
        lemma_frames_are_wires(items, (k - 1) as nat);
        lemma_frame_is_wire(items[k - 1]);
    }
}

/// What is sent can be read back: the bytes that are sent for a request
/// are one frame, and the reply that they hold is the request's own shape.
pub proof fn lemma_round_trip(req: RequestView)
    requires
        sendable(req),
    ensures
        parse(encoding(req)) == Parsed::Frame(command_shape(req), encoding(req).len() as int),
{
    lemma_frame_is_wire(req);
    if req is Array {
        lemma_wire_round_trip(reply_shape(req), Seq::empty());
        assert(wire(reply_shape(req)) + Seq::<u8>::empty() =~= wire(reply_shape(req)));
    } else {
        let items = seq![reply_shape(req)];
        let whole = ResponseView::Array(items);
        assert(wires(items, 1) =~= wire(reply_shape(req))) by {
            assert(wires(items, 0) =~= Seq::<u8>::empty());
        }
        assert(wire(whole) =~= encoding(req));
        lemma_wire_round_trip(whole, Seq::empty());
        assert(wire(whole) + Seq::<u8>::empty() =~= wire(whole));
    }
}

} // verus!
