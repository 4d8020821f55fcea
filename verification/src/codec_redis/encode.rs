//! Rendering a request as bytes.
use super::decimal::{push_decimal, push_length};
use super::decode::Codec;
use super::wire::{bulk, crlf, encoding, frame, frames, header, CR, DOLLAR, LF, STAR};
use super::Request;
use crate::codec::Encoder;
use crate::errors::Error;
use vstd::prelude::*;
use vstd::string::*;

verus! {

/// Appends a line terminator.
pub fn push_crlf(dst: &mut Vec<u8>)
    ensures
        final(dst)@ == old(dst)@ + crlf(),
{
    dst.push(CR);
    dst.push(LF);
    assert(final(dst)@ =~= old(dst)@ + crlf());
}

/// Appends the line that holds `tag` and the length `n`.
pub fn push_header(tag: u8, n: usize, dst: &mut Vec<u8>)
    ensures
        final(dst)@ == old(dst)@ + header(tag, n as int),
{
    dst.push(tag);
    push_length(n, dst);
    push_crlf(dst);
    assert(final(dst)@ =~= old(dst)@ + header(tag, n as int));
}

/// Appends `bytes` as a bulk string.
pub fn push_bulk(bytes: &[u8], dst: &mut Vec<u8>)
    ensures
        final(dst)@ == old(dst)@ + bulk(bytes@),
{
    push_header(DOLLAR, bytes.len(), dst);
    let ghost mid = dst@;
    dst.extend_from_slice(bytes);
    assert(dst@ =~= mid + bytes@);
    push_crlf(dst);
    assert(final(dst)@ =~= old(dst)@ + bulk(bytes@));
}

/// Appends the frame of `req` as an element: arrays in full depth, anything
/// else as one bulk string.
pub fn push_frame(req: &Request, dst: &mut Vec<u8>)
    ensures
        final(dst)@ == old(dst)@ + frame(req@),
    decreases *req,
{
    match req {
        Request::Array(items) => {
            push_header(STAR, items.len(), dst);
            let ghost views = req@->Array_0;
            let ghost start = dst@;
            let mut i: usize = 0;
            while i < items.len()
                invariant
                    *req == Request::Array(*items),
                    views == req@->Array_0,
                    views.len() == items@.len(),
                    i <= items.len(),
                    dst@ == start + frames(views, i as nat),
                decreases items.len() - i,
            {
                assert(decreases_to!(*req => req->Array_0));
                assert(decreases_to!(req->Array_0 => req->Array_0[i as int]));
                assert(decreases_to!(*req => items[i as int]));
                let ghost before = dst@;
                push_frame(&items[i], dst);
                i += 1;
                proof {
                    assert(views[i - 1] == items@[i - 1]@);
                    assert(dst@ =~= start + frames(views, i as nat));
                }
            }
            assert(final(dst)@ =~= old(dst)@ + frame(req@));
        },
        Request::BulkString(bytes) => {
            push_bulk(bytes.as_slice(), dst);
        },
        Request::BulkInteger(n) => {
            let mut text: Vec<u8> = Vec::new();
            push_decimal(*n, &mut text);
            assert(text@ =~= super::decimal::decimal(*n as int));
            push_bulk(text.as_slice(), dst);
        },
        Request::StaticToken(text) => {
            push_bulk(text.as_bytes(), dst);
        },
        Request::Inline(text) => {
            push_bulk(text.as_str().as_bytes(), dst);
        },
    }
}

impl Encoder for Codec {
    type EncodeItem = Request;

    type EncodeError = Error;

    /// Appends the bytes that are sent for `item`. Every request can be
    /// sent.
    fn encode(&self, item: Request, dst: &mut Vec<u8>) -> (r: Result<(), Error>)
        ensures
            r is Ok,
            final(dst)@ == old(dst)@ + encoding(item@),
    {
        match &item {
            Request::Array(_) => {},
            _ => {
                push_header(STAR, 1, dst);
            },
        }
        push_frame(&item, dst);
        proof {
            assert(final(dst)@ =~= old(dst)@ + encoding(item@));
            assert(final(dst)@.subrange(0, old(dst)@.len() as int) =~= old(dst)@);
        }
        Ok(())
    }
}

} // verus!
