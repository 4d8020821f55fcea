//! Encoding and decoding of frames on growable byte buffers.
use std::rc::Rc;
use vstd::prelude::*;

verus! {

/// Writes messages out as bytes.
pub trait Encoder {
    /// The type of the messages that are encoded.
    type EncodeItem;

    /// The type of encoding errors.
    type EncodeError: std::fmt::Debug;

    /// Appends the frame of `item` to `dst`. Whatever `dst` held stays in
    /// front, and a failed call appends nothing.
    fn encode(&self, item: Self::EncodeItem, dst: &mut Vec<u8>) -> (r: Result<
        (),
        Self::EncodeError,
    >)
        ensures
            old(dst)@.len() <= final(dst)@.len(),
            final(dst)@.subrange(0, old(dst)@.len() as int) == old(dst)@,
            r is Err ==> final(dst)@ == old(dst)@,
    ;

    /// Encodes a frame into the buffer provided: as [`Encoder::encode`] does,
    /// with the same result and the same bytes appended.
    fn encode_vec(&self, item: Self::EncodeItem, dst: &mut Vec<u8>) -> (r: Result<
        (),
        Self::EncodeError,
    >)
        ensures
            exists|inner_dst: &mut Vec<u8>|
                {
                    &&& *inner_dst == *old(dst)
                    &&& *final(inner_dst) == *final(dst)
                    &&& #[trigger] call_ensures(Self::encode, (self, item, inner_dst), r)
                },
    {
        let encode = Self::encode;
        encode(self, item, dst)
    }
}

/// Reads frames from a buffer that grows as bytes arrive.
pub trait Decoder {
    /// The type of decoded frames.
    type DecodeItem;

    /// The type of unrecoverable decoding errors.
    type DecodeError: std::fmt::Debug;

    /// Tries to take one frame from the front of `src`. A frame that is
    /// returned has been removed from the buffer, together with nothing else;
    /// without one the buffer is left as it was, for the next bytes to be
    /// appended.
    fn decode(&self, src: &mut Vec<u8>) -> (r: Result<Option<Self::DecodeItem>, Self::DecodeError>)
        ensures
            final(src)@.len() <= old(src)@.len(),
            final(src)@ == old(src)@.skip(old(src)@.len() - final(src)@.len()),
            r matches Ok(Some(_)) ==> final(src)@.len() < old(src)@.len(),
            !(r matches Ok(Some(_))) ==> final(src)@ == old(src)@,
    ;

    /// Attempts to decode a frame from the provided buffer of bytes: as
    /// [`Decoder::decode`] does, with the same result and the same bytes
    /// taken.
    fn decode_vec(&self, src: &mut Vec<u8>) -> (r: Result<
        Option<Self::DecodeItem>,
        Self::DecodeError,
    >)
        ensures
            exists|inner_src: &mut Vec<u8>|
                {
                    &&& *inner_src == *old(src)
                    &&& *final(inner_src) == *final(src)
                    &&& #[trigger] call_ensures(Self::decode, (self, inner_src), r)
                },
    {
        let decode = Self::decode;
        decode(self, src)
    }
}

/// Both directions at once.
pub trait EncoderDecoder: Encoder + Decoder {

}

impl<T> EncoderDecoder for T where T: Encoder + Decoder {

}

impl<T> Encoder for Rc<T> where T: Encoder {
    type EncodeItem = T::EncodeItem;

    type EncodeError = T::EncodeError;

    /// Encodes as the shared encoder does: the result and what `dst`
    /// becomes are those of the encoder behind the pointer.
    fn encode(&self, item: Self::EncodeItem, dst: &mut Vec<u8>) -> (r: Result<
        (),
        Self::EncodeError,
    >)
        ensures
            exists|inner_dst: &mut Vec<u8>|
                {
                    &&& *inner_dst == *old(dst)
                    &&& *final(inner_dst) == *final(dst)
                    &&& #[trigger] call_ensures(T::encode, (&**self, item, inner_dst), r)
                },
    {
        let inner = T::encode;
        inner(&**self, item, dst)
    }
}

impl<T> Decoder for Rc<T> where T: Decoder {
    type DecodeItem = T::DecodeItem;

    type DecodeError = T::DecodeError;

    /// Decodes as the shared decoder does: the result and what `src`
    /// becomes are those of the decoder behind the pointer.
    fn decode(&self, src: &mut Vec<u8>) -> (r: Result<
        Option<Self::DecodeItem>,
        Self::DecodeError,
    >)
        ensures
            exists|inner_src: &mut Vec<u8>|
                {
                    &&& *inner_src == *old(src)
                    &&& *final(inner_src) == *final(src)
                    &&& #[trigger] call_ensures(T::decode, (&**self, inner_src), r)
                },
    {
        let inner = T::decode;
        inner(&**self, src)
    }
}

/// The codec of raw bytes: a message is a chunk of bytes, and a frame is
/// whatever has arrived.
#[derive(Debug, Copy, Clone)]
pub struct BytesCodec;

impl Encoder for BytesCodec {
    type EncodeItem = Vec<u8>;

    type EncodeError = std::io::Error;

    #[inline]
    fn encode(&self, item: Vec<u8>, dst: &mut Vec<u8>) -> (r: Result<(), Self::EncodeError>)
        ensures
            r is Ok,
            final(dst)@ == old(dst)@ + item@,
    {
        dst.extend_from_slice(item.as_slice());
        assert(final(dst)@ =~= old(dst)@ + item@);
        Ok(())
    }
}

impl Decoder for BytesCodec {
    type DecodeItem = Vec<u8>;

    type DecodeError = std::io::Error;

    fn decode(&self, src: &mut Vec<u8>) -> (r: Result<Option<Vec<u8>>, Self::DecodeError>)
        ensures
            old(src)@.len() == 0 ==> r matches Ok(None),
            old(src)@.len() > 0 ==> (r matches Ok(Some(frame)) && frame@ == old(src)@),
            final(src)@.len() == 0,
    {
        if src.is_empty() {
            Ok(None)
        } else {
            let frame = src.split_off(0);
            assert(frame@ =~= old(src)@);
            assert(final(src)@ =~= old(src)@.skip(old(src)@.len() - final(src)@.len()));
            Ok(Some(frame))
        }
    }
}

} // verus!
