//! Bytes to text, by the standard library.
use vstd::prelude::*;
use vstd::utf8::*;

verus! {

/// The text that a lossy conversion makes of `bytes`: every run that is not
/// UTF-8 gives way to the replacement character.
pub uninterp spec fn lossy_utf8(bytes: Seq<u8>) -> Seq<char>;

/// `String::from_utf8`, with the error turned into `None`. It accepts
/// exactly the byte sequences that are UTF-8, and the string that it returns
/// holds the text that the bytes encode.
#[verifier::external_body]
pub(crate) fn text_from_utf8(bytes: Vec<u8>) -> (text: Option<String>)
    ensures
        match text {
            Some(t) => valid_utf8(bytes@) && t@ == decode_utf8(bytes@),
            None => !valid_utf8(bytes@),
        },
{
    match String::from_utf8(bytes) {
        Ok(text) => Some(text),
        Err(_) => None,
    }
}

/// `String::from_utf8_lossy`, as an owned string. The result is a function
/// of the bytes alone, and for bytes that are UTF-8 it is the text that they
/// encode.
#[verifier::external_body]
pub(crate) fn text_from_utf8_lossy(bytes: &[u8]) -> (text: String)
    ensures
        text@ == lossy_utf8(bytes@),
        valid_utf8(bytes@) ==> text@ == decode_utf8(bytes@),
{
    String::from_utf8_lossy(bytes).to_string()
}

} // verus!
