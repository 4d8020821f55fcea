//! Redis commands: what each one sends, and what it makes of the reply.
#![allow(non_snake_case)]

use crate::codec_redis::{Request, Response};
use crate::errors::CommandError;
use crate::text::{lossy_utf8, text_from_utf8, text_from_utf8_lossy};
use vstd::prelude::*;
use vstd::utf8::*;

pub mod auth;
pub mod connection;
pub mod strings;

pub use self::auth::{Auth, AuthCommand};
pub use self::connection::{Ping, PingCommand, Select, SelectCommand};
pub use self::strings::{Get, GetCommand, SetCommand, SetValue};

verus! {

/// A byte string.
pub type Bytes = Vec<u8>;

/// A byte buffer that grows.
pub type BytesMut = Vec<u8>;

/// A string of text.
pub type ByteString = String;

/// A typed command: it turns into exactly one request, and it knows how to
/// read its own output from a reply that is not an error reply. What a
/// command sends and reads is its own affair: each command states it on its
/// own two functions.
pub trait Command {
    /// Command output type
    type Output;

    /// Convert command to a redis request
    fn to_request(self) -> Request;

    /// Create command response from a redis response
    fn to_output(val: Response) -> Result<Self::Output, CommandError>;
}

/// Whether `text` is the status `OK`.
pub fn is_ok(text: &String) -> (b: bool)
    ensures
        b == (text@ == "OK"@),
{
    let ok: String = "OK".to_owned();
    *text == ok
}

/// The text that `arg` encodes. The caller vouches that the bytes are UTF-8.
pub fn from_byte_uncheck(arg: Vec<u8>) -> (text: String)
    requires
        valid_utf8(arg@),
    ensures
        text@ == decode_utf8(arg@),
{
    match text_from_utf8(arg) {
        Some(text) => text,
        None => String::new(),
    }
}

/// The text that `arg` encodes, with the replacement character in place of
/// whatever is not UTF-8.
pub fn try_from_byte(arg: &[u8]) -> (text: String)
    ensures
        text@ == lossy_utf8(arg@),
        valid_utf8(arg@) ==> text@ == decode_utf8(arg@),
{
    text_from_utf8_lossy(arg)
}

} // verus!
