//! The client for one caller at a time: a request is sent, and its reply is
//! read before anything else happens on the connection.
use crate::client::{is_reply_output, is_sent_for, read_output};
use crate::cmd::Command;
use crate::codec::{Decoder, Encoder};
use crate::codec_redis::decode::fault_text;
use crate::codec_redis::wire::{encoding, parse, Parsed};
use crate::codec_redis::{Codec, Request, Response};
use crate::errors::{CommandError, Error};
use vstd::prelude::*;

verus! {

/// Redis client
pub struct SimpleClient {
    pub codec: Codec,
    closed: bool,
    buffer: Vec<u8>,
}

impl SimpleClient {
    /// Whether the transport has been given up.
    pub closed spec fn closed(&self) -> bool {
        self.closed
    }

    /// The bytes of the reply that is being read.
    pub closed spec fn buffer(&self) -> Seq<u8> {
        self.buffer@
    }

    /// Create new simple client
    pub fn new() -> (client: Self)
        ensures
            !client.closed(),
            client.buffer() == Seq::<u8>::empty(),
    {
        SimpleClient { codec: Codec {  }, closed: false, buffer: Vec::new() }
    }

    /// The first half of executing a command: the bytes to write for it, on
    /// a client that still has its transport.
    pub fn exec<U: Command>(&mut self, cmd: U) -> (r: Result<Vec<u8>, CommandError>)
        ensures
            final(self).closed() == old(self).closed(),
            match r {
                Ok(bytes) => !old(self).closed() && is_sent_for(cmd, bytes@)
                    && final(self).buffer() == Seq::<u8>::empty(),
                Err(err) => old(self).closed() && err == CommandError::Protocol(
                    Error::PeerGone(None),
                ) && final(self).buffer() == old(self).buffer(),
            },
    {
        match self.send() {
            Ok(()) => {},
            Err(err) => {
                return Err(err);
            },
        }
        match self.encode(cmd) {
            Ok(bytes) => Ok(bytes),
            Err(err) => Err(CommandError::Protocol(err)),
        }
    }

    /// The bytes that are sent for a command.
    pub fn encode<U: Command>(&self, cmd: U) -> (r: Result<Vec<u8>, Error>)
        ensures
            r matches Ok(bytes) && is_sent_for(cmd, bytes@),
    {
        let mut buf_in: Vec<u8> = Vec::new();
        let build = U::to_request;
        let req = build(cmd);
        match self.codec.encode(req, &mut buf_in) {
            Ok(()) => {
                assert(buf_in@ =~= encoding(req@));
                Ok(buf_in)
            },
            Err(err) => Err(err),
        }
    }

    /// Appends the bytes that are sent for a request to `buf`.
    pub fn encode_req(&self, req: Request, buf: &mut Vec<u8>) -> (r: Result<(), Error>)
        ensures
            r is Ok,
            final(buf)@ == old(buf)@ + encoding(req@),
    {
        self.codec.encode(req, buf)
    }

    /// Starts an exchange: a client whose transport is gone fails at once,
    /// and otherwise the reply is read from scratch.
    pub fn send(&mut self) -> (r: Result<(), CommandError>)
        ensures
            final(self).closed() == old(self).closed(),
            match r {
                Ok(_) => !old(self).closed() && final(self).buffer() == Seq::<u8>::empty(),
                Err(err) => old(self).closed() && err == CommandError::Protocol(
                    Error::PeerGone(None),
                ) && final(self).buffer() == old(self).buffer(),
            },
    {
        if self.closed {
            return Err(CommandError::Protocol(Error::PeerGone(None)));
        }
        self.buffer.clear();
        Ok(())
    }

    /// Goes on with an exchange: `chunk` has been read. Returns the reply
    /// once the bytes read so far hold all of its frame, `None` as long as
    /// they do not, and the parse error where they cannot be a reply.
    pub fn receive(&mut self, chunk: &[u8]) -> (r: Result<Option<Response>, CommandError>)
        ensures
            final(self).closed() == old(self).closed(),
            match parse(old(self).buffer() + chunk@) {
                Parsed::Frame(resp, end) => {
                    &&& r matches Ok(Some(got))
                    &&& got@ == resp
                    &&& final(self).buffer() == (old(self).buffer() + chunk@).skip(end)
                },
                Parsed::Incomplete => {
                    &&& r matches Ok(None)
                    &&& final(self).buffer() == old(self).buffer() + chunk@
                },
                Parsed::Malformed(fault) => {
                    &&& r matches Err(CommandError::Protocol(Error::Parse(text)))
                    &&& text@ == fault_text(fault)
                    &&& final(self).buffer() == old(self).buffer() + chunk@
                },
            },
    {
        self.buffer.extend_from_slice(chunk);
        assert(self.buffer@ =~= old(self).buffer() + chunk@);
        match self.codec.decode(&mut self.buffer) {
            Ok(item) => Ok(item),
            Err(err) => Err(CommandError::Protocol(err)),
        }
    }

    /// Goes on with an exchange: a read has returned `chunk`. A read that
    /// brought nothing means that the peer has closed the transport, and the
    /// exchange fails with `PeerGone`; anything else is taken as
    /// [`SimpleClient::receive`] takes it.
    pub fn on_read(&mut self, chunk: &[u8]) -> (r: Result<Option<Response>, CommandError>)
        ensures
            final(self).closed() == old(self).closed(),
            chunk@.len() == 0 ==> {
                &&& r == Err::<Option<Response>, CommandError>(
                    CommandError::Protocol(Error::PeerGone(None)),
                )
                &&& final(self).buffer() == old(self).buffer()
            },
            chunk@.len() > 0 ==> match parse(old(self).buffer() + chunk@) {
                Parsed::Frame(resp, end) => {
                    &&& r matches Ok(Some(got))
                    &&& got@ == resp
                    &&& final(self).buffer() == (old(self).buffer() + chunk@).skip(end)
                },
                Parsed::Incomplete => {
                    &&& r matches Ok(None)
                    &&& final(self).buffer() == old(self).buffer() + chunk@
                },
                Parsed::Malformed(fault) => {
                    &&& r matches Err(CommandError::Protocol(Error::Parse(text)))
                    &&& text@ == fault_text(fault)
                    &&& final(self).buffer() == old(self).buffer() + chunk@
                },
            },
    {
        if chunk.len() == 0 {
            return Err(CommandError::Protocol(Error::PeerGone(None)));
        }
        self.receive(chunk)
    }

    /// Reads the command's output from its reply.
    pub fn decode<U: Command>(&self, resp: Response) -> (r: Result<U::Output, CommandError>)
        ensures
            is_reply_output::<U>(resp, r),
    {
        read_output::<U>(resp)
    }

    /// Gives the transport up: every later exchange fails.
    pub fn close(&mut self)
        ensures
            final(self).closed(),
            final(self).buffer() == old(self).buffer(),
    {
        self.closed = true;
    }

    /// Whether the transport has been given up.
    pub fn is_closed(&self) -> (b: bool)
        ensures
            b == self.closed(),
    {
        self.closed
    }
}

} // verus!
