//! The connection multiplexer: one connection, many callers, and every
//! reply handed to the caller whose request it answers.
//!
//! The multiplexer owns the queue of waiters and the buffer of bytes that
//! have arrived. It does no I/O itself: the writer side hands it a request
//! and gets the bytes to write, the reader side hands it what was read and
//! gets the waiters to resolve.
use crate::cmd::Command;
use crate::codec::{Decoder, Encoder};
use crate::codec_redis::decode::fault_text;
use crate::codec_redis::wire::{encoding, parse, Parsed};
use crate::codec_redis::{Codec, Request, RequestView, Response, ResponseView};
use crate::errors::{CommandError, Error, ErrorView};
use std::collections::VecDeque;
use vstd::prelude::*;

pub mod laws;

verus! {

/// The life of a connection. Only an open connection takes requests, and a
/// connection that has left `Open` never returns to it.
#[derive(Debug, Clone, Copy, PartialEq, Eq, Structural)]
pub enum ConnState {
    /// Requests are taken and replies are dispatched.
    Open,
    /// The stream can no longer be trusted; every waiter has been failed
    /// and the transport is about to be shut down.
    Closing,
    /// The transport is gone.
    Closed,
}

/// The outcome of one request, as the reader hands it to the waiter.
pub type CommandResult = Result<Response, Error>;

/// One waiter to resolve, and what to resolve it with.
pub struct Delivery<W> {
    pub waiter: W,
    pub outcome: Result<Response, Error>,
}

/// The model of a [`Delivery`].
pub struct DeliveryView<W> {
    pub waiter: W,
    pub outcome: Result<ResponseView, ErrorView>,
}

impl<W> View for Delivery<W> {
    type V = DeliveryView<W>;

    open spec fn view(&self) -> DeliveryView<W> {
        DeliveryView {
            waiter: self.waiter,
            outcome: match self.outcome {
                Ok(resp) => Ok(resp@),
                Err(err) => Err(err@),
            },
        }
    }
}

/// The models of a run of deliveries.
pub open spec fn delivered<W>(run: Seq<Delivery<W>>) -> Seq<DeliveryView<W>> {
    Seq::new(run.len(), |i: int| run[i]@)
}

/// The model of a multiplexer.
pub struct ClientView<W> {
    pub state: ConnState,
    /// The waiters, oldest first: in the order in which their requests were
    /// handed out to be written.
    pub pending: Seq<W>,
    /// The bytes that have arrived and belong to no reply yet.
    pub buffer: Seq<u8>,
}

impl<W> ClientView<W> {
    /// What holds of every multiplexer between two calls: only an open
    /// connection has waiters, and an open connection's buffer holds no
    /// complete frame and no malformed one.
    pub open spec fn wf(self) -> bool {
        &&& !(self.state is Open) ==> self.pending.len() == 0
        &&& self.state is Open ==> parse(self.buffer) is Incomplete
    }
}

/// Every one of `pending` failed: the oldest with `err`, the others with
/// copies of it.
pub open spec fn fail_all<W>(pending: Seq<W>, err: ErrorView) -> Seq<DeliveryView<W>> {
    Seq::new(
        pending.len(),
        |i: int|
            DeliveryView { waiter: pending[i], outcome: Err(if i == 0 { err } else { err.copied() }) },
    )
}

/// What the reader does with a buffer: as long as the buffer starts with a
/// complete frame, the oldest waiter gets its reply. A malformed frame fails
/// every waiter that is left, and so ends the connection's life; so does a
/// frame that nobody waits for. (A frame that ends outside the buffer does
/// not occur; the case is there for the recursion to be well founded.)
pub open spec fn dispatch<W>(pending: Seq<W>, buffer: Seq<u8>) -> (Seq<DeliveryView<W>>, ClientView<W>)
    decreases buffer.len(),
{
    match parse(buffer) {
        Parsed::Incomplete => (Seq::empty(), ClientView { state: ConnState::Open, pending, buffer }),
        Parsed::Malformed(fault) => (
            fail_all(pending, ErrorView::Parse(fault_text(fault))),
            ClientView { state: ConnState::Closing, pending: Seq::empty(), buffer },
        ),
        Parsed::Frame(resp, end) => {
            if end <= 0 || end > buffer.len() {
                (Seq::empty(), ClientView { state: ConnState::Closing, pending: Seq::empty(), buffer })
            } else if pending.len() == 0 {
                (
                    Seq::empty(),
                    ClientView {
                        state: ConnState::Closing,
                        pending: Seq::empty(),
                        buffer: buffer.skip(end),
                    },
                )
            } else {
                let (rest, after) = dispatch(pending.skip(1), buffer.skip(end));
                (seq![DeliveryView { waiter: pending[0], outcome: Ok(resp) }] + rest, after)
            }
        },
    }
}

/// How a call ended for its caller.
pub enum CallOutcome {
    /// The reader resolved the waiter, with a reply or with the failure of
    /// the connection.
    Delivered(CommandResult),
    /// The call ended without the reader: the waiter was abandoned before it
    /// was resolved.
    Undelivered(Result<Response, Error>),
}

impl CallOutcome {
    /// The reply or the failure that the call ended with, whichever way it
    /// came.
    pub open spec fn reply(self) -> Result<Response, Error> {
        match self {
            CallOutcome::Delivered(v) => v,
            CallOutcome::Undelivered(v) => v,
        }
    }
}

/// Whether `r` is what a command makes of the reply `resp`: an error reply
/// is the server's error, whatever output the command expects, and any other
/// reply is read by the command's own `to_output`.
pub open spec fn is_reply_output<T: Command>(
    resp: Response,
    r: Result<T::Output, CommandError>,
) -> bool {
    match resp.as_result() {
        Err(text) => r == Err::<T::Output, CommandError>(CommandError::Error(text)),
        Ok(val) => call_ensures(T::to_output, (val,), r),
    }
}

/// Whether `r` is what the caller of a command gets for the way its call
/// ended: the failure of the connection, or what the command makes of the
/// reply.
pub open spec fn is_exec_result<T: Command>(
    outcome: CallOutcome,
    r: Result<T::Output, CommandError>,
) -> bool {
    match outcome.reply() {
        Err(err) => r == Err::<T::Output, CommandError>(CommandError::Protocol(err)),
        Ok(resp) => is_reply_output::<T>(resp, r),
    }
}

/// Whether `bytes` are what is sent for the command `cmd`: the encoding of
/// the request that the command's own `to_request` makes of it.
pub open spec fn is_sent_for<T: Command>(cmd: T, bytes: Seq<u8>) -> bool {
    exists|req: Request| #[trigger] call_ensures(T::to_request, (cmd,), req) && bytes == encoding(req@)
}

/// The way a call ended, from what the caller's wait returned: the outcome
/// that the reader delivered, or the text of the failure to receive one.
pub fn call_outcome(received: Result<CommandResult, String>) -> (outcome: CallOutcome)
    ensures
        outcome == match received {
            Ok(v) => CallOutcome::Delivered(v),
            Err(text) => CallOutcome::Undelivered(Err(Error::Recv(text))),
        },
{
    match received {
        Ok(v) => CallOutcome::Delivered(v),
        Err(text) => CallOutcome::Undelivered(Err(Error::Recv(text))),
    }
}

/// Reads the command's output from a reply.
pub fn read_output<T: Command>(resp: Response) -> (r: Result<T::Output, CommandError>)
    ensures
        is_reply_output::<T>(resp, r),
{
    match resp.into_result() {
        Err(text) => Err(CommandError::Error(text)),
        Ok(val) => {
            let read = T::to_output;
            read(val)
        },
    }
}

/// The second half of executing a command: what the caller gets once its
/// wait is over.
pub fn finish_exec<T: Command>(outcome: CallOutcome) -> (r: Result<T::Output, CommandError>)
    ensures
        is_exec_result::<T>(outcome, r),
{
    let reply = match outcome {
        CallOutcome::Delivered(v) => v,
        CallOutcome::Undelivered(v) => v,
    };
    match reply {
        Err(err) => Err(CommandError::Protocol(err)),
        Ok(resp) => read_output::<T>(resp),
    }
}

/// The second half of flushing the database: any reply is success, and a
/// failure of the connection is handed on.
pub fn finish_flushdb(outcome: CallOutcome) -> (r: Result<(), Error>)
    ensures
        r == match outcome.reply() {
            Ok(_) => Ok::<(), Error>(()),
            Err(err) => Err(err),
        },
{
    let reply = match outcome {
        CallOutcome::Delivered(v) => v,
        CallOutcome::Undelivered(v) => v,
    };
    match reply {
        Ok(_) => Ok(()),
        Err(err) => Err(err),
    }
}

/// The multiplexer of one connection. `W` is whatever the caller waits on.
pub struct Client<W> {
    state: ConnState,
    pending: VecDeque<W>,
    buffer: Vec<u8>,
    codec: Codec,
}

impl<W> View for Client<W> {
    type V = ClientView<W>;

    closed spec fn view(&self) -> ClientView<W> {
        ClientView { state: self.state, pending: self.pending@, buffer: self.buffer@ }
    }
}

impl<W> Client<W> {
    #[verifier::type_invariant]
    spec fn inv(self) -> bool {
        self@.wf()
    }

    /// The multiplexer of a connection that has just been established.
    pub fn new() -> (client: Self)
        ensures
            client@ == (ClientView::<W> {
                state: ConnState::Open,
                pending: Seq::empty(),
                buffer: Seq::empty(),
            }),
            client@.wf(),
    {
        Client { state: ConnState::Open, pending: VecDeque::new(), buffer: Vec::new(), codec: Codec {  } }
    }

    /// Returns true if underlying transport is connected to redis
    pub fn is_connected(&self) -> (b: bool)
        ensures
            b == (self@.state is Open),
            self@.wf(),
    {
        proof {
            use_type_invariant(self);
        }
        match self.state {
            ConnState::Open => true,
            _ => false,
        }
    }

    /// The state of the connection.
    pub fn state(&self) -> (s: ConnState)
        ensures
            s == self@.state,
    {
        self.state
    }

    /// The number of requests that wait for their reply.
    pub fn pending(&self) -> (n: usize)
        ensures
            n == self@.pending.len(),
    {
        self.pending.len()
    }

    /// Takes a request for transmission: its bytes are returned, to be
    /// written to the transport before any other call is made, and `waiter`
    /// joins the queue behind every waiter that is already there. A
    /// connection that is not open takes nothing and hands the waiter back.
    pub fn call(&mut self, req: Request, waiter: W) -> (r: Result<Vec<u8>, (W, Error)>)
        ensures
            final(self)@.wf(),
            old(self)@.state is Open ==> {
                &&& r matches Ok(bytes)
                &&& bytes@ == encoding(req@)
                &&& final(self)@ == (ClientView {
                    pending: old(self)@.pending.push(waiter),
                    ..old(self)@
                })
            },
            !(old(self)@.state is Open) ==> {
                &&& r matches Err(back)
                &&& back.0 == waiter
                &&& back.1 == Error::PeerGone(None)
                &&& final(self)@ == old(self)@
            },
    {
        proof {
            use_type_invariant(&*self);
        }
        match self.state {
            ConnState::Open => {},
            _ => {
                return Err((waiter, Error::PeerGone(None)));
            },
        }
        let mut bytes: Vec<u8> = Vec::new();
        match self.codec.encode(req, &mut bytes) {
            Ok(()) => {},
            Err(err) => {
                return Err((waiter, err));
            },
        }
        let mut pending: VecDeque<W> = VecDeque::new();
        std::mem::swap(&mut pending, &mut self.pending);
        pending.push_back(waiter);
        self.pending = pending;
        proof {
            assert(bytes@ =~= encoding(req@));
        }
        Ok(bytes)
    }

    /// The first half of executing a command: rejects the command at once
    /// where the connection is not open, and otherwise takes its request as
    /// [`Client::call`] does.
    pub fn exec<T: Command>(&mut self, cmd: T, waiter: W) -> (r: Result<Vec<u8>, (W, CommandError)>)
        ensures
            final(self)@.wf(),
            old(self)@.state is Open ==> {
                &&& r matches Ok(bytes)
                &&& is_sent_for(cmd, bytes@)
                &&& final(self)@ == (ClientView {
                    pending: old(self)@.pending.push(waiter),
                    ..old(self)@
                })
            },
            !(old(self)@.state is Open) ==> {
                &&& r matches Err(back)
                &&& back.0 == waiter
                &&& back.1 == CommandError::Protocol(Error::PeerGone(None))
                &&& final(self)@ == old(self)@
            },
    {
        if !self.is_connected() {
            return Err((waiter, CommandError::Protocol(Error::PeerGone(None))));
        }
        let build = T::to_request;
        let req = build(cmd);
        match self.call(req, waiter) {
            Ok(bytes) => Ok(bytes),
            Err((waiter, err)) => Err((waiter, CommandError::Protocol(err))),
        }
    }

    /// Delete all the keys of the currently selected DB: takes the raw
    /// single-token request for it, as [`Client::call`] does.
    pub fn flushdb(&mut self, waiter: W) -> (r: Result<Vec<u8>, (W, Error)>)
        ensures
            final(self)@.wf(),
            old(self)@.state is Open ==> {
                &&& r matches Ok(bytes)
                &&& bytes@ == encoding(RequestView::Inline("FLUSHDB"@))
                &&& final(self)@ == (ClientView {
                    pending: old(self)@.pending.push(waiter),
                    ..old(self)@
                })
            },
            !(old(self)@.state is Open) ==> {
                &&& r matches Err(back)
                &&& back.0 == waiter
                &&& back.1 == Error::PeerGone(None)
                &&& final(self)@ == old(self)@
            },
    {
        self.call(Request::inline("FLUSHDB"), waiter)
    }

    /// Fails every waiter of `pending`, oldest first.
    fn fail_into(pending: &mut VecDeque<W>, err: Error, out: &mut Vec<Delivery<W>>)
        ensures
            final(pending)@.len() == 0,
            delivered(final(out)@) == delivered(old(out)@) + fail_all(old(pending)@, err@),
    {
        let copy = err.clone();
        let ghost before = delivered(out@);
        let ghost all = pending@;
        match pending.pop_front() {
            None => {
                assert(delivered(out@) =~= before + fail_all(all, err@));
                return ;
            },
            Some(waiter) => {
                out.push(Delivery { waiter, outcome: Err(err) });
            },
        }
        let ghost mut i: int = 1;
        proof {
            assert(pending@ =~= all.skip(1));
            assert(delivered(out@) =~= before + fail_all(all, err@).subrange(0, 1));
        }
        while pending.len() > 0
            invariant
                1 <= i <= all.len(),
                pending@ == all.skip(i),
                copy@ == err@.copied(),
                delivered(out@) == before + fail_all(all, err@).subrange(0, i),
            decreases pending.len(),
        {
            let ghost so_far = delivered(out@);
            match pending.pop_front() {
                None => {},
                Some(waiter) => {
                    let again = copy.clone();
                    let ghost d = DeliveryView::<W> { waiter, outcome: Err(again@) };
                    out.push(Delivery { waiter, outcome: Err(again) });
                    proof {
                        assert(waiter == all[i]);
                        assert(again@ == err@.copied());
                        assert(d == fail_all(all, err@)[i]);
                        assert(delivered(out@) =~= so_far.push(d));
                        assert(fail_all(all, err@).subrange(0, i + 1) =~= fail_all(
                            all,
                            err@,
                        ).subrange(0, i).push(d));
                        i = i + 1;
                        assert(pending@ =~= all.skip(i));
                        assert(delivered(out@) =~= before + fail_all(all, err@).subrange(0, i));
                    }
                },
            }
        }
        proof {
            assert(fail_all(all, err@).subrange(0, i) =~= fail_all(all, err@));
        }
    }

    /// The reader's step: `data` has arrived. Returns the waiters that it
    /// resolves, oldest first, each with its outcome.
    ///
    /// While the buffer starts with a complete frame, the oldest waiter is
    /// resolved with that reply. On a malformed frame the oldest waiter and
    /// all that follow are failed with the parse error and the connection
    /// starts closing; a reply that nobody waits for ends it as well. On a
    /// connection that is no longer open the bytes are dropped.
    pub fn on_bytes(&mut self, data: &[u8]) -> (deliveries: Vec<Delivery<W>>)
        ensures
            final(self)@.wf(),
            old(self)@.state is Open ==> (delivered(deliveries@), final(self)@) == dispatch(
                old(self)@.pending,
                old(self)@.buffer + data@,
            ),
            !(old(self)@.state is Open) ==> deliveries@.len() == 0 && final(self)@ == old(self)@,
    {
        let mut out: Vec<Delivery<W>> = Vec::new();
        proof {
            use_type_invariant(&*self);
        }
        match self.state {
            ConnState::Open => {},
            _ => {
                return out;
            },
        }
        let mut buffer: Vec<u8> = Vec::new();
        let mut pending: VecDeque<W> = VecDeque::new();
        std::mem::swap(&mut buffer, &mut self.buffer);
        std::mem::swap(&mut pending, &mut self.pending);
        let ghost before = buffer@;
        buffer.extend_from_slice(data);
        let ghost pending0 = pending@;
        let ghost buffer0 = buffer@;
        proof {
            assert(buffer0 =~= before + data@);
            assert(delivered(out@) =~= Seq::<DeliveryView<W>>::empty());
            assert(delivered(out@) + dispatch(pending0, buffer0).0 =~= dispatch(pending0, buffer0).0);
        }
        let mut state = ConnState::Open;
        let mut more: bool = true;
        while more
            invariant
                more ==> state is Open,
                more ==> dispatch(pending0, buffer0) == (
                    delivered(out@) + dispatch(pending@, buffer@).0,
                    dispatch(pending@, buffer@).1,
                ),
                !more ==> dispatch(pending0, buffer0) == (
                    delivered(out@),
                    ClientView { state, pending: pending@, buffer: buffer@ },
                ),
                !more ==> (ClientView { state, pending: pending@, buffer: buffer@ }).wf(),
            decreases buffer.len() + (if more { 1int } else { 0int }),
        {
            let ghost cur_pending = pending@;
            let ghost cur_buffer = buffer@;
            let ghost so_far = delivered(out@);
            match self.codec.decode(&mut buffer) {
                Ok(None) => {
                    more = false;
                    proof {
                        assert(so_far + Seq::<DeliveryView<W>>::empty() =~= so_far);
                    }
                },
                Ok(Some(resp)) => {
                    match pending.pop_front() {
                        Some(waiter) => {
                            let ghost d = DeliveryView::<W> { waiter, outcome: Ok(resp@) };
                            out.push(Delivery { waiter, outcome: Ok(resp) });
                            proof {
                                assert(pending@ =~= cur_pending.skip(1));
                                let rest = dispatch(pending@, buffer@).0;
                                assert(delivered(out@) =~= so_far.push(d));
                                assert(so_far.push(d) + rest =~= so_far + (seq![d] + rest));
                            }
                        },
                        None => {
                            state = ConnState::Closing;
                            more = false;
                            proof {
                                assert(so_far + Seq::<DeliveryView<W>>::empty() =~= so_far);
                                assert(pending@ =~= Seq::<W>::empty());
                            }
                        },
                    }
                },
                Err(err) => {
                    Self::fail_into(&mut pending, err, &mut out);
                    state = ConnState::Closing;
                    more = false;
                    proof {
                        assert(pending@ =~= Seq::<W>::empty());
                    }
                },
            }
        }
        self.state = state;
        self.buffer = buffer;
        self.pending = pending;
        out
    }

    /// The reader's last step: the transport has ended, with `cause` where
    /// one is known. Every waiter is failed with `PeerGone`, the oldest with
    /// the cause, and the connection is closed.
    pub fn on_disconnect(&mut self, cause: Option<std::io::Error>) -> (deliveries: Vec<Delivery<W>>)
        ensures
            final(self)@.wf(),
            delivered(deliveries@) == fail_all(old(self)@.pending, ErrorView::PeerGone(cause)),
            final(self)@ == (ClientView::<W> {
                state: ConnState::Closed,
                pending: Seq::<W>::empty(),
                buffer: old(self)@.buffer,
            }),
    {
        let mut out: Vec<Delivery<W>> = Vec::new();
        proof {
            use_type_invariant(&*self);
            assert(delivered(out@) =~= Seq::<DeliveryView<W>>::empty());
        }
        let mut pending: VecDeque<W> = VecDeque::new();
        std::mem::swap(&mut pending, &mut self.pending);
        self.state = ConnState::Closed;
        let ghost all = pending@;
        Self::fail_into(&mut pending, Error::PeerGone(cause), &mut out);
        proof {
            assert(delivered(out@) =~= fail_all(all, ErrorView::PeerGone(cause)));
            assert(self.pending@ =~= Seq::<W>::empty());
        }
        out
    }

    /// Closes the connection from this side: as [`Client::on_disconnect`]
    /// without a cause.
    pub fn close(&mut self) -> (deliveries: Vec<Delivery<W>>)
        ensures
            final(self)@.wf(),
            delivered(deliveries@) == fail_all(old(self)@.pending, ErrorView::PeerGone(None)),
            final(self)@ == (ClientView::<W> {
                state: ConnState::Closed,
                pending: Seq::<W>::empty(),
                buffer: old(self)@.buffer,
            }),
    {
        self.on_disconnect(None)
    }
}

} // verus!
