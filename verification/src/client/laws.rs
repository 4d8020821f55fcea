//! What holds of the multiplexer: replies reach the waiters in the order in
//! which the requests were sent, a malformed frame fails every waiter that
//! is left, and so does the end of the transport.
use super::{dispatch, fail_all, ClientView, ConnState, DeliveryView};
use crate::codec_redis::decode::fault_text;
use crate::codec_redis::laws::{
    lemma_frame_before_more, lemma_frame_bounds, lemma_wire_round_trip, well_formed,
};
use crate::codec_redis::wire::{parse, wire, Parsed};
use crate::codec_redis::ResponseView;
use crate::errors::ErrorView;
use vstd::prelude::*;

verus! {

/// The bytes of a run of replies, as the server sends them: one frame after
/// the other.
pub open spec fn stream_of(replies: Seq<ResponseView>) -> Seq<u8>
    decreases replies.len(),
{
    if replies.len() == 0 {
        Seq::empty()
    } else {
        wire(replies[0]) + stream_of(replies.skip(1))
    }
}

/// The deliveries that answer the oldest waiters with `replies`, in order.
pub open spec fn answered<W>(pending: Seq<W>, replies: Seq<ResponseView>) -> Seq<DeliveryView<W>> {
    Seq::new(replies.len(), |i: int| DeliveryView { waiter: pending[i], outcome: Ok(replies[i]) })
}

/// Whatever arrives, the waiters are resolved in the order of the queue,
/// which is the order in which their requests were sent: the first
/// delivery goes to the oldest waiter, the next to the one behind it, and so
/// on. A connection that stays open keeps exactly the waiters that were not
/// reached, and its buffer holds no complete frame; one that does not stay
/// open keeps none.
pub proof fn lemma_dispatch_order<W>(pending: Seq<W>, buffer: Seq<u8>)
    ensures
        ({
            let (deliveries, after) = dispatch(pending, buffer);
            &&& deliveries.len() <= pending.len()
            &&& forall|i: int|
                0 <= i < deliveries.len() ==> (#[trigger] deliveries[i]).waiter == pending[i]
            &&& after.wf()
            &&& after.state is Open ==> after.pending == pending.skip(deliveries.len() as int)
            &&& !(after.state is Closed)
        }),
    decreases buffer.len(),
{
    match parse(buffer) {
        Parsed::Frame(resp, end) => {
            if 0 < end <= buffer.len() && pending.len() > 0 {
                lemma_dispatch_order(pending.skip(1), buffer.skip(end));
                let (rest, after) = dispatch(pending.skip(1), buffer.skip(end));
                let (deliveries, _) = dispatch(pending, buffer);
                assert forall|i: int| 0 <= i < deliveries.len() implies (
                #[trigger] deliveries[i]).waiter == pending[i] by {
                    if i > 0 {
                        assert(deliveries[i] == rest[i - 1]);
                    }
                }
                if after.state is Open {
                    assert(pending.skip(1).skip(rest.len() as int) =~= pending.skip(
                        deliveries.len() as int,
                    ));
                }
            }
        },
        _ => {},
    }
}

/// A stream of replies, followed by bytes that are no complete frame, is
/// dispatched reply by reply to the oldest waiters; the waiters behind them
/// get what the bytes that follow bring.
pub proof fn lemma_dispatch_stream<W>(pending: Seq<W>, replies: Seq<ResponseView>, tail: Seq<u8>)
    requires
        replies.len() <= pending.len(),
        forall|i: int| 0 <= i < replies.len() ==> well_formed(#[trigger] replies[i]),
        !(parse(tail) is Frame),
    ensures
        dispatch(pending, stream_of(replies) + tail) == (
            answered(pending, replies) + dispatch(pending.skip(replies.len() as int), tail).0,
            dispatch(pending.skip(replies.len() as int), tail).1,
        ),
    decreases replies.len(),
{
    let n = replies.len() as int;
    let buffer = stream_of(replies) + tail;
    if n == 0 {
        assert(buffer =~= tail);
        assert(pending.skip(0) =~= pending);
        assert(answered(pending, replies) + dispatch(pending, tail).0 =~= dispatch(
            pending,
            tail,
        ).0);
    } else {
        let first = replies[0];
        let later = replies.skip(1);
        let more = stream_of(later) + tail;
        assert(buffer =~= wire(first) + more);
        lemma_wire_round_trip(first, more);
        lemma_frame_bounds(buffer, 0);
        let end = wire(first).len() as int;
        assert(buffer.skip(end) =~= more);
        lemma_dispatch_stream(pending.skip(1), later, tail);
        assert(pending.skip(1).skip(later.len() as int) =~= pending.skip(n));
        let rest = dispatch(pending.skip(n), tail).0;
        assert(seq![DeliveryView { waiter: pending[0], outcome: Ok(first) }] + (answered(
            pending.skip(1),
            later,
        ) + rest) =~= answered(pending, replies) + rest);
    }
}

/// Replies that arrive in one burst resolve the waiters in send order: the
/// oldest waiter gets the first reply, the next one the second, and so on.
/// The waiters behind them stay in the queue, in their order, and the
/// connection stays open.
pub proof fn lemma_burst_in_order<W>(pending: Seq<W>, replies: Seq<ResponseView>)
    requires
        replies.len() <= pending.len(),
        forall|i: int| 0 <= i < replies.len() ==> well_formed(#[trigger] replies[i]),
    ensures
        dispatch(pending, stream_of(replies)) == (
            answered(pending, replies),
            ClientView {
                state: ConnState::Open,
                pending: pending.skip(replies.len() as int),
                buffer: Seq::<u8>::empty(),
            },
        ),
{
    let tail = Seq::<u8>::empty();
    lemma_dispatch_stream(pending, replies, tail);
    assert(stream_of(replies) + tail =~= stream_of(replies));
    assert(answered(pending, replies) + Seq::<DeliveryView<W>>::empty() =~= answered(
        pending,
        replies,
    ));
}

/// Every one of `pending` failed with the parse error of `fault`.
pub open spec fn poisoned<W>(pending: Seq<W>, fault: crate::codec_redis::wire::Fault) -> Seq<
    DeliveryView<W>,
> {
    Seq::new(
        pending.len(),
        |i: int|
            DeliveryView { waiter: pending[i], outcome: Err(ErrorView::Parse(fault_text(fault))) },
    )
}

/// A malformed frame poisons the connection: the waiters whose replies
/// came before it get those replies, the waiter whose reply it should have
/// been and every waiter behind it get the parse error, and the connection
/// is no longer open.
pub proof fn lemma_poison<W>(pending: Seq<W>, replies: Seq<ResponseView>, bad: Seq<u8>)
    requires
        replies.len() <= pending.len(),
        forall|i: int| 0 <= i < replies.len() ==> well_formed(#[trigger] replies[i]),
        parse(bad) is Malformed,
    ensures
        dispatch(pending, stream_of(replies) + bad) == (
            answered(pending, replies) + poisoned(
                pending.skip(replies.len() as int),
                parse(bad)->Malformed_0,
            ),
            ClientView {
                state: ConnState::Closing,
                pending: Seq::<W>::empty(),
                buffer: bad,
            },
        ),
{
    lemma_dispatch_stream(pending, replies, bad);
    let left = pending.skip(replies.len() as int);
    let fault = parse(bad)->Malformed_0;
    assert(fail_all(left, ErrorView::Parse(fault_text(fault))) =~= poisoned(left, fault));
}

/// The end of the transport reaches every waiter: each one is failed with
/// `PeerGone`, in the order of the queue, and none is left waiting.
pub proof fn lemma_disconnect_fails_everyone<W>(
    pending: Seq<W>,
    cause: Option<std::io::Error>,
)
    ensures
        fail_all(pending, ErrorView::PeerGone(cause)).len() == pending.len(),
        forall|i: int|
            0 <= i < pending.len() ==> {
                let d = #[trigger] fail_all(pending, ErrorView::PeerGone(cause))[i];
                &&& d.waiter == pending[i]
                &&& d.outcome matches Err(ErrorView::PeerGone(_))
            },
{
}

/// Bytes may arrive in any portions: what two reads dispatch, one after the
/// other, is what a single read of all the bytes dispatches, as long as the
/// connection is open after the first.
pub proof fn lemma_dispatch_in_portions<W>(pending: Seq<W>, buffer: Seq<u8>, more: Seq<u8>)
    requires
        dispatch(pending, buffer).1.state is Open,
    ensures
        ({
            let (first, between) = dispatch(pending, buffer);
            let (second, after) = dispatch(between.pending, between.buffer + more);
            dispatch(pending, buffer + more) == (first + second, after)
        }),
    decreases buffer.len(),
{
    let (first, between) = dispatch(pending, buffer);
    let (second, after) = dispatch(between.pending, between.buffer + more);
    match parse(buffer) {
        Parsed::Frame(resp, end) => {
            lemma_frame_bounds(buffer, 0);
            lemma_frame_before_more(buffer, more);
            assert((buffer + more).skip(end) =~= buffer.skip(end) + more);
            lemma_dispatch_in_portions(pending.skip(1), buffer.skip(end), more);
            let rest = dispatch(pending.skip(1), buffer.skip(end)).0;
            let head = seq![DeliveryView { waiter: pending[0], outcome: Ok(resp) }];
            assert(head + (rest + second) =~= (head + rest) + second);
        },
        Parsed::Incomplete => {
            assert(first + second =~= second);
        },
        Parsed::Malformed(_) => {},
    }
}

} // verus!
