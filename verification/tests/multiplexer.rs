use mco_redis::client::{call_outcome, finish_exec, Client, ConnState, Delivery};
use mco_redis::cmd::{Get, GetCommand, Ping, PingCommand, SetCommand, SetValue};
use mco_redis::codec_redis::{Request, Response};
use mco_redis::errors::{CommandError, Error};
use std::io;

fn waiters(deliveries: &[Delivery<u32>]) -> Vec<u32> {
    deliveries.iter().map(|d| d.waiter).collect()
}

fn open_with(n: u32) -> Client<u32> {
    let mut client = Client::new();
    for w in 0..n {
        client.exec(Ping(), w).ok().unwrap();
    }
    client
}

#[test]
fn new_client_is_open_and_idle() {
    let client: Client<u32> = Client::new();
    assert!(client.is_connected());
    assert_eq!(client.state(), ConnState::Open);
    assert_eq!(client.pending(), 0);
}

#[test]
fn call_returns_the_bytes_to_write() {
    let mut client: Client<u32> = Client::new();
    let bytes = client.call(Request::from_static("PING"), 1).ok().unwrap();
    assert_eq!(bytes, b"*1\r\n$4\r\nPING\r\n".to_vec());
    assert_eq!(client.pending(), 1);
    let bytes = client.exec(Get("k"), 2).ok().unwrap();
    assert_eq!(bytes, b"*2\r\n$3\r\nGET\r\n$1\r\nk\r\n".to_vec());
    assert_eq!(client.pending(), 2);
    let bytes = client.flushdb(3).ok().unwrap();
    assert_eq!(bytes, b"*1\r\n$7\r\nFLUSHDB\r\n".to_vec());
    assert_eq!(client.pending(), 3);
}

#[test]
fn replies_in_one_burst_resolve_in_send_order() {
    let mut client = open_with(4);
    let got = client.on_bytes(b"+a\r\n+b\r\n+c\r\n");
    assert_eq!(waiters(&got), vec![0, 1, 2]);
    for (d, text) in got.iter().zip(["a", "b", "c"]) {
        assert!(matches!(d.outcome, Ok(Response::SimpleString(ref t)) if t == text));
    }
    assert_eq!(client.pending(), 1);
    assert!(client.is_connected());
    let got = client.on_bytes(b"+d\r\n");
    assert_eq!(waiters(&got), vec![3]);
    assert_eq!(client.pending(), 0);
}

#[test]
fn replies_may_arrive_in_any_portions() {
    let stream = b"+PONG\r\n$3\r\nabc\r\n*2\r\n:1\r\n:2\r\n";
    for cut in 0..=stream.len() {
        let mut client = open_with(3);
        let mut got = client.on_bytes(&stream[..cut]);
        got.extend(client.on_bytes(&stream[cut..]));
        assert_eq!(waiters(&got), vec![0, 1, 2], "cut at {}", cut);
        assert!(matches!(got[0].outcome, Ok(Response::SimpleString(ref t)) if t == "PONG"));
        assert!(matches!(got[1].outcome, Ok(Response::Bulk(Some(ref b))) if b == b"abc"));
        assert!(matches!(got[2].outcome, Ok(Response::Array(ref items)) if items.len() == 2));
        assert!(client.is_connected());
        assert_eq!(client.pending(), 0);
    }
}

#[test]
fn partial_frame_resolves_nobody() {
    let mut client = open_with(1);
    assert!(client.on_bytes(b"$5\r\nhel").is_empty());
    assert_eq!(client.pending(), 1);
    let got = client.on_bytes(b"lo\r\n");
    assert_eq!(waiters(&got), vec![0]);
    assert!(matches!(got[0].outcome, Ok(Response::Bulk(Some(ref b))) if b == b"hello"));
}

#[test]
fn malformed_frame_poisons_every_waiter_that_is_left() {
    let mut client = open_with(5);
    let got = client.on_bytes(b"+one\r\n:2\r\n!bad\r\n+never\r\n");
    assert_eq!(waiters(&got), vec![0, 1, 2, 3, 4]);
    assert!(matches!(got[0].outcome, Ok(Response::SimpleString(ref t)) if t == "one"));
    assert!(matches!(got[1].outcome, Ok(Response::Integer(2))));
    for d in &got[2..] {
        assert!(matches!(d.outcome, Err(Error::Parse(ref t)) if t == "unexpected leading byte"));
    }
    assert!(!client.is_connected());
    assert_eq!(client.state(), ConnState::Closing);
    assert_eq!(client.pending(), 0);
    // the caller of the waiter that was poisoned sees a protocol error
    let outcome = call_outcome(Ok(Err(Error::Parse("unexpected leading byte".to_string()))));
    let seen = finish_exec::<PingCommand>(outcome);
    assert!(matches!(seen, Err(CommandError::Protocol(Error::Parse(_)))));
}

#[test]
fn earlier_results_stand_when_a_later_frame_is_malformed() {
    let mut client = open_with(3);
    let got = client.on_bytes(b"+first\r\n");
    assert_eq!(waiters(&got), vec![0]);
    assert!(client.is_connected());
    let got = client.on_bytes(b":x\r\n");
    assert_eq!(waiters(&got), vec![1, 2]);
    for d in &got {
        assert!(matches!(d.outcome, Err(Error::Parse(ref t)) if t == "not an integer"));
    }
    assert!(!client.is_connected());
}

#[test]
fn closing_connection_takes_no_more() {
    let mut client = open_with(1);
    client.on_bytes(b"?\r\n");
    assert_eq!(client.state(), ConnState::Closing);
    assert!(client.on_bytes(b"+late\r\n").is_empty());
    let back = client.exec(Ping(), 9).err().unwrap();
    assert_eq!(back.0, 9);
    assert!(matches!(back.1, CommandError::Protocol(Error::PeerGone(None))));
    assert_eq!(client.pending(), 0);
    assert!(client.on_disconnect(None).is_empty());
    assert_eq!(client.state(), ConnState::Closed);
}

#[test]
fn disconnect_drains_the_queue() {
    let mut client = open_with(4);
    let cause = io::Error::new(io::ErrorKind::UnexpectedEof, "eof");
    let got = client.on_disconnect(Some(cause));
    assert_eq!(waiters(&got), vec![0, 1, 2, 3]);
    assert!(matches!(
        got[0].outcome,
        Err(Error::PeerGone(Some(ref e))) if e.kind() == io::ErrorKind::UnexpectedEof
    ));
    for d in &got[1..] {
        assert!(matches!(d.outcome, Err(Error::PeerGone(None))));
    }
    assert_eq!(client.pending(), 0);
    assert!(!client.is_connected());
    assert_eq!(client.state(), ConnState::Closed);
}

#[test]
fn local_close_fails_everyone_with_peer_gone() {
    let mut client = open_with(2);
    let got = client.close();
    assert_eq!(waiters(&got), vec![0, 1]);
    for d in &got {
        assert!(matches!(d.outcome, Err(Error::PeerGone(None))));
    }
    assert_eq!(client.state(), ConnState::Closed);
    assert!(client.close().is_empty());
}

#[test]
fn closed_connection_rejects_at_once() {
    let mut client: Client<u32> = Client::new();
    client.close();
    let back = client.exec(Ping(), 7).err().unwrap();
    assert_eq!(back.0, 7);
    assert!(matches!(back.1, CommandError::Protocol(Error::PeerGone(None))));
    let back = client.call(Request::from_static("PING"), 8).err().unwrap();
    assert_eq!(back.0, 8);
    assert!(matches!(back.1, Error::PeerGone(None)));
    let back = client.flushdb(9).err().unwrap();
    assert_eq!(back.0, 9);
    assert!(matches!(back.1, Error::PeerGone(None)));
    assert_eq!(client.pending(), 0);
    assert!(client.on_bytes(b"+OK\r\n").is_empty());
}

#[test]
fn unsolicited_reply_ends_the_connection() {
    let mut client = open_with(1);
    let got = client.on_bytes(b"+mine\r\n+nobody\r\n");
    assert_eq!(waiters(&got), vec![0]);
    assert!(!client.is_connected());
    assert_eq!(client.state(), ConnState::Closing);
}

#[test]
fn pipelined_set_then_get() {
    let mut client: Client<&'static str> = Client::new();
    let mut wire = Vec::new();
    wire.extend(client.exec(SetValue("k", "v"), "set").ok().unwrap());
    wire.extend(client.exec(Get("k"), "get").ok().unwrap());
    assert_eq!(
        wire,
        b"*3\r\n$3\r\nSET\r\n$1\r\nk\r\n$1\r\nv\r\n*2\r\n$3\r\nGET\r\n$1\r\nk\r\n".to_vec()
    );
    let mut got = client.on_bytes(b"+OK\r\n$1\r\nv\r\n");
    assert_eq!(got.len(), 2);
    let second = got.pop().unwrap();
    let first = got.pop().unwrap();
    assert_eq!(first.waiter, "set");
    assert_eq!(second.waiter, "get");
    let set = finish_exec::<SetCommand>(call_outcome(Ok(first.outcome)));
    assert!(matches!(set, Ok(true)));
    let get = finish_exec::<GetCommand>(call_outcome(Ok(second.outcome)));
    assert!(matches!(get, Ok(Some(ref v)) if v == b"v"));
}
