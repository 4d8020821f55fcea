use mco_redis::client::read_output;
use mco_redis::cmd::Command;
use mco_redis::codec::{Decoder, Encoder};
use mco_redis::codec_redis::{Codec, Request, Response};
use mco_redis::connector::{pick_address, AuthStep, Handshake, RedisConnector};
use mco_redis::errors::{CommandError, ConnectError, Error};
use mco_redis::simple::SimpleClient;
use mco_redis::cmd::{AuthCommand, Ping, PingCommand};

fn offered(step: AuthStep) -> Vec<u8> {
    match step {
        AuthStep::Offer(cmd) => {
            let mut out = Vec::new();
            Codec {}.encode(cmd.to_request(), &mut out).unwrap();
            out
        }
        AuthStep::Ready => panic!("ready, but a password should be offered"),
        AuthStep::Failed(err) => panic!("failed, but a password should be offered: {:?}", err),
    }
}

fn auth(password: &str) -> Vec<u8> {
    format!("*2\r\n$4\r\nAUTH\r\n${}\r\n{}\r\n", password.len(), password).into_bytes()
}

/// Runs the handshake against a server that accepts `accepted`, and returns
/// the passwords that were offered, as they went over the wire.
fn run(mut handshake: Handshake, accepted: &str) -> (Vec<Vec<u8>>, Result<(), ConnectError>) {
    let mut sent = Vec::new();
    let mut step = handshake.start();
    loop {
        match step {
            AuthStep::Ready => return (sent, Ok(())),
            AuthStep::Failed(err) => return (sent, Err(err)),
            AuthStep::Offer(cmd) => {
                let mut out = Vec::new();
                Codec {}.encode(cmd.to_request(), &mut out).unwrap();
                let reply = if out == auth(accepted) {
                    Response::SimpleString("OK".to_string())
                } else {
                    Response::Error("ERR invalid password".to_string())
                };
                sent.push(out);
                step = handshake.on_reply(read_output::<AuthCommand>(reply));
            }
        }
    }
}

#[test]
fn connector_collects_passwords_in_order() {
    let connector = RedisConnector::new("127.0.0.1:6379").password("a").password("b").connector();
    assert_eq!(*connector.target(), "127.0.0.1:6379");
    let mut handshake = connector.handshake();
    assert_eq!(offered(handshake.start()), auth("a"));
    assert_eq!(offered(handshake.on_reply(Ok(false))), auth("b"));
}

#[test]
fn no_passwords_means_ready_at_once() {
    let connector = RedisConnector::new(("localhost", 6379u16));
    let mut handshake = connector.handshake();
    assert!(matches!(handshake.start(), AuthStep::Ready));
}

#[test]
fn second_password_accepted_after_exactly_two_attempts() {
    let connector = RedisConnector::new("redis:6379").password("a").password("b");
    let (sent, result) = run(connector.handshake(), "b");
    assert!(result.is_ok());
    assert_eq!(sent, vec![auth("a"), auth("b")]);
}

#[test]
fn first_password_accepted_offers_no_other() {
    let connector = RedisConnector::new("redis:6379").password("a").password("b");
    let (sent, result) = run(connector.handshake(), "a");
    assert!(result.is_ok());
    assert_eq!(sent, vec![auth("a")]);
}

#[test]
fn exhausted_passwords_are_unauthorized() {
    let connector = RedisConnector::new("redis:6379").password("a");
    let (sent, result) = run(connector.handshake(), "other");
    assert!(matches!(result, Err(ConnectError::Unauthorized)));
    assert_eq!(sent, vec![auth("a")]);
}

#[test]
fn refusal_by_error_reply_brings_the_next_password() {
    let connector = RedisConnector::new("redis:6379").password("a").password("b");
    let mut handshake = connector.handshake();
    assert_eq!(offered(handshake.start()), auth("a"));
    let refused = read_output::<AuthCommand>(Response::Error("ERR invalid password".to_string()));
    assert!(matches!(refused, Err(CommandError::Error(_))));
    assert_eq!(offered(handshake.on_reply(refused)), auth("b"));
    let refused = read_output::<AuthCommand>(Response::Error("ERR invalid password".to_string()));
    assert!(matches!(handshake.on_reply(refused), AuthStep::Failed(ConnectError::Unauthorized)));
}

#[test]
fn refusal_by_status_brings_the_next_password() {
    let connector = RedisConnector::new("redis:6379").password("a").password("b");
    let mut handshake = connector.handshake();
    assert_eq!(offered(handshake.start()), auth("a"));
    let refused = read_output::<AuthCommand>(Response::SimpleString("NO".to_string()));
    assert!(matches!(refused, Ok(false)));
    assert_eq!(offered(handshake.on_reply(refused)), auth("b"));
    let accepted = read_output::<AuthCommand>(Response::SimpleString("OK".to_string()));
    assert!(matches!(handshake.on_reply(accepted), AuthStep::Ready));
}

#[test]
fn accepted_at_position_k_takes_k_plus_one_attempts() {
    let passwords = ["north", "east", "south", "west"];
    for k in 0..passwords.len() {
        let mut connector = RedisConnector::new("redis:6379");
        for p in passwords {
            connector = connector.password(p);
        }
        let (sent, result) = run(connector.handshake(), passwords[k]);
        assert!(result.is_ok());
        let want: Vec<Vec<u8>> = passwords[..=k].iter().map(|p| auth(p)).collect();
        assert_eq!(sent, want);
    }
}

#[test]
fn reply_of_the_wrong_shape_ends_the_handshake() {
    let connector = RedisConnector::new("redis:6379").password("a").password("b");
    let mut handshake = connector.handshake();
    assert_eq!(offered(handshake.start()), auth("a"));
    let odd = read_output::<AuthCommand>(Response::Integer(1));
    assert!(matches!(odd, Err(CommandError::Output("Unknown response", Response::Integer(1)))));
    assert!(matches!(
        handshake.on_reply(odd),
        AuthStep::Failed(ConnectError::Command(CommandError::Output(_, Response::Integer(1))))
    ));
}

#[test]
fn failed_command_ends_the_handshake() {
    let connector = RedisConnector::new("redis:6379").password("a").password("b");
    let mut handshake = connector.handshake();
    assert_eq!(offered(handshake.start()), auth("a"));
    let step = handshake.on_reply(Err(CommandError::Protocol(Error::PeerGone(None))));
    assert!(matches!(
        step,
        AuthStep::Failed(ConnectError::Command(CommandError::Protocol(Error::PeerGone(None))))
    ));
}

#[test]
fn the_last_resolved_address_is_used() {
    assert!(matches!(pick_address(vec![1, 2, 3]), Ok(3)));
    assert!(matches!(pick_address(vec!["only"]), Ok("only")));
    assert!(matches!(
        pick_address(Vec::<u8>::new()),
        Err(ConnectError::Connect(ref t)) if t == "none socket addr!"
    ));
}

#[test]
fn simple_client_exchange() {
    let mut client = SimpleClient::new();
    assert!(!client.is_closed());
    let bytes = client.exec(Ping()).unwrap();
    assert_eq!(bytes, b"*1\r\n$4\r\nPING\r\n".to_vec());
    assert!(client.receive(b"+PO").unwrap().is_none());
    let reply = client.receive(b"NG\r\n").unwrap().unwrap();
    let out = client.decode::<PingCommand>(reply);
    assert!(matches!(out, Ok(ref t) if t == "PONG"));
}

#[test]
fn simple_client_encodes() {
    let client = SimpleClient::new();
    assert_eq!(client.encode(Ping()).unwrap(), b"*1\r\n$4\r\nPING\r\n".to_vec());
    let mut buf = b"..".to_vec();
    client.encode_req(Request::inline("FLUSHDB"), &mut buf).unwrap();
    assert_eq!(buf, b"..*1\r\n$7\r\nFLUSHDB\r\n".to_vec());
    let mut reply = b":1\r\n".to_vec();
    assert!(matches!(client.codec.decode(&mut reply), Ok(Some(Response::Integer(1)))));
}

#[test]
fn empty_read_means_the_peer_is_gone() {
    let mut client = SimpleClient::new();
    client.send().unwrap();
    assert!(client.on_read(b"$3\r\nab").unwrap().is_none());
    assert!(matches!(client.on_read(b""), Err(CommandError::Protocol(Error::PeerGone(None)))));
    // what had been read is still there
    let reply = client.on_read(b"c\r\n").unwrap().unwrap();
    assert!(matches!(reply, Response::Bulk(Some(ref b)) if b == b"abc"));
    // an empty chunk that is merely received changes nothing
    client.send().unwrap();
    assert!(client.receive(b"").unwrap().is_none());
}

#[test]
fn on_read_reads_as_receive_does() {
    let mut client = SimpleClient::new();
    client.send().unwrap();
    assert!(client.on_read(b"+PO").unwrap().is_none());
    let reply = client.on_read(b"NG\r\n").unwrap().unwrap();
    assert!(matches!(reply, Response::SimpleString(ref t) if t == "PONG"));
    client.send().unwrap();
    assert!(matches!(
        client.on_read(b"!\r\n"),
        Err(CommandError::Protocol(Error::Parse(ref t))) if t == "unexpected leading byte"
    ));
}

#[test]
fn simple_client_reports_malformed_reply() {
    let mut client = SimpleClient::new();
    client.send().unwrap();
    let got = client.receive(b"~oops\r\n");
    assert!(matches!(
        got,
        Err(CommandError::Protocol(Error::Parse(ref t))) if t == "unexpected leading byte"
    ));
}

#[test]
fn simple_client_starts_each_exchange_from_scratch() {
    let mut client = SimpleClient::new();
    client.send().unwrap();
    assert!(client.receive(b"$9\r\nleft").unwrap().is_none());
    client.send().unwrap();
    let reply = client.receive(b":3\r\n").unwrap().unwrap();
    assert!(matches!(reply, Response::Integer(3)));
}

#[test]
fn closed_simple_client_fails_at_once() {
    let mut client = SimpleClient::new();
    client.close();
    assert!(client.is_closed());
    assert!(matches!(client.send(), Err(CommandError::Protocol(Error::PeerGone(None)))));
    assert!(matches!(client.exec(Ping()), Err(CommandError::Protocol(Error::PeerGone(None)))));
    let out = client.decode::<PingCommand>(Response::Error("ERR".to_string()));
    assert!(matches!(out, Err(CommandError::Error(ref t)) if t == "ERR"));
}
