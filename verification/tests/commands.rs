use mco_redis::client::{call_outcome, finish_exec, finish_flushdb, read_output, CallOutcome};
use mco_redis::cmd::{
    from_byte_uncheck, is_ok, try_from_byte, Auth, AuthCommand, Command, Get, GetCommand, Ping,
    PingCommand, Select, SelectCommand, SetCommand, SetValue,
};
use mco_redis::codec::Encoder;
use mco_redis::codec_redis::{Codec, Request, Response};
use mco_redis::errors::{CommandError, ConnectError, Error};
use std::io;

fn sent<T: Command>(cmd: T) -> Vec<u8> {
    let mut out = Vec::new();
    Codec {}.encode(cmd.to_request(), &mut out).unwrap();
    out
}

fn simple(text: &str) -> Response {
    Response::SimpleString(text.to_string())
}

#[test]
fn select_sends_the_database_index() {
    assert_eq!(sent(Select(1)), b"*2\r\n$6\r\nSELECT\r\n$1\r\n1\r\n".to_vec());
    assert_eq!(sent(Select(u32::MAX)), b"*2\r\n$6\r\nSELECT\r\n$10\r\n4294967295\r\n".to_vec());
    assert!(matches!(Select(3).to_request(), Request::Array(ref items) if items.len() == 2));
}

#[test]
fn select_reads_ok_as_success() {
    assert!(matches!(SelectCommand::to_output(simple("OK")), Ok(true)));
    assert!(matches!(SelectCommand::to_output(simple("ok")), Ok(false)));
    assert!(matches!(
        SelectCommand::to_output(Response::Integer(1)),
        Err(CommandError::Output("Unknown response", Response::Integer(1)))
    ));
    assert!(matches!(
        SelectCommand::to_output(Response::Bulk(None)),
        Err(CommandError::Output("Unknown response", Response::Bulk(None)))
    ));
}

#[test]
fn ping_sends_one_token() {
    assert_eq!(sent(Ping()), b"*1\r\n$4\r\nPING\r\n".to_vec());
}

#[test]
fn ping_reads_its_answer() {
    assert!(matches!(PingCommand::to_output(simple("PONG")), Ok(ref t) if t == "PONG"));
    assert!(matches!(
        PingCommand::to_output(Response::Error("ERR".to_string())),
        Err(CommandError::Error(ref t)) if t == "ERR"
    ));
    assert!(matches!(
        PingCommand::to_output(Response::Integer(1)),
        Err(CommandError::Output("Unknown response", Response::Integer(1)))
    ));
}

#[test]
fn auth_sends_the_password() {
    assert_eq!(sent(Auth("secret")), b"*2\r\n$4\r\nAUTH\r\n$6\r\nsecret\r\n".to_vec());
    assert!(matches!(AuthCommand::to_output(simple("OK")), Ok(true)));
    assert!(matches!(AuthCommand::to_output(simple("NO")), Ok(false)));
    assert!(matches!(
        AuthCommand::to_output(Response::Bulk(None)),
        Err(CommandError::Output("Unknown response", Response::Bulk(None)))
    ));
    assert!(matches!(
        AuthCommand::to_output(Response::Integer(1)),
        Err(CommandError::Output("Unknown response", Response::Integer(1)))
    ));
}

#[test]
fn get_and_set_send_key_and_value() {
    assert_eq!(sent(Get("k")), b"*2\r\n$3\r\nGET\r\n$1\r\nk\r\n".to_vec());
    assert_eq!(sent(SetValue("k", "v")), b"*3\r\n$3\r\nSET\r\n$1\r\nk\r\n$1\r\nv\r\n".to_vec());
}

#[test]
fn get_reads_a_value_or_nil() {
    assert!(matches!(
        GetCommand::to_output(Response::Bulk(Some(b"v".to_vec()))),
        Ok(Some(ref v)) if v == b"v"
    ));
    assert!(matches!(GetCommand::to_output(Response::Bulk(None)), Ok(None)));
    assert!(matches!(
        GetCommand::to_output(Response::Integer(1)),
        Err(CommandError::Output("Cannot parse response", Response::Integer(1)))
    ));
}

#[test]
fn set_reads_ok_or_nil() {
    assert!(matches!(SetCommand::to_output(simple("OK")), Ok(true)));
    assert!(matches!(SetCommand::to_output(Response::Bulk(None)), Ok(false)));
    assert!(matches!(
        SetCommand::to_output(simple("QUEUED")),
        Err(CommandError::Output("Unexpected value within String", Response::SimpleString(ref t))) if t == "QUEUED"
    ));
    assert!(matches!(
        SetCommand::to_output(Response::Integer(1)),
        Err(CommandError::Output("Unexpected value", Response::Integer(1)))
    ));
}

#[test]
fn is_ok_is_exact() {
    assert!(is_ok(&"OK".to_string()));
    assert!(!is_ok(&"OK ".to_string()));
    assert!(!is_ok(&"".to_string()));
}

#[test]
fn server_error_comes_before_the_commands_reading() {
    // an error reply is the server's error for every command, whatever
    // shape the command expects
    let got = read_output::<SelectCommand>(Response::Error("ERR db".to_string()));
    assert!(matches!(got, Err(CommandError::Error(ref t)) if t == "ERR db"));
    let got = read_output::<GetCommand>(Response::Error("WRONGTYPE".to_string()));
    assert!(matches!(got, Err(CommandError::Error(ref t)) if t == "WRONGTYPE"));
    let got = read_output::<GetCommand>(Response::Bulk(Some(b"x".to_vec())));
    assert!(matches!(got, Ok(Some(ref v)) if v == b"x"));
}

#[test]
fn finish_exec_reads_either_side() {
    let got = finish_exec::<PingCommand>(CallOutcome::Delivered(Ok(simple("PONG"))));
    assert!(matches!(got, Ok(ref t) if t == "PONG"));
    let got = finish_exec::<PingCommand>(CallOutcome::Undelivered(Ok(simple("PONG"))));
    assert!(matches!(got, Ok(ref t) if t == "PONG"));
    let got = finish_exec::<PingCommand>(CallOutcome::Delivered(Err(Error::PeerGone(None))));
    assert!(matches!(got, Err(CommandError::Protocol(Error::PeerGone(None)))));
    let got = finish_exec::<PingCommand>(CallOutcome::Undelivered(Err(Error::Recv("gone".to_string()))));
    assert!(matches!(got, Err(CommandError::Protocol(Error::Recv(ref t))) if t == "gone"));
    let got = finish_exec::<PingCommand>(CallOutcome::Delivered(Ok(Response::Error("ERR".to_string()))));
    assert!(matches!(got, Err(CommandError::Error(ref t)) if t == "ERR"));
    let got = finish_exec::<PingCommand>(CallOutcome::Delivered(Ok(Response::Integer(2))));
    assert!(matches!(got, Err(CommandError::Output("Unknown response", Response::Integer(2)))));
}

#[test]
fn call_outcome_tells_delivery_from_loss() {
    assert!(matches!(
        call_outcome(Ok(Ok(Response::Integer(1)))),
        CallOutcome::Delivered(Ok(Response::Integer(1)))
    ));
    assert!(matches!(
        call_outcome(Ok(Err(Error::PeerGone(None)))),
        CallOutcome::Delivered(Err(Error::PeerGone(None)))
    ));
    assert!(matches!(
        call_outcome(Err("receiving on a closed channel".to_string())),
        CallOutcome::Undelivered(Err(Error::Recv(ref t))) if t == "receiving on a closed channel"
    ));
}

#[test]
fn finish_flushdb_takes_any_reply() {
    assert!(finish_flushdb(CallOutcome::Delivered(Ok(simple("OK")))).is_ok());
    assert!(finish_flushdb(CallOutcome::Delivered(Ok(Response::Error("ERR".to_string())))).is_ok());
    assert!(matches!(
        finish_flushdb(CallOutcome::Delivered(Err(Error::Parse("bad".to_string())))),
        Err(Error::Parse(ref t)) if t == "bad"
    ));
    assert!(matches!(
        finish_flushdb(CallOutcome::Undelivered(Err(Error::Recv("lost".to_string())))),
        Err(Error::Recv(ref t)) if t == "lost"
    ));
}

#[test]
fn bytes_to_text() {
    assert_eq!(try_from_byte(b"hello"), "hello");
    assert_eq!(try_from_byte(b"h\xc3\xa9"), "h\u{e9}");
    assert_eq!(try_from_byte(b"a\xffb"), "a\u{fffd}b");
    assert_eq!(try_from_byte(b""), "");
    assert_eq!(from_byte_uncheck(b"h\xc3\xa9llo".to_vec()), "h\u{e9}llo");
}

#[test]
fn error_clone_drops_the_io_cause() {
    let gone = Error::PeerGone(Some(io::Error::new(io::ErrorKind::BrokenPipe, "pipe")));
    assert!(matches!(gone.clone(), Error::PeerGone(None)));
    assert!(matches!(Error::PeerGone(None).clone(), Error::PeerGone(None)));
    assert!(matches!(Error::Parse("p".to_string()).clone(), Error::Parse(ref t) if t == "p"));
    assert!(matches!(Error::Command("c".to_string()).clone(), Error::Command(ref t) if t == "c"));
    assert!(matches!(Error::Recv("r".to_string()).clone(), Error::Recv(ref t) if t == "r"));
}

#[test]
fn errors_convert_between_layers() {
    let io_err = || io::Error::new(io::ErrorKind::ConnectionReset, "reset by peer");
    assert!(matches!(
        Error::from(io_err()),
        Error::PeerGone(Some(ref e)) if e.kind() == io::ErrorKind::ConnectionReset
    ));
    assert!(matches!(
        CommandError::from(io_err()),
        CommandError::Protocol(Error::PeerGone(Some(ref e))) if e.kind() == io::ErrorKind::ConnectionReset
    ));
    assert!(matches!(
        CommandError::from(Error::Parse("x".to_string())),
        CommandError::Protocol(Error::Parse(ref t)) if t == "x"
    ));
    assert!(matches!(
        CommandError::from("ERR".to_string()),
        CommandError::Error(ref t) if t == "ERR"
    ));
    assert!(matches!(
        ConnectError::from(CommandError::Error("ERR".to_string())),
        ConnectError::Command(CommandError::Error(ref t)) if t == "ERR"
    ));
    assert!(matches!(
        ConnectError::from("refused".to_string()),
        ConnectError::Connect(ref t) if t == "refused"
    ));
    assert!(matches!(
        ConnectError::from(io_err()),
        ConnectError::Connect(ref t) if t == "reset by peer"
    ));
    assert!(matches!(
        CommandError::from(("Cannot parse response", Response::Integer(4))),
        CommandError::Output("Cannot parse response", Response::Integer(4))
    ));
    let flat = Error::from(CommandError::Error("boom".to_string()));
    assert!(matches!(flat, Error::Command(ref t) if t == "Error(\"boom\")"));
}

struct Echo(String);

impl Command for Echo {
    type Output = Vec<u8>;

    fn to_request(self) -> Request {
        Request::Array(vec![Request::from_static("ECHO"), Request::BulkString(self.0.into_bytes())])
    }

    fn to_output(val: Response) -> Result<Vec<u8>, CommandError> {
        match val {
            Response::Bulk(Some(bytes)) => Ok(bytes),
            other => Err(CommandError::Output("Cannot parse response", other)),
        }
    }
}

#[test]
fn commands_can_be_added_from_outside() {
    assert_eq!(sent(Echo("hi".to_string())), b"*2\r\n$4\r\nECHO\r\n$2\r\nhi\r\n".to_vec());
    let got = read_output::<Echo>(Response::Bulk(Some(b"hi".to_vec())));
    assert!(matches!(got, Ok(ref v) if v == b"hi"));
    let got = read_output::<Echo>(Response::Error("ERR".to_string()));
    assert!(matches!(got, Err(CommandError::Error(ref t)) if t == "ERR"));
}
