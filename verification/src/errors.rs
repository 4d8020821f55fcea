//! The three layers of failure: of the connection, of one command, and of
//! connecting; and the conversions between them.
use crate::codec_redis::Response;
use vstd::prelude::*;

verus! {

/// `std::io::Error`: the failure that the operating system or the transport
/// reported. An error carries it along; nothing is known of what it holds.
#[verifier::external_type_specification]
#[verifier::external_body]
pub struct ExIoError(std::io::Error);

/// A failure of the connection as a whole.
#[derive(Debug)]
pub enum Error {
    /// A reply frame was malformed; the stream can no longer be trusted.
    Parse(String),
    /// The transport was closed or reset, with the cause where one is known.
    PeerGone(Option<std::io::Error>),
    /// A command failure, flattened to its description.
    Command(String),
    /// The reply could not be handed from the reader to the caller.
    Recv(String),
}

/// A failure of one command.
#[derive(Debug)]
pub enum CommandError {
    /// The server answered with an error reply.
    Error(String),
    /// The reply has a shape that the command does not expect.
    Output(&'static str, Response),
    /// The connection failed under this call.
    Protocol(Error),
}

/// A failure to connect.
#[derive(Debug)]
pub enum ConnectError {
    /// No configured password was accepted.
    Unauthorized,
    /// A command of the handshake failed.
    Command(CommandError),
    /// The transport could not be established.
    Connect(String),
}

/// The model of an [`Error`]: texts as sequences of characters.
pub enum ErrorView {
    Parse(Seq<char>),
    PeerGone(Option<std::io::Error>),
    Command(Seq<char>),
    Recv(Seq<char>),
}

impl ErrorView {
    /// The model of a copy: the same, without the cause of a lost
    /// connection.
    pub open spec fn copied(self) -> ErrorView {
        match self {
            ErrorView::PeerGone(_) => ErrorView::PeerGone(None),
            other => other,
        }
    }
}

impl View for Error {
    type V = ErrorView;

    open spec fn view(&self) -> ErrorView {
        match self {
            Error::Parse(text) => ErrorView::Parse(text@),
            Error::PeerGone(cause) => ErrorView::PeerGone(*cause),
            Error::Command(text) => ErrorView::Command(text@),
            Error::Recv(text) => ErrorView::Recv(text@),
        }
    }
}

impl Error {
    /// What a copy of this error is: the same error, except that the cause of
    /// a lost connection is not copied.
    pub open spec fn copied(self) -> Error {
        match self {
            Error::PeerGone(_) => Error::PeerGone(None),
            other => other,
        }
    }
}

impl Clone for Error {
    /// An underlying I/O failure cannot be duplicated, so a lost connection
    /// is copied without its cause.
    fn clone(&self) -> (res: Self)
        ensures
            res == self.copied(),
    {
        match self {
            Error::Parse(s) => Error::Parse(s.clone()),
            Error::PeerGone(_) => Error::PeerGone(None),
            Error::Command(v) => Error::Command(v.clone()),
            Error::Recv(v) => Error::Recv(v.clone()),
        }
    }
}

/// `std::fmt::Debug` of a command error, through `format!`. The text depends
/// on how the platform describes an I/O failure, so nothing is claimed of it.
#[verifier::external_body]
fn debug_text(err: &CommandError) -> (text: String) {
    format!("{:?}", err)
}

/// `std::string::ToString::to_string` of an I/O error. The text depends on
/// the platform, so nothing is claimed of it.
#[verifier::external_body]
fn io_error_text(err: &std::io::Error) -> (text: String) {
    err.to_string()
}

impl From<std::io::Error> for Error {
    fn from(err: std::io::Error) -> (res: Error) {
        Error::PeerGone(Some(err))
    }
}

impl vstd::std_specs::convert::FromSpecImpl<std::io::Error> for Error {
    open spec fn obeys_from_spec() -> bool {
        true
    }

    open spec fn from_spec(err: std::io::Error) -> Error {
        Error::PeerGone(Some(err))
    }
}

impl From<CommandError> for Error {
    fn from(arg: CommandError) -> (res: Error)
        ensures
            res is Command,
    {
        Error::Command(debug_text(&arg))
    }
}

impl vstd::std_specs::convert::FromSpecImpl<CommandError> for Error {
    open spec fn obeys_from_spec() -> bool {
        false
    }

    open spec fn from_spec(arg: CommandError) -> Error {
        Error::Command(arbitrary())
    }
}

impl From<std::io::Error> for CommandError {
    fn from(arg: std::io::Error) -> (res: CommandError) {
        CommandError::Protocol(Error::PeerGone(Some(arg)))
    }
}

impl vstd::std_specs::convert::FromSpecImpl<std::io::Error> for CommandError {
    open spec fn obeys_from_spec() -> bool {
        true
    }

    open spec fn from_spec(arg: std::io::Error) -> CommandError {
        CommandError::Protocol(Error::PeerGone(Some(arg)))
    }
}

impl From<Error> for CommandError {
    fn from(err: Error) -> (res: CommandError) {
        CommandError::Protocol(err)
    }
}

impl vstd::std_specs::convert::FromSpecImpl<Error> for CommandError {
    open spec fn obeys_from_spec() -> bool {
        true
    }

    open spec fn from_spec(err: Error) -> CommandError {
        CommandError::Protocol(err)
    }
}

impl From<String> for CommandError {
    fn from(text: String) -> (res: CommandError) {
        CommandError::Error(text)
    }
}

impl vstd::std_specs::convert::FromSpecImpl<String> for CommandError {
    open spec fn obeys_from_spec() -> bool {
        true
    }

    open spec fn from_spec(text: String) -> CommandError {
        CommandError::Error(text)
    }
}

impl From<(&'static str, Response)> for CommandError {
    fn from(found: (&'static str, Response)) -> (res: CommandError) {
        CommandError::Output(found.0, found.1)
    }
}

impl vstd::std_specs::convert::FromSpecImpl<(&'static str, Response)> for CommandError {
    open spec fn obeys_from_spec() -> bool {
        true
    }

    open spec fn from_spec(found: (&'static str, Response)) -> CommandError {
        CommandError::Output(found.0, found.1)
    }
}

impl From<CommandError> for ConnectError {
    fn from(err: CommandError) -> (res: ConnectError) {
        ConnectError::Command(err)
    }
}

impl vstd::std_specs::convert::FromSpecImpl<CommandError> for ConnectError {
    open spec fn obeys_from_spec() -> bool {
        true
    }

    open spec fn from_spec(err: CommandError) -> ConnectError {
        ConnectError::Command(err)
    }
}

impl From<String> for ConnectError {
    fn from(text: String) -> (res: ConnectError) {
        ConnectError::Connect(text)
    }
}

impl vstd::std_specs::convert::FromSpecImpl<String> for ConnectError {
    open spec fn obeys_from_spec() -> bool {
        true
    }

    open spec fn from_spec(text: String) -> ConnectError {
        ConnectError::Connect(text)
    }
}

impl From<std::io::Error> for ConnectError {
    fn from(arg: std::io::Error) -> (res: ConnectError)
        ensures
            res is Connect,
    {
        ConnectError::Connect(io_error_text(&arg))
    }
}

impl vstd::std_specs::convert::FromSpecImpl<std::io::Error> for ConnectError {
    open spec fn obeys_from_spec() -> bool {
        false
    }

    open spec fn from_spec(arg: std::io::Error) -> ConnectError {
        ConnectError::Connect(arbitrary())
    }
}

} // verus!
