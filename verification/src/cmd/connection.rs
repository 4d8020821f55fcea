//! Commands on the connection itself.
use super::{is_ok, Command};
use crate::codec_redis::{request_view, Request, RequestView, Response};
use crate::errors::CommandError;
use vstd::prelude::*;

verus! {

/// SELECT redis command
///
/// Select the Redis logical database having the specified zero-based
/// numeric index.
pub fn Select(db: u32) -> (cmd: SelectCommand)
    ensures
        cmd.request() == RequestView::Array(
            seq![RequestView::StaticToken("SELECT"@), RequestView::BulkInteger(db as i64)],
        ),
{
    let mut items: Vec<Request> = Vec::new();
    items.push(Request::from_static("SELECT"));
    items.push(Request::BulkInteger(db as i64));
    let req = Request::Array(items);
    proof {
        reveal_with_fuel(request_view, 2);
        assert(req@->Array_0 =~= seq![
            RequestView::StaticToken("SELECT"@),
            RequestView::BulkInteger(db as i64),
        ]);
    }
    SelectCommand(req)
}

/// The SELECT command with its database index.
pub struct SelectCommand(Request);

impl SelectCommand {
    /// The request that the command sends.
    pub closed spec fn request(&self) -> RequestView {
        self.0@
    }

    /// A simple string is the answer, and the status `OK` is success; a
    /// reply of any other shape is not what the command expects.
    pub open spec fn output(val: Response) -> Result<bool, CommandError> {
        match val {
            Response::SimpleString(text) => Ok(text@ == "OK"@),
            _ => Err(CommandError::Output("Unknown response", val)),
        }
    }
}

impl Command for SelectCommand {
    type Output = bool;

    fn to_request(self) -> (req: Request)
        ensures
            req@ == self.request(),
    {
        self.0
    }

    fn to_output(val: Response) -> (r: Result<bool, CommandError>)
        ensures
            r == Self::output(val),
    {
        match val {
            Response::SimpleString(text) => Ok(is_ok(&text)),
            _ => Err(CommandError::Output("Unknown response", val)),
        }
    }
}

/// PING redis command
///
/// This command is often used to test if a connection is still alive,
/// or to measure latency.
pub fn Ping() -> (cmd: PingCommand)
    ensures
        cmd.request() == RequestView::Array(seq![RequestView::StaticToken("PING"@)]),
{
    let mut items: Vec<Request> = Vec::new();
    items.push(Request::from_static("PING"));
    let req = Request::Array(items);
    proof {
        reveal_with_fuel(request_view, 2);
        assert(req@->Array_0 =~= seq![RequestView::StaticToken("PING"@)]);
    }
    PingCommand(req)
}

/// The PING command.
pub struct PingCommand(Request);

impl PingCommand {
    /// The request that the command sends.
    pub closed spec fn request(&self) -> RequestView {
        self.0@
    }

    /// A simple string is the answer; anything else is not what a ping
    /// gets.
    pub open spec fn output(val: Response) -> Result<String, CommandError> {
        match val {
            Response::SimpleString(text) => Ok(text),
            Response::Error(text) => Err(CommandError::Error(text)),
            _ => Err(CommandError::Output("Unknown response", val)),
        }
    }
}

impl Command for PingCommand {
    type Output = String;

    fn to_request(self) -> (req: Request)
        ensures
            req@ == self.request(),
    {
        self.0
    }

    fn to_output(val: Response) -> (r: Result<String, CommandError>)
        ensures
            r == Self::output(val),
    {
        match val {
            Response::SimpleString(text) => Ok(text),
            Response::Error(text) => Err(CommandError::Error(text)),
            _ => Err(CommandError::Output("Unknown response", val)),
        }
    }
}

} // verus!
