//! Commands on string values.
use super::{is_ok, Command};
use crate::codec_redis::{request_view, Request, RequestView, Response};
use crate::errors::CommandError;
use vstd::prelude::*;
use vstd::utf8::*;

verus! {

/// GET redis command
///
/// Get the value of a key.
pub fn Get(key: &str) -> (cmd: GetCommand)
    ensures
        cmd.request() == RequestView::Array(
            seq![RequestView::StaticToken("GET"@), RequestView::BulkString(encode_utf8(key@))],
        ),
{
    let mut items: Vec<Request> = Vec::new();
    items.push(Request::from_static("GET"));
    items.push(Request::BulkString(key.as_bytes_vec()));
    let req = Request::Array(items);
    proof {
        reveal_with_fuel(request_view, 2);
        assert(req@->Array_0 =~= seq![
            RequestView::StaticToken("GET"@),
            RequestView::BulkString(encode_utf8(key@)),
        ]);
    }
    GetCommand(req)
}

/// The GET command with its key.
pub struct GetCommand(Request);

impl GetCommand {
    /// The request that the command sends.
    pub closed spec fn request(&self) -> RequestView {
        self.0@
    }

    /// A bulk string is the value, Nil is a key that does not exist.
    pub open spec fn output(val: Response) -> Result<Option<Vec<u8>>, CommandError> {
        match val {
            Response::Bulk(value) => Ok(value),
            _ => Err(CommandError::Output("Cannot parse response", val)),
        }
    }
}

impl Command for GetCommand {
    type Output = Option<Vec<u8>>;

    fn to_request(self) -> (req: Request)
        ensures
            req@ == self.request(),
    {
        self.0
    }

    fn to_output(val: Response) -> (r: Result<Option<Vec<u8>>, CommandError>)
        ensures
            r == Self::output(val),
    {
        match val {
            Response::Bulk(value) => Ok(value),
            _ => Err(CommandError::Output("Cannot parse response", val)),
        }
    }
}

/// SET redis command
///
/// Set key to hold the string value.
pub fn SetValue(key: &str, value: &str) -> (cmd: SetCommand)
    ensures
        cmd.request() == RequestView::Array(
            seq![
                RequestView::StaticToken("SET"@),
                RequestView::BulkString(encode_utf8(key@)),
                RequestView::BulkString(encode_utf8(value@)),
            ],
        ),
{
    let mut items: Vec<Request> = Vec::new();
    items.push(Request::from_static("SET"));
    items.push(Request::BulkString(key.as_bytes_vec()));
    items.push(Request::BulkString(value.as_bytes_vec()));
    let req = Request::Array(items);
    proof {
        reveal_with_fuel(request_view, 2);
        assert(req@->Array_0 =~= seq![
            RequestView::StaticToken("SET"@),
            RequestView::BulkString(encode_utf8(key@)),
            RequestView::BulkString(encode_utf8(value@)),
        ]);
    }
    SetCommand(req)
}

/// The SET command with its key and value.
pub struct SetCommand(Request);

impl SetCommand {
    /// The request that the command sends.
    pub closed spec fn request(&self) -> RequestView {
        self.0@
    }

    /// The status `OK` is success and Nil is a value that was not set; no
    /// other reply is expected.
    pub open spec fn output(val: Response) -> Result<bool, CommandError> {
        match val {
            Response::Bulk(None) => Ok(false),
            Response::SimpleString(text) => if text@ == "OK"@ {
                Ok(true)
            } else {
                Err(
                    CommandError::Output(
                        "Unexpected value within String",
                        Response::SimpleString(text),
                    ),
                )
            },
            _ => Err(CommandError::Output("Unexpected value", val)),
        }
    }
}

impl Command for SetCommand {
    type Output = bool;

    fn to_request(self) -> (req: Request)
        ensures
            req@ == self.request(),
    {
        self.0
    }

    fn to_output(val: Response) -> (r: Result<bool, CommandError>)
        ensures
            r == Self::output(val),
    {
        match val {
            Response::Bulk(None) => Ok(false),
            Response::SimpleString(text) => if is_ok(&text) {
                Ok(true)
            } else {
                Err(
                    CommandError::Output(
                        "Unexpected value within String",
                        Response::SimpleString(text),
                    ),
                )
            },
            _ => Err(CommandError::Output("Unexpected value", val)),
        }
    }
}

} // verus!
