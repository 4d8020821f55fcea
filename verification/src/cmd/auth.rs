//! Authentication.
use super::{is_ok, Command};
use crate::codec_redis::{request_view, Request, RequestView, Response};
use crate::errors::CommandError;
use vstd::prelude::*;
use vstd::utf8::*;

verus! {

/// AUTH redis command
///
/// Authenticate to the server with a password.
pub fn Auth(password: &str) -> (cmd: AuthCommand)
    ensures
        cmd.request() == auth_request(password@),
{
    let mut items: Vec<Request> = Vec::new();
    items.push(Request::from_static("AUTH"));
    items.push(Request::BulkString(password.as_bytes_vec()));
    let req = Request::Array(items);
    proof {
        reveal_with_fuel(request_view, 2);
        assert(req@->Array_0 =~= auth_request(password@)->Array_0);
    }
    AuthCommand(req)
}

/// The request that offers `password` to the server.
pub open spec fn auth_request(password: Seq<char>) -> RequestView {
    RequestView::Array(
        seq![
            RequestView::StaticToken("AUTH"@),
            RequestView::BulkString(encode_utf8(password)),
        ],
    )
}

/// The AUTH command with its password.
pub struct AuthCommand(Request);

impl AuthCommand {
    /// The request that the command sends.
    pub closed spec fn request(&self) -> RequestView {
        self.0@
    }

    /// A simple string is the answer, and the status `OK` means that the
    /// password was accepted; a reply of any other shape is not what the
    /// command expects.
    pub open spec fn output(val: Response) -> Result<bool, CommandError> {
        match val {
            Response::SimpleString(text) => Ok(text@ == "OK"@),
            _ => Err(CommandError::Output("Unknown response", val)),
        }
    }
}

impl Command for AuthCommand {
    type Output = bool;

    fn to_request(self) -> (req: Request)
        ensures
            req@ == self.request(),
    {
        self.0
    }

    fn to_output(val: Response) -> (r: Result<bool, CommandError>)
        ensures
            r == Self::output(val),
    {
        match val {
            Response::SimpleString(text) => Ok(is_ok(&text)),
            _ => Err(CommandError::Output("Unknown response", val)),
        }
    }
}

} // verus!
