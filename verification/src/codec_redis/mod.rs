//! The frame-level values of the protocol and their mathematical models.
use vstd::prelude::*;

pub mod decimal;
pub mod decode;
pub mod encode;
pub mod laws;
pub mod wire;

pub use decode::Codec;

verus! {

/// An outbound frame value.
#[derive(Debug)]
pub enum Request {
    /// An ordered sequence of requests; the shape of every full command.
    Array(Vec<Request>),
    /// A binary-safe argument.
    BulkString(Vec<u8>),
    /// An integer argument, sent as its decimal text.
    BulkInteger(i64),
    /// A fixed token, such as a command name.
    StaticToken(&'static str),
    /// Raw text of a command that consists of a single token.
    Inline(String),
}

/// The model of a [`Request`].
pub enum RequestView {
    Array(Seq<RequestView>),
    BulkString(Seq<u8>),
    BulkInteger(i64),
    StaticToken(Seq<char>),
    Inline(Seq<char>),
}

/// An inbound frame value.
#[derive(Debug)]
pub enum Response {
    /// A `+` line.
    SimpleString(String),
    /// A `-` line: a failure reported by the server.
    Error(String),
    /// A `:` line.
    Integer(i64),
    /// A `$` frame; `None` is the protocol's Nil.
    Bulk(Option<Vec<u8>>),
    /// A `*` frame.
    Array(Vec<Response>),
}

/// The model of a [`Response`].
pub enum ResponseView {
    SimpleString(Seq<char>),
    Error(Seq<char>),
    Integer(i64),
    Bulk(Option<Seq<u8>>),
    Array(Seq<ResponseView>),
}

/// The model of a request, by recursion on its structure.
pub open spec fn request_view(req: Request) -> RequestView
    decreases req,
{
    match req {
        Request::Array(items) => RequestView::Array(
            Seq::new(
                items@.len(),
                |i: int|
                    if 0 <= i < items@.len() {
                        request_view(items@[i])
                    } else {
                        RequestView::BulkInteger(0)
                    },
            ),
        ),
        Request::BulkString(bytes) => RequestView::BulkString(bytes@),
        Request::BulkInteger(n) => RequestView::BulkInteger(n),
        Request::StaticToken(text) => RequestView::StaticToken(text@),
        Request::Inline(text) => RequestView::Inline(text@),
    }
}

/// The model of a response, by recursion on its structure.
pub open spec fn response_view(resp: Response) -> ResponseView
    decreases resp,
{
    match resp {
        Response::SimpleString(text) => ResponseView::SimpleString(text@),
        Response::Error(text) => ResponseView::Error(text@),
        Response::Integer(n) => ResponseView::Integer(n),
        Response::Bulk(Some(bytes)) => ResponseView::Bulk(Some(bytes@)),
        Response::Bulk(None) => ResponseView::Bulk(None),
        Response::Array(items) => ResponseView::Array(
            Seq::new(
                items@.len(),
                |i: int|
                    if 0 <= i < items@.len() {
                        response_view(items@[i])
                    } else {
                        ResponseView::Bulk(None)
                    },
            ),
        ),
    }
}

impl View for Request {
    type V = RequestView;

    open spec fn view(&self) -> RequestView {
        request_view(*self)
    }
}

impl View for Response {
    type V = ResponseView;

    open spec fn view(&self) -> ResponseView {
        response_view(*self)
    }
}

impl Request {
    /// The request that is the fixed token `text`.
    pub fn from_static(text: &'static str) -> (req: Request)
        ensures
            req == Request::StaticToken(text),
    {
        Request::StaticToken(text)
    }

    /// The request that is the single token `text`.
    pub fn inline(text: &str) -> (req: Request)
        ensures
            req@ == RequestView::Inline(text@),
    {
        Request::Inline(text.to_owned())
    }
}

impl Clone for Request {
    fn clone(&self) -> (res: Self)
        ensures
            res@ == self@,
        decreases *self,
    {
        match self {
            Request::Array(items) => {
                let mut copy: Vec<Request> = Vec::new();
                let mut i: usize = 0;
                while i < items.len()
                    invariant
                        *self == Request::Array(*items),
                        i <= items.len(),
                        copy@.len() == i,
                        forall|j: int| 0 <= j < i ==> (#[trigger] copy@[j])@ == items@[j]@,
                    decreases items.len() - i,
                {
                    assert(decreases_to!(*self => self->Array_0));
                    assert(decreases_to!(self->Array_0 => self->Array_0[i as int]));
                    assert(decreases_to!(*self => items[i as int]));
                    copy.push(items[i].clone());
                    i += 1;
                }
                let res = Request::Array(copy);
                proof {
                    assert(res@->Array_0 =~= self@->Array_0);
                }
                res
            },
            Request::BulkString(bytes) => Request::BulkString(bytes.clone()),
            Request::BulkInteger(n) => Request::BulkInteger(*n),
            Request::StaticToken(text) => Request::StaticToken(*text),
            Request::Inline(text) => Request::Inline(text.clone()),
        }
    }
}

impl Response {
    /// Separates what the server reported as a failure from every other
    /// reply: an error reply becomes `Err` with its text, and any other
    /// reply is handed on as it is.
    pub fn into_result(self) -> (r: Result<Response, String>)
        ensures
            r == self.as_result(),
    {
        match self {
            Response::Error(text) => Err(text),
            other => Ok(other),
        }
    }

    /// What [`Response::into_result`] returns.
    pub open spec fn as_result(self) -> Result<Response, String> {
        match self {
            Response::Error(text) => Err(text),
            other => Ok(other),
        }
    }
}

impl Clone for Response {
    fn clone(&self) -> (res: Self)
        ensures
            res@ == self@,
        decreases *self,
    {
        match self {
            Response::SimpleString(text) => Response::SimpleString(text.clone()),
            Response::Error(text) => Response::Error(text.clone()),
            Response::Integer(n) => Response::Integer(*n),
            Response::Bulk(Some(bytes)) => Response::Bulk(Some(bytes.clone())),
            Response::Bulk(None) => Response::Bulk(None),
            Response::Array(items) => {
                let mut copy: Vec<Response> = Vec::new();
                let mut i: usize = 0;
                while i < items.len()
                    invariant
                        *self == Response::Array(*items),
                        i <= items.len(),
                        copy@.len() == i,
                        forall|j: int| 0 <= j < i ==> (#[trigger] copy@[j])@ == items@[j]@,
                    decreases items.len() - i,
                {
                    assert(decreases_to!(*self => self->Array_0));
                    assert(decreases_to!(self->Array_0 => self->Array_0[i as int]));
                    assert(decreases_to!(*self => items[i as int]));
                    copy.push(items[i].clone());
                    i += 1;
                }
                let res = Response::Array(copy);
                proof {
                    assert(res@->Array_0 =~= self@->Array_0);
                }
                res
            }
        }
    }
}

} // verus!
