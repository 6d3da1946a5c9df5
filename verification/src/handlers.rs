//! The handlers: each builds the response for one kind of request.

use crate::headers::{find_header_value, header_value};
use crate::request::{Request, RequestError};
use crate::response::{carrying, plain_empty, Response, ResponseView};
use crate::text::{strip_prefix, texts, without_prefix};
use vstd::prelude::*;
use vstd::string::*;

verus! {

/// What reading a stored file came to.
#[derive(Debug, Clone, PartialEq, Eq)]
pub enum ReadOutcome {
    /// The file is there and these are its contents.
    Found(String),
    /// There is no such file.
    Missing,
    /// The file is there but could not be read.
    Failed,
}

/// The mathematical value of a `ReadOutcome`.
pub enum ReadOutcomeView {
    Found(Seq<char>),
    Missing,
    Failed,
}

impl View for ReadOutcome {
    type V = ReadOutcomeView;

    open spec fn view(&self) -> ReadOutcomeView {
        match self {
            ReadOutcome::Found(contents) => ReadOutcomeView::Found(contents@),
            ReadOutcome::Missing => ReadOutcomeView::Missing,
            ReadOutcome::Failed => ReadOutcomeView::Failed,
        }
    }
}

/// What storing a file came to.
#[derive(Debug, Clone, Copy, PartialEq, Eq, Structural)]
pub enum WriteOutcome {
    /// The file now holds the content.
    Stored,
    /// The file could not be created or written.
    Failed,
}

/// The reply to an echo request for `path`: what follows `/echo/`, as plain text.
pub open spec fn echo_reply(path: Seq<char>) -> ResponseView {
    carrying(200, "text/plain"@, without_prefix(path, "/echo/"@))
}

/// The reply to a request for the client's identity: the value of its
/// `User-Agent` header as plain text, or status 400 where it carries none.
pub open spec fn user_agent_reply(headers: Seq<Seq<char>>) -> ResponseView {
    match header_value(headers, "User-Agent"@) {
        Some(v) => carrying(200, "text/plain"@, v),
        None => plain_empty(400),
    }
}

/// The reply to a request for a stored file, by what the read came to: the
/// contents as a stream of octets with status 200, status 404 where there is
/// no such file, status 500 where it could not be read.
pub open spec fn read_reply(outcome: ReadOutcomeView) -> ResponseView {
    match outcome {
        ReadOutcomeView::Found(contents) => carrying(200, "application/octet-stream"@, contents),
        ReadOutcomeView::Missing => plain_empty(404),
        ReadOutcomeView::Failed => plain_empty(500),
    }
}

/// The reply to a request to store a file, by what the write came to: status
/// 201 where the file was stored, status 500 where it was not.
pub open spec fn write_reply(outcome: WriteOutcome) -> ResponseView {
    match outcome {
        WriteOutcome::Stored => plain_empty(201),
        WriteOutcome::Failed => plain_empty(500),
    }
}

/// Echoes what follows `/echo/` in the path of `message`.
pub fn echo_response(message: &Request) -> (r: Response)
    ensures
        r@ == echo_reply(message@.path),
{
    let value = strip_prefix(message.path.as_str(), "/echo/");
    Response::carrying(200, "text/plain", value.to_owned())
}

/// The value of the `User-Agent` header among `headers`.
pub fn user_agent(headers: &Vec<String>) -> (r: Result<String, RequestError>)
    ensures
        match r {
            Ok(v) => header_value(texts(headers@), "User-Agent"@) == Some(v@),
            Err(e) => e == RequestError::MissingHeader && header_value(
                texts(headers@),
                "User-Agent"@,
            ) is None,
        },
{
    match find_header_value(headers, "User-Agent") {
        Some(v) => Ok(v),
        None => Err(RequestError::MissingHeader),
    }
}

/// The reply to a request that could not be served because of `error`:
/// status 400 with an empty body, whatever the error.
pub fn error_response(error: RequestError) -> (r: Response)
    ensures
        r@ == plain_empty(400),
{
    Response::plain_empty(400)
}

/// Replies with the client's `User-Agent`.
pub fn user_agent_request(message: Request) -> (r: Response)
    ensures
        r@ == user_agent_reply(message@.headers),
{
    match user_agent(&message.headers) {
        Ok(v) => Response::carrying(200, "text/plain", v),
        Err(e) => error_response(e),
    }
}

/// The reply to a request for a stored file, once the read has been tried.
pub fn get_file_response(outcome: ReadOutcome) -> (r: Response)
    ensures
        r@ == read_reply(outcome@),
{
    match outcome {
        ReadOutcome::Found(contents) => Response::carrying(200, "application/octet-stream", contents),
        ReadOutcome::Missing => Response::plain_empty(404),
        ReadOutcome::Failed => Response::plain_empty(500),
    }
}

/// The reply to a request to store a file, once the write has been tried.
pub fn post_file_response(outcome: WriteOutcome) -> (r: Response)
    ensures
        r@ == write_reply(outcome),
{
    match outcome {
        WriteOutcome::Stored => Response::plain_empty(201),
        WriteOutcome::Failed => Response::plain_empty(500),
    }
}

} // verus!
