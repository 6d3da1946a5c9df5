//! Routing: which handler a request goes to, and what the server has to do
//! for it.

use crate::handlers::{echo_reply, echo_response, error_response, user_agent_reply, user_agent_request};
use crate::request::{lossy_text, parse_request, parse_text, parsed, Request, RequestView};
use crate::response::{bare, plain_empty, Response, ResponseView};
use crate::storage::{file_location, is_inside, location_of};
use crate::text::{same_text, starts_with};
use vstd::prelude::*;
use vstd::string::*;

verus! {

/// The handler that a request is routed to.
#[derive(Debug, Clone, Copy, PartialEq, Eq, Structural)]
pub enum Route {
    /// The root probe: status 200, nothing else.
    Root,
    /// The echo handler.
    Echo,
    /// The handler that replies with the client's identity.
    UserAgent,
    /// The handler that reads a stored file.
    FileRead,
    /// The handler that stores a file.
    FileWrite,
    /// A file path asked for with a method that is neither GET nor POST.
    MethodNotAllowed,
    /// No route matches the path.
    NotFound,
}

/// What the server has to do for a request.
#[derive(Debug, Clone, PartialEq, Eq)]
pub enum Action {
    /// Send this response.
    Respond(Response),
    /// Read the file at `location` and send what `get_file_response` makes
    /// of the outcome.
    ReadFile { location: String },
    /// Create or truncate the file at `location`, write `content` to it, and
    /// send what `post_file_response` makes of the outcome.
    WriteFile { location: String, content: String },
}

/// The mathematical value of an `Action`.
pub enum ActionView {
    Respond(ResponseView),
    ReadFile { location: Seq<char> },
    WriteFile { location: Seq<char>, content: Seq<char> },
}

impl View for Action {
    type V = ActionView;

    open spec fn view(&self) -> ActionView {
        match self {
            Action::Respond(response) => ActionView::Respond(response@),
            Action::ReadFile { location } => ActionView::ReadFile { location: location@ },
            Action::WriteFile { location, content } => ActionView::WriteFile {
                location: location@,
                content: content@,
            },
        }
    }
}

/// The routing table: the first row that matches decides.
pub open spec fn route_of(method: Seq<char>, path: Seq<char>) -> Route {
    if path == "/"@ {
        Route::Root
    } else if "/echo/"@.is_prefix_of(path) {
        Route::Echo
    } else if "/user-agent"@.is_prefix_of(path) {
        Route::UserAgent
    } else if "/files/"@.is_prefix_of(path) {
        if method == "GET"@ {
            Route::FileRead
        } else if method == "POST"@ {
            Route::FileWrite
        } else {
            Route::MethodNotAllowed
        }
    } else {
        Route::NotFound
    }
}

/// What the server has to do for `request`, with files stored under `directory`.
pub open spec fn planned(request: RequestView, directory: Seq<char>) -> ActionView {
    match route_of(request.method, request.path) {
        Route::Root => ActionView::Respond(bare(200)),
        Route::Echo => ActionView::Respond(echo_reply(request.path)),
        Route::UserAgent => ActionView::Respond(user_agent_reply(request.headers)),
        Route::FileRead => ActionView::ReadFile { location: location_of(directory, request.path) },
        Route::FileWrite => ActionView::WriteFile {
            location: location_of(directory, request.path),
            content: request.content,
        },
        Route::MethodNotAllowed => ActionView::Respond(plain_empty(405)),
        Route::NotFound => ActionView::Respond(bare(404)),
    }
}

/// What the server has to do for the request text `text`: what is planned
/// for the request it holds, or status 400 where it holds none.
pub open spec fn planned_for_text(text: Seq<char>, directory: Seq<char>) -> ActionView {
    match parsed(text) {
        Ok(request) => planned(request, directory),
        Err(_) => ActionView::Respond(plain_empty(400)),
    }
}

/// Whether `action` touches no file but one directly inside `directory`.
pub open spec fn confined(action: ActionView, directory: Seq<char>) -> bool {
    match action {
        ActionView::Respond(_) => true,
        ActionView::ReadFile { location } => is_inside(location, directory),
        ActionView::WriteFile { location, .. } => is_inside(location, directory),
    }
}

/// Selects the handler for `request`.
pub fn route(request: &Request) -> (r: Route)
    ensures
        r == route_of(request@.method, request@.path),
{
    let path = request.path.as_str();
    if same_text(path, "/") {
        Route::Root
    } else if starts_with(path, "/echo/") {
        Route::Echo
    } else if starts_with(path, "/user-agent") {
        Route::UserAgent
    } else if starts_with(path, "/files/") {
        let method = request.method.as_str();
        if same_text(method, "GET") {
            Route::FileRead
        } else if same_text(method, "POST") {
            Route::FileWrite
        } else {
            Route::MethodNotAllowed
        }
    } else {
        Route::NotFound
    }
}

/// Routes `request` and runs its handler as far as it goes without touching
/// the file system.
pub fn dispatch(request: Request, directory: &str) -> (action: Action)
    ensures
        action@ == planned(request@, directory@),
        confined(action@, directory@),
{
    match route(&request) {
        Route::Root => Action::Respond(Response::bare(200)),
        Route::Echo => Action::Respond(echo_response(&request)),
        Route::UserAgent => Action::Respond(user_agent_request(request)),
        Route::FileRead => Action::ReadFile {
            location: file_location(directory, request.path.as_str()),
        },
        Route::FileWrite => Action::WriteFile {
            location: file_location(directory, request.path.as_str()),
            content: request.content,
        },
        Route::MethodNotAllowed => Action::Respond(Response::plain_empty(405)),
        Route::NotFound => Action::Respond(Response::bare(404)),
    }
}

/// Parses the request text `text` and dispatches the request.
pub fn handle_text(text: &str, directory: &str) -> (action: Action)
    ensures
        action@ == planned_for_text(text@, directory@),
        confined(action@, directory@),
{
    match parse_text(text) {
        Ok(request) => dispatch(request, directory),
        Err(e) => Action::Respond(error_response(e)),
    }
}

/// Parses the first `message_length` bytes of the read buffer `buffer` and
/// dispatches the request.
pub fn handle_message(buffer: &[u8], message_length: usize, directory: &str) -> (action: Action)
    requires
        message_length <= buffer@.len(),
    ensures
        action@ == planned_for_text(
            lossy_text(buffer@.subrange(0, message_length as int)),
            directory@,
        ),
        confined(action@, directory@),
{
    match parse_request(buffer, message_length) {
        Ok(request) => dispatch(request, directory),
        Err(e) => Action::Respond(error_response(e)),
    }
}

} // verus!
