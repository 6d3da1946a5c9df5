//! The protocol layer of a minimal HTTP/1.1 server: it parses the bytes of
//! one request, routes the request to one of a few handlers, and writes the
//! response in its exact wire form.
//!
//! The library touches neither sockets nor files. For a file route it says
//! which file is to be read or written (`router::Action`), and builds the
//! response from what the caller reports back.
//!
//! Everything here is verified against its contract, with two exceptions
//! that call code Verus cannot see and whose contracts are taken on trust:
//! the lossy UTF-8 decoding in `request` and the file name sanitizer in
//! `storage`.

pub mod decimal;
pub mod handlers;
pub mod headers;
pub mod lines;
pub mod request;
pub mod response;
pub mod router;
pub mod storage;
pub mod text;
pub mod theorems;

pub use handlers::{
    echo_response, error_response, get_file_response, post_file_response, user_agent,
    user_agent_request, ReadOutcome, WriteOutcome,
};
pub use request::{parse_request, parse_text, Request, RequestError};
pub use response::Response;
pub use router::{dispatch, handle_message, handle_text, route, Action, Route};
pub use storage::{file_location, join_location};
