//! The response that a handler builds, and its exact form on the wire.

use crate::decimal::{decimal, decimal_string};
use crate::text::{byte_len, texts};
use vstd::prelude::*;
use vstd::string::*;
use vstd::utf8::encode_utf8;

verus! {

/// One response: a status code, header lines in the order they are sent, and
/// a body.
#[derive(Debug, Clone, PartialEq, Eq)]
pub struct Response {
    pub status_code: u16,
    pub headers: Vec<String>,
    pub body: String,
}

/// The mathematical value of a `Response`.
pub struct ResponseView {
    pub status_code: u16,
    pub headers: Seq<Seq<char>>,
    pub body: Seq<char>,
}

impl View for Response {
    type V = ResponseView;

    open spec fn view(&self) -> ResponseView {
        ResponseView {
            status_code: self.status_code,
            headers: texts(self.headers@),
            body: self.body@,
        }
    }
}

/// The header lines as sent: each followed by CR LF.
pub open spec fn header_block(headers: Seq<Seq<char>>) -> Seq<char>
    decreases headers.len(),
{
    if headers.len() == 0 {
        Seq::empty()
    } else {
        header_block(headers.drop_last()) + headers.last() + "\r\n"@
    }
}

/// The header line that declares a body of `n` bytes.
pub open spec fn content_length_line(n: nat) -> Seq<char> {
    "Content-Length: "@ + decimal(n)
}

/// The header line that declares the media type `media`.
pub open spec fn content_type_line(media: Seq<char>) -> Seq<char> {
    "Content-Type: "@ + media
}

/// The response with status `status`, no header and no body.
pub open spec fn bare(status: u16) -> ResponseView {
    ResponseView { status_code: status, headers: Seq::empty(), body: Seq::empty() }
}

/// The response with status `status` that carries `body` as `media`, with its
/// type and its length in bytes declared, in that order.
pub open spec fn carrying(status: u16, media: Seq<char>, body: Seq<char>) -> ResponseView {
    ResponseView {
        status_code: status,
        headers: seq![content_type_line(media), content_length_line(byte_len(body))],
        body,
    }
}

/// The response with status `status` and an empty plain-text body, declared
/// as such.
pub open spec fn plain_empty(status: u16) -> ResponseView {
    carrying(status, "text/plain"@, Seq::empty())
}

impl ResponseView {
    /// The response as text: the status line, the header lines, a blank line
    /// and the body, with nothing after it.
    pub open spec fn wire_text(self) -> Seq<char> {
        "HTTP/1.1 "@ + decimal(self.status_code as nat) + "\r\n"@ + header_block(self.headers)
            + "\r\n"@ + self.body
    }

    /// The response as the bytes that go on the wire.
    pub open spec fn wire_bytes(self) -> Seq<u8> {
        encode_utf8(self.wire_text())
    }
}

impl Response {
    /// The response with status `status`, no header and no body.
    pub fn bare(status: u16) -> (r: Response)
        ensures
            r@ == bare(status),
    {
        let r = Response { status_code: status, headers: Vec::new(), body: String::new() };
        assert(texts(r.headers@) =~= Seq::<Seq<char>>::empty());
        r
    }

    /// The response with status `status` that carries `body` as `media`.
    pub fn carrying(status: u16, media: &str, body: String) -> (r: Response)
        ensures
            r@ == carrying(status, media@, body@),
    {
        let length = body.as_str().as_bytes().len();
        let type_line = String::from_str("Content-Type: ").concat(media);
        let length_line = String::from_str("Content-Length: ").concat(
            decimal_string(length).as_str(),
        );
        let mut headers: Vec<String> = Vec::new();
        headers.push(type_line);
        headers.push(length_line);
        let r = Response { status_code: status, headers, body };
        assert(texts(r.headers@) =~= seq![
            content_type_line(media@),
            content_length_line(byte_len(body@)),
        ]);
        r
    }

    /// The response with status `status` and an empty plain-text body.
    pub fn plain_empty(status: u16) -> (r: Response)
        ensures
            r@ == plain_empty(status),
    {
        Response::carrying(status, "text/plain", String::new())
    }

    /// The response as text, exactly as it is sent.
    pub fn to_string(&self) -> (s: String)
        ensures
            s@ == self@.wire_text(),
    {
        let mut s = String::from_str("HTTP/1.1 ");
        s.append(decimal_string(self.status_code as usize).as_str());
        s.append("\r\n");
        let ghost head = s@;
        let mut i: usize = 0;
        assert(texts(self.headers@).take(0) =~= Seq::<Seq<char>>::empty());
        while i < self.headers.len()
            invariant
                i <= self.headers.len(),
                s@ == head + header_block(texts(self.headers@).take(i as int)),
            decreases self.headers.len() - i,
        {
            s.append(self.headers[i].as_str());
            s.append("\r\n");
            proof {
                let next = texts(self.headers@).take(i + 1);
                assert(next.drop_last() =~= texts(self.headers@).take(i as int));
                assert(next.last() == self.headers@[i as int]@);
                assert(s@ =~= head + header_block(next));
            }
            i += 1;
        }
        assert(texts(self.headers@).take(i as int) =~= texts(self.headers@));
        s.append("\r\n");
        s.append(self.body.as_str());
        assert(s@ =~= self@.wire_text());
        s
    }

    /// The response as the bytes that go on the wire.
    pub fn into_bytes(self) -> (bytes: Vec<u8>)
        ensures
            bytes@ == self@.wire_bytes(),
    {
        self.to_string().as_str().as_bytes_vec()
    }
}

} // verus!
