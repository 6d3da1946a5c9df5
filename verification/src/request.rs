//! The request as the handlers see it, and the parser that builds it from
//! the bytes of one read.

use crate::headers::{declared_length, read_declared_length};
use crate::lines::{
    lemma_lines_free_of_line_feed, lemma_words_are_words, lines, split_lines, split_words, words,
};
use crate::text::{
    byte_len, free_of, is_word, lemma_utf8_prefix, texts, truncate_utf8, utf8_prefix,
};
use vstd::prelude::*;
use vstd::slice::slice_subrange;
use vstd::string::*;
use vstd::utf8::{decode_utf8, valid_utf8};

verus! {

/// Why a request could not be served as asked.
#[derive(Debug, Clone, Copy, PartialEq, Eq, Structural)]
pub enum RequestError {
    /// The first line holds fewer than three words.
    MalformedRequestLine,
    /// A header that the route needs is not there.
    MissingHeader,
}

/// One parsed request.
#[derive(Debug, Clone, PartialEq, Eq)]
pub struct Request {
    /// First word of the request line.
    pub method: String,
    /// Header lines, verbatim and in the order received.
    pub headers: Vec<String>,
    /// Second word of the request line, not decoded.
    pub path: String,
    /// Third word of the request line, not validated.
    pub http_version: String,
    /// What followed the blank line, cut to the length that the headers
    /// declare; empty if they declare none.
    pub content: String,
}

/// The mathematical value of a `Request`.
pub struct RequestView {
    pub method: Seq<char>,
    pub headers: Seq<Seq<char>>,
    pub path: Seq<char>,
    pub http_version: Seq<char>,
    pub content: Seq<char>,
}

impl View for Request {
    type V = RequestView;

    open spec fn view(&self) -> RequestView {
        RequestView {
            method: self.method@,
            headers: texts(self.headers@),
            path: self.path@,
            http_version: self.http_version@,
            content: self.content@,
        }
    }
}

impl RequestView {
    /// What holds of every request that the parser builds, and of no other:
    /// method, path and version are words; no header line is blank or holds
    /// a line feed; the content holds no line feed and is empty unless the
    /// headers declare a length, which then bounds it.
    pub open spec fn well_formed(self) -> bool {
        &&& is_word(self.method)
        &&& is_word(self.path)
        &&& is_word(self.http_version)
        &&& forall|i: int|
            0 <= i < self.headers.len() ==> (#[trigger] self.headers[i]).len() > 0 && free_of(
                self.headers[i],
                '\n',
            )
        &&& free_of(self.content, '\n')
        &&& match declared_length(self.headers) {
            Some(n) => byte_len(self.content) <= n,
            None => self.content.len() == 0,
        }
    }
}

/// Index of the first empty line of `ls`, or `ls.len()` if there is none.
pub open spec fn blank_index(ls: Seq<Seq<char>>) -> nat
    decreases ls.len(),
{
    if ls.len() == 0 || ls[0].len() == 0 {
        0
    } else {
        1 + blank_index(ls.drop_first())
    }
}

/// The lines of `ls` one after another, with nothing between them.
pub open spec fn joined(ls: Seq<Seq<char>>) -> Seq<char>
    decreases ls.len(),
{
    if ls.len() == 0 {
        Seq::empty()
    } else {
        joined(ls.drop_last()) + ls.last()
    }
}

/// The header lines among `ls`, the lines after the request line: those
/// before the first empty line.
pub open spec fn header_lines(ls: Seq<Seq<char>>) -> Seq<Seq<char>> {
    ls.take(blank_index(ls) as int)
}

/// The body lines among `ls`: those after the first empty line.
pub open spec fn body_lines(ls: Seq<Seq<char>>) -> Seq<Seq<char>> {
    if blank_index(ls) < ls.len() {
        ls.skip(blank_index(ls) as int + 1)
    } else {
        Seq::empty()
    }
}

/// The content captured from the lines after the request line: the body
/// lines joined and cut to the declared length, or nothing where the headers
/// declare none.
pub open spec fn captured_content(ls: Seq<Seq<char>>) -> Seq<char> {
    match declared_length(header_lines(ls)) {
        Some(n) => utf8_prefix(joined(body_lines(ls)), n as nat),
        None => Seq::empty(),
    }
}

/// The request that `text` holds, or the reason why it holds none.
pub open spec fn parsed(text: Seq<char>) -> Result<RequestView, RequestError> {
    let ls = lines(text);
    if ls.len() == 0 || words(ls[0]).len() < 3 {
        Err(RequestError::MalformedRequestLine)
    } else {
        let first = words(ls[0]);
        let rest = ls.skip(1);
        Ok(
            RequestView {
                method: first[0],
                headers: header_lines(rest),
                path: first[1],
                http_version: first[2],
                content: captured_content(rest),
            },
        )
    }
}

/// `blank_index(ls)` is the only index that has no empty line before it and
/// is either the end of `ls` or an empty line.
pub proof fn lemma_blank_index(ls: Seq<Seq<char>>, i: int)
    requires
        0 <= i <= ls.len(),
        forall|j: int| 0 <= j < i ==> (#[trigger] ls[j]).len() > 0,
        i < ls.len() ==> ls[i].len() == 0,
    ensures
        blank_index(ls) == i,
    decreases ls.len(),
{
    if i > 0 {
        let rest = ls.drop_first();
        assert forall|j: int| 0 <= j < i - 1 implies (#[trigger] rest[j]).len() > 0 by {
            assert(rest[j] == ls[j + 1]);
        }
        lemma_blank_index(rest, i - 1);
    }
}

/// `blank_index(ls)` lies within `ls` and has no empty line before it.
pub proof fn lemma_blank_index_bounds(ls: Seq<Seq<char>>)
    ensures
        blank_index(ls) <= ls.len(),
        forall|j: int| 0 <= j < blank_index(ls) ==> (#[trigger] ls[j]).len() > 0,
        blank_index(ls) < ls.len() ==> ls[blank_index(ls) as int].len() == 0,
    decreases ls.len(),
{
    if !(ls.len() == 0 || ls[0].len() == 0) {
        let rest = ls.drop_first();
        lemma_blank_index_bounds(rest);
        assert forall|j: int| 0 <= j < blank_index(ls) implies (#[trigger] ls[j]).len() > 0 by {
            if j > 0 {
                assert(ls[j] == rest[j - 1]);
            }
        }
    }
}

/// Every request that `parsed` yields is well formed.
pub proof fn lemma_parsed_well_formed(text: Seq<char>)
    ensures
        parsed(text) matches Ok(request) ==> request.well_formed(),
{
    if let Ok(request) = parsed(text) {
        let ls = lines(text);
        let rest = ls.skip(1);
        lemma_words_are_words(ls[0]);
        lemma_lines_free_of_line_feed(text);
        lemma_blank_index_bounds(rest);
        assert forall|i: int| 0 <= i < request.headers.len() implies (
        #[trigger] request.headers[i]).len() > 0 && free_of(request.headers[i], '\n') by {
            assert(request.headers[i] == rest[i]);
            assert(rest[i] == ls[i + 1]);
        }
        if let Some(n) = declared_length(request.headers) {
            let body = body_lines(rest);
            assert forall|i: int| 0 <= i < body.len() implies free_of(#[trigger] body[i], '\n') by {
                assert(body[i] == ls[blank_index(rest) + 2 + i]);
            }
            lemma_joined_free_of(body, '\n');
            lemma_utf8_prefix(joined(body), n as nat);
        }
    }
}

/// Joining lines that are free of `c` gives a text that is free of `c`.
pub proof fn lemma_joined_free_of(ls: Seq<Seq<char>>, c: char)
    requires
        forall|i: int| 0 <= i < ls.len() ==> free_of(#[trigger] ls[i], c),
    ensures
        free_of(joined(ls), c),
    decreases ls.len(),
{
    if ls.len() > 0 {
        let init = ls.drop_last();
        assert forall|i: int| 0 <= i < init.len() implies free_of(#[trigger] init[i], c) by {
            assert(init[i] == ls[i]);
        }
        lemma_joined_free_of(init, c);
        assert(free_of(ls.last(), c));
    }
}

/// Parses the text of one request.
pub fn parse_text(text: &str) -> (r: Result<Request, RequestError>)
    ensures
        match r {
            Ok(request) => parsed(text@) == Ok::<RequestView, RequestError>(request@)
                && request@.well_formed(),
            Err(e) => parsed(text@) == Err::<RequestView, RequestError>(e),
        },
{
    let ls = split_lines(text);
    if ls.len() == 0 {
        return Err(RequestError::MalformedRequestLine);
    }
    assert(texts(ls@)[0] == ls@[0]@);
    let first = split_words(ls[0].as_str());
    if first.len() < 3 {
        return Err(RequestError::MalformedRequestLine);
    }
    let ghost rest = lines(text@).skip(1);
    let mut headers: Vec<String> = Vec::new();
    let mut i: usize = 1;
    while i < ls.len() && !ls[i].as_str().is_empty()
        invariant
            1 <= i <= ls.len(),
            texts(ls@) == lines(text@),
            rest == lines(text@).skip(1),
            texts(headers@) == rest.take(i - 1),
            forall|j: int| 0 <= j < i - 1 ==> (#[trigger] rest[j]).len() > 0,
        decreases ls.len() - i,
    {
        let ghost before = texts(headers@);
        headers.push(ls[i].clone());
        proof {
            assert(texts(ls@)[i as int] == ls@[i as int]@);
            assert(rest[i - 1] == lines(text@)[i as int]);
            assert(texts(headers@) =~= before.push(rest[i - 1]));
            assert(before.push(rest[i - 1]) =~= rest.take(i as int));
        }
        i += 1;
    }
    proof {
        if i < ls.len() {
            assert(texts(ls@)[i as int] == ls@[i as int]@);
            assert(rest[i - 1] == lines(text@)[i as int]);
        }
        lemma_blank_index(rest, i - 1);
    }
    let mut content = String::new();
    if let Some(limit) = read_declared_length(&headers) {
        let mut j: usize = if i < ls.len() {
            i + 1
        } else {
            i
        };
        let ghost body = body_lines(rest);
        let ghost base = j;
        assert(body =~= lines(text@).skip(j as int));
        assert(body.take(0) =~= Seq::<Seq<char>>::empty());
        while j < ls.len()
            invariant
                base <= j <= ls.len(),
                texts(ls@) == lines(text@),
                body == lines(text@).skip(base as int),
                content@ == joined(body.take(j - base)),
            decreases ls.len() - j,
        {
            content.append(ls[j].as_str());
            proof {
                assert(texts(ls@)[j as int] == ls@[j as int]@);
                let next = body.take(j - base + 1);
                assert(next.drop_last() =~= body.take(j - base));
                assert(next.last() == ls@[j as int]@);
            }
            j += 1;
        }
        assert(body.take(j - base) =~= body);
        content = truncate_utf8(content.as_str(), limit).to_owned();
    }
    let request = Request {
        method: first[0].clone(),
        headers,
        path: first[1].clone(),
        http_version: first[2].clone(),
        content,
    };
    proof {
        assert(texts(first@)[0] == first@[0]@);
        assert(texts(first@)[1] == first@[1]@);
        assert(texts(first@)[2] == first@[2]@);
        lemma_parsed_well_formed(text@);
    }
    Ok(request)
}

/// The text that a lossy UTF-8 decoding makes of `bytes`: the decoded text
/// where `bytes` are valid UTF-8, and otherwise that text with a replacement
/// character in place of each invalid sequence.
pub uninterp spec fn lossy_text(bytes: Seq<u8>) -> Seq<char>;

/// Decodes `bytes` with `String::from_utf8_lossy`. Trusted, not proved: the
/// result depends on the bytes alone and, for valid UTF-8, is the decoded
/// text. Nothing else is claimed of it.
#[verifier::external_body]
fn decode_lossy(bytes: &[u8]) -> (text: String)
    ensures
        text@ == lossy_text(bytes@),
        valid_utf8(bytes@) ==> text@ == decode_utf8(bytes@),
{
    String::from_utf8_lossy(bytes).into_owned()
}

/// Parses the first `message_length` bytes of the read buffer `request`.
pub fn parse_request(request: &[u8], message_length: usize) -> (r: Result<Request, RequestError>)
    requires
        message_length <= request@.len(),
    ensures
        match r {
            Ok(req) => parsed(lossy_text(request@.subrange(0, message_length as int))) == Ok::<
                RequestView,
                RequestError,
            >(req@) && req@.well_formed(),
            Err(e) => parsed(lossy_text(request@.subrange(0, message_length as int))) == Err::<
                RequestView,
                RequestError,
            >(e),
        },
{
    let text = decode_lossy(slice_subrange(request, 0, message_length));
    parse_text(text.as_str())
}

} // verus!
