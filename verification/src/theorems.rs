//! What holds of the server as a whole, proved from the definitions that the
//! contracts of the handlers and the router are stated in.

use crate::decimal::{decimal, lemma_decimal_round_trip};
use crate::handlers::{read_reply, user_agent_reply, write_reply, ReadOutcomeView, WriteOutcome};
use crate::headers::{declared_length, header_value, lemma_header_index, line_value};
use crate::lines::{lemma_lines_after_line, lemma_words_after_word, lines, words};
use crate::request::{
    body_lines, captured_content, header_lines, joined, lemma_blank_index, parsed, RequestError,
    RequestView,
};
use crate::response::{
    bare, carrying, content_length_line, content_type_line, header_block, plain_empty,
    ResponseView,
};
use crate::router::{planned, planned_for_text, route_of, ActionView, Route};
use crate::storage::{file_name, location_of};
use crate::text::{
    blank_run, byte_len, free_of, is_whitespace, is_word, lemma_blank_run_bounds, lemma_position,
    trimmed,
};
use vstd::prelude::*;

verus! {

/// The files of a storage directory, by location: a model of a file system on
/// which every write succeeds and every read returns what was last written.
/// The theorems on stored files are stated of this model; what a real file
/// system does is outside the library.
pub type Store = Map<Seq<char>, Seq<char>>;

/// The store and the response after `request` has been served on `store`.
pub open spec fn served(store: Store, request: RequestView, directory: Seq<char>) -> (
    Store,
    ResponseView,
) {
    match planned(request, directory) {
        ActionView::Respond(response) => (store, response),
        ActionView::ReadFile { location } => if store.contains_key(location) {
            (store, read_reply(ReadOutcomeView::Found(store[location])))
        } else {
            (store, read_reply(ReadOutcomeView::Missing))
        },
        ActionView::WriteFile { location, content } => (
            store.insert(location, content),
            write_reply(WriteOutcome::Stored),
        ),
    }
}

/// Whether `path` is a file path: `/files/` and then a name.
pub open spec fn is_file_path(path: Seq<char>) -> bool {
    "/files/"@.is_prefix_of(path)
}

/// A file path is routed by its method alone.
proof fn lemma_file_route(method: Seq<char>, path: Seq<char>)
    requires
        is_file_path(path),
    ensures
        method == "GET"@ ==> route_of(method, path) == Route::FileRead,
        method == "POST"@ ==> route_of(method, path) == Route::FileWrite,
        method != "GET"@ && method != "POST"@ ==> route_of(method, path)
            == Route::MethodNotAllowed,
{
    reveal_strlit("/");
    reveal_strlit("/echo/");
    reveal_strlit("/user-agent");
    reveal_strlit("/files/");
    reveal_strlit("GET");
    reveal_strlit("POST");
    assert(path[1] == path.subrange(0, "/files/"@.len() as int)[1]);
    assert("/echo/"@[1] == 'e');
    assert("/user-agent"@[1] == 'u');
    assert("GET"@[0] != "POST"@[0]);
}

/// Any request for `/` is answered with status 200, no header and an empty
/// body, whatever its method.
pub proof fn theorem_root(request: RequestView, directory: Seq<char>)
    requires
        request.path == "/"@,
    ensures
        planned(request, directory) == ActionView::Respond(bare(200)),
        bare(200).status_code == 200,
        bare(200).body.len() == 0,
{
}

/// A request for `/echo/` followed by `s` is answered with status 200, the
/// byte length of `s` as its `Content-Length`, and `s` itself as its body,
/// whatever its method.
pub proof fn theorem_echo(request: RequestView, directory: Seq<char>, s: Seq<char>)
    requires
        request.path == "/echo/"@ + s,
    ensures
        planned(request, directory) == ActionView::Respond(carrying(200, "text/plain"@, s)),
        carrying(200, "text/plain"@, s).status_code == 200,
        carrying(200, "text/plain"@, s).headers == seq![
            content_type_line("text/plain"@),
            content_length_line(byte_len(s)),
        ],
        carrying(200, "text/plain"@, s).body == s,
{
    reveal_strlit("/");
    reveal_strlit("/echo/");
    let prefix = "/echo/"@;
    assert(request.path.subrange(0, prefix.len() as int) =~= prefix);
    assert(request.path.skip(prefix.len() as int) =~= s);
    assert(request.path.len() >= 6);
}

/// Whitespace before `v` does not change what remains after trimming.
proof fn lemma_trimmed_after_space(v: Seq<char>)
    ensures
        trimmed(seq![' '] + v) == trimmed(v),
{
    let s = seq![' '] + v;
    assert(s.drop_first() =~= v);
    lemma_blank_run_bounds(v);
    assert(s.skip(blank_run(s) as int) =~= v.skip(blank_run(v) as int));
}

/// Where the first header line that starts with `User-Agent` is
/// `User-Agent: ` followed by `v`, the reply with the client's identity has
/// status 200 and, as its body, `v` without the whitespace around it.
pub proof fn theorem_user_agent(headers: Seq<Seq<char>>, i: int, v: Seq<char>)
    requires
        0 <= i < headers.len(),
        headers[i] == "User-Agent: "@ + v,
        forall|j: int| 0 <= j < i ==> !"User-Agent"@.is_prefix_of(#[trigger] headers[j]),
    ensures
        user_agent_reply(headers) == carrying(200, "text/plain"@, trimmed(v)),
        user_agent_reply(headers).status_code == 200,
        user_agent_reply(headers).body == trimmed(v),
{
    reveal_strlit("User-Agent");
    reveal_strlit("User-Agent: ");
    let name = "User-Agent"@;
    let line = headers[i];
    assert(line.subrange(0, name.len() as int) =~= name);
    lemma_header_index(headers, name, i);
    lemma_position(line, ':', 10);
    assert(line.skip(11) =~= seq![' '] + v);
    lemma_trimmed_after_space(v);
    assert(line_value(line) == Some(trimmed(v)));
    assert(header_value(headers, name) == Some(trimmed(v)));
}

/// A request whose path starts with `/user-agent` is answered with the
/// reply that carries the client's identity, whatever its method.
pub proof fn theorem_user_agent_route(request: RequestView, directory: Seq<char>)
    requires
        "/user-agent"@.is_prefix_of(request.path),
    ensures
        planned(request, directory) == ActionView::Respond(user_agent_reply(request.headers)),
{
    reveal_strlit("/");
    reveal_strlit("/echo/");
    reveal_strlit("/user-agent");
    assert(request.path[1] == request.path.subrange(0, "/user-agent"@.len() as int)[1]);
}

/// A request whose path is not `/` and starts with none of `/echo/`,
/// `/user-agent` and `/files/` is answered with status 404, no header and an
/// empty body.
pub proof fn theorem_unmatched_path(request: RequestView, directory: Seq<char>)
    requires
        request.path != "/"@,
        !"/echo/"@.is_prefix_of(request.path),
        !"/user-agent"@.is_prefix_of(request.path),
        !"/files/"@.is_prefix_of(request.path),
    ensures
        planned(request, directory) == ActionView::Respond(bare(404)),
        bare(404).status_code == 404,
        bare(404).body.len() == 0,
{
}

/// A file that was stored is served back: after a POST of `post.content` to a
/// file path whose name is not empty, a GET of the same path is answered with
/// status 200 and exactly that content.
pub proof fn theorem_store_then_fetch(
    store: Store,
    directory: Seq<char>,
    post: RequestView,
    get: RequestView,
)
    requires
        is_file_path(post.path),
        file_name(post.path).len() > 0,
        post.method == "POST"@,
        get.method == "GET"@,
        get.path == post.path,
    ensures
        served(served(store, post, directory).0, get, directory).1.status_code == 200,
        served(served(store, post, directory).0, get, directory).1.body == post.content,
        served(store, post, directory).1 == plain_empty(201),
{
    lemma_file_route(post.method, post.path);
    lemma_file_route(get.method, get.path);
}

/// A file that was never stored is not found: a GET of a file path whose
/// location holds nothing is answered with status 404 and an empty body.
pub proof fn theorem_fetch_missing(store: Store, directory: Seq<char>, get: RequestView)
    requires
        is_file_path(get.path),
        get.method == "GET"@,
        !store.contains_key(location_of(directory, get.path)),
    ensures
        served(store, get, directory).1.status_code == 404,
        served(store, get, directory).1.body.len() == 0,
        served(store, get, directory).0 == store,
{
    lemma_file_route(get.method, get.path);
}

/// Storing replaces: after two POSTs to one file path, a GET of that path is
/// answered with the content of the second, and nothing of the first.
pub proof fn theorem_store_twice_then_fetch(
    store: Store,
    directory: Seq<char>,
    first: RequestView,
    second: RequestView,
    get: RequestView,
)
    requires
        is_file_path(first.path),
        first.method == "POST"@,
        second.method == "POST"@,
        second.path == first.path,
        get.method == "GET"@,
        get.path == first.path,
    ensures
        ({
            let after_first = served(store, first, directory).0;
            let after_second = served(after_first, second, directory).0;
            let reply = served(after_second, get, directory).1;
            reply.status_code == 200 && reply.body == second.content
        }),
{
    lemma_file_route(first.method, first.path);
    lemma_file_route(second.method, second.path);
    lemma_file_route(get.method, get.path);
}

/// The request line of `request`: its method, path and version with one
/// space between them.
pub open spec fn request_line(request: RequestView) -> Seq<char> {
    request.method + seq![' '] + request.path + seq![' '] + request.http_version
}

/// The text of `request` as a client sends it: the request line, the header
/// lines and a blank line, each ended by CR LF, and then the content.
pub open spec fn request_text(request: RequestView) -> Seq<char> {
    request_line(request) + seq!['\r', '\n'] + header_block(request.headers) + seq!['\r', '\n']
        + request.content
}

/// The words of a request line are its method, its path and its version.
proof fn lemma_request_line_words(request: RequestView)
    requires
        is_word(request.method),
        is_word(request.path),
        is_word(request.http_version),
    ensures
        words(request_line(request)) == seq![request.method, request.path, request.http_version],
        free_of(request_line(request), '\n'),
{
    let m = request.method;
    let p = request.path;
    let v = request.http_version;
    let after_m = seq![' '] + p + seq![' '] + v;
    let after_p = seq![' '] + v;
    assert(is_whitespace(' '));
    assert(request_line(request) =~= m + after_m);
    lemma_words_after_word(m, after_m);
    assert(after_m.drop_first() =~= p + after_p);
    lemma_words_after_word(p, after_p);
    assert(after_p.drop_first() =~= v);
    assert(v =~= v + Seq::<char>::empty());
    lemma_words_after_word(v, Seq::<char>::empty());
    assert(words(request_line(request)) =~= seq![m, p, v]);
}

/// Header lines sent one after another, each ended by CR LF, are read back
/// as they were, before the lines of what follows them.
proof fn lemma_lines_after_headers(headers: Seq<Seq<char>>, rest: Seq<char>)
    requires
        forall|i: int| 0 <= i < headers.len() ==> free_of(#[trigger] headers[i], '\n'),
    ensures
        lines(header_block(headers) + rest) == headers + lines(rest),
    decreases headers.len(),
{
    reveal_strlit("\r\n");
    if headers.len() == 0 {
        assert(header_block(headers) + rest =~= rest);
        assert(headers + lines(rest) =~= lines(rest));
    } else {
        let init = headers.drop_last();
        let last = headers.last();
        let tail = last + seq!['\r', '\n'] + rest;
        assert forall|i: int| 0 <= i < init.len() implies free_of(#[trigger] init[i], '\n') by {
            assert(init[i] == headers[i]);
        }
        lemma_lines_after_headers(init, tail);
        lemma_lines_after_line(last, rest);
        assert("\r\n"@ =~= seq!['\r', '\n']);
        assert(header_block(headers) + rest =~= header_block(init) + tail);
        assert(init + (seq![last] + lines(rest)) =~= headers + lines(rest));
    }
}

/// A text without a line feed is one line, or none if it is empty.
proof fn lemma_lines_of_one_line(s: Seq<char>)
    requires
        free_of(s, '\n'),
    ensures
        joined(lines(s)) == s,
{
    if s.len() > 0 {
        lemma_position(s, '\n', s.len() as int);
        let one = seq![s];
        assert(lines(s) == one);
        assert(one.drop_last() =~= Seq::<Seq<char>>::empty());
        assert(joined(one.drop_last()) =~= Seq::<char>::empty());
        assert(joined(one) =~= s);
    }
}

/// The lines of a request as sent: the request line, the header lines, a
/// blank line, and the lines of the content.
proof fn lemma_request_text_lines(request: RequestView)
    requires
        free_of(request_line(request), '\n'),
        forall|i: int|
            0 <= i < request.headers.len() ==> free_of(#[trigger] request.headers[i], '\n'),
    ensures
        lines(request_text(request)) == seq![request_line(request)] + (request.headers + (
            seq![Seq::<char>::empty()] + lines(request.content))),
{
    let line = request_line(request);
    let blank = Seq::<char>::empty();
    let after_headers = seq!['\r', '\n'] + request.content;
    let after_line = header_block(request.headers) + after_headers;
    assert(request_text(request) =~= line + seq!['\r', '\n'] + after_line);
    lemma_lines_after_line(line, after_line);
    lemma_lines_after_headers(request.headers, after_headers);
    assert(after_headers =~= blank + seq!['\r', '\n'] + request.content);
    lemma_lines_after_line(blank, request.content);
}

/// Among header lines followed by a blank line and body lines, the header
/// lines and the body lines are found again.
proof fn lemma_split_at_blank(headers: Seq<Seq<char>>, body: Seq<Seq<char>>)
    requires
        forall|i: int| 0 <= i < headers.len() ==> (#[trigger] headers[i]).len() > 0,
    ensures
        header_lines(headers + (seq![Seq::<char>::empty()] + body)) == headers,
        body_lines(headers + (seq![Seq::<char>::empty()] + body)) == body,
{
    let rest = headers + (seq![Seq::<char>::empty()] + body);
    lemma_blank_index(rest, headers.len() as int);
    assert(rest.take(headers.len() as int) =~= headers);
    assert(rest.skip(headers.len() as int + 1) =~= body);
}

/// Header lines, a blank line and the lines of the content, read as the
/// lines after a request line, give the headers and the content back.
proof fn lemma_captured_sent(request: RequestView)
    requires
        request.well_formed(),
    ensures
        header_lines(
            request.headers + (seq![Seq::<char>::empty()] + lines(request.content)),
        ) == request.headers,
        captured_content(
            request.headers + (seq![Seq::<char>::empty()] + lines(request.content)),
        ) == request.content,
{
    lemma_split_at_blank(request.headers, lines(request.content));
    lemma_lines_of_one_line(request.content);
}

/// A text whose lines are a request line and the lines `rest` holds the
/// request made of the three words of that line and of what `rest` gives.
proof fn lemma_parsed_from_lines(text: Seq<char>, line: Seq<char>, rest: Seq<Seq<char>>)
    requires
        lines(text) == seq![line] + rest,
        words(line).len() == 3,
    ensures
        parsed(text) == Ok::<RequestView, RequestError>(
            RequestView {
                method: words(line)[0],
                headers: header_lines(rest),
                path: words(line)[1],
                http_version: words(line)[2],
                content: captured_content(rest),
            },
        ),
{
    let ls = lines(text);
    assert(ls[0] == line);
    assert(ls.skip(1) =~= rest);
}

/// Parsing undoes sending: the text of a well-formed request is parsed as
/// that request. So the well-formed requests are exactly those that the
/// parser can build.
pub proof fn theorem_parse_sent(request: RequestView)
    requires
        request.well_formed(),
    ensures
        parsed(request_text(request)) == Ok::<RequestView, RequestError>(request),
{
    let rest = request.headers + (seq![Seq::<char>::empty()] + lines(request.content));
    lemma_request_line_words(request);
    lemma_request_text_lines(request);
    lemma_captured_sent(request);
    lemma_parsed_from_lines(request_text(request), request_line(request), rest);
}

/// A request for `/echo/` followed by `s`, sent with any method and version
/// and without headers, is answered with status 200 and `s` as its body,
/// for every `s` without whitespace.
pub proof fn theorem_echo_end_to_end(
    method: Seq<char>,
    s: Seq<char>,
    version: Seq<char>,
    directory: Seq<char>,
)
    requires
        is_word(method),
        is_word(version),
        forall|i: int| 0 <= i < s.len() ==> !is_whitespace(s[i]),
    ensures
        planned_for_text(
            method + seq![' '] + "/echo/"@ + s + seq![' '] + version + seq!['\r', '\n', '\r', '\n'],
            directory,
        ) == ActionView::Respond(carrying(200, "text/plain"@, s)),
{
    reveal_strlit("/echo/");
    let request = RequestView {
        method,
        headers: Seq::empty(),
        path: "/echo/"@ + s,
        http_version: version,
        content: Seq::empty(),
    };
    assert(is_word(request.path));
    assert(header_block(request.headers) =~= Seq::<char>::empty());
    assert(request_text(request) =~= method + seq![' '] + "/echo/"@ + s + seq![' '] + version
        + seq!['\r', '\n', '\r', '\n']);
    assert(declared_length(request.headers) is None);
    theorem_parse_sent(request);
    theorem_echo(request, directory, s);
}

/// What holds of a request holds of its text: a well-formed request, sent
/// and parsed, is served as the request itself is.
pub proof fn theorem_planned_for_sent(request: RequestView, directory: Seq<char>)
    requires
        request.well_formed(),
    ensures
        planned_for_text(request_text(request), directory) == planned(request, directory),
{
    theorem_parse_sent(request);
}

/// A word has no whitespace around it to lose.
proof fn lemma_trimmed_word(word: Seq<char>)
    requires
        is_word(word),
    ensures
        trimmed(word) == word,
{
    assert(word.skip(0) =~= word);
}

/// A response that carries a body declares the length of that body: read as
/// headers of a request, its header lines declare the number of bytes of the
/// body that follows them.
pub proof fn theorem_response_declares_its_length(status: u16, media: Seq<char>, body: Seq<char>)
    requires
        byte_len(body) <= usize::MAX,
    ensures
        declared_length(carrying(status, media, body).headers) == Some(byte_len(body) as usize),
{
    reveal_strlit("Content-Length");
    reveal_strlit("Content-Length: ");
    reveal_strlit("Content-Type: ");
    let name = "Content-Length"@;
    let headers = carrying(status, media, body).headers;
    let digits = decimal(byte_len(body));
    let line = headers[1];
    lemma_decimal_round_trip(byte_len(body));
    assert(headers[0][8] == 'T');
    assert(!name.is_prefix_of(headers[0])) by {
        if name.is_prefix_of(headers[0]) {
            assert(headers[0].subrange(0, name.len() as int)[8] == name[8]);
        }
    }
    assert(line.subrange(0, name.len() as int) =~= name);
    lemma_header_index(headers, name, 1);
    lemma_position(line, ':', 14);
    assert(line.skip(15) =~= seq![' '] + digits);
    lemma_trimmed_after_space(digits);
    lemma_trimmed_word(digits);
    assert(line_value(line) == Some(digits));
}

} // verus!
