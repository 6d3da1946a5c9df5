use mini_http::headers::{find_header_value, read_declared_length, read_line_value};
use mini_http::request::{parse_request, parse_text, Request, RequestError};

fn strings(items: &[&str]) -> Vec<String> {
    items.iter().map(|s| s.to_string()).collect()
}

fn request(method: &str, path: &str, version: &str, headers: &[&str], content: &str) -> Request {
    Request {
        method: method.to_string(),
        headers: strings(headers),
        path: path.to_string(),
        http_version: version.to_string(),
        content: content.to_string(),
    }
}

#[test]
fn parses_request_line_and_headers() {
    let parsed = parse_text("GET /index.html HTTP/1.1\r\nHost: x\r\nUser-Agent: curl/8\r\n\r\n");
    assert_eq!(
        parsed,
        Ok(request("GET", "/index.html", "HTTP/1.1", &["Host: x", "User-Agent: curl/8"], ""))
    );
}

#[test]
fn tolerates_bare_line_feeds() {
    let parsed = parse_text("GET / HTTP/1.1\nHost: x\n\n");
    assert_eq!(parsed, Ok(request("GET", "/", "HTTP/1.1", &["Host: x"], "")));
}

#[test]
fn tolerates_mixed_line_endings() {
    let parsed = parse_text("GET / HTTP/1.1\nHost: x\r\nAccept: */*\n\r\n");
    assert_eq!(parsed, Ok(request("GET", "/", "HTTP/1.1", &["Host: x", "Accept: */*"], "")));
}

#[test]
fn request_line_alone_is_enough() {
    assert_eq!(parse_text("GET / HTTP/1.1"), Ok(request("GET", "/", "HTTP/1.1", &[], "")));
    assert_eq!(parse_text("GET / HTTP/1.1\r\n"), Ok(request("GET", "/", "HTTP/1.1", &[], "")));
}

#[test]
fn version_is_taken_verbatim() {
    assert_eq!(parse_text("GET / nonsense\r\n\r\n"), Ok(request("GET", "/", "nonsense", &[], "")));
}

#[test]
fn method_is_taken_verbatim() {
    assert_eq!(
        parse_text("BREW /pot HTCPCP/1.0\r\n\r\n"),
        Ok(request("BREW", "/pot", "HTCPCP/1.0", &[], ""))
    );
}

#[test]
fn path_is_not_decoded() {
    assert_eq!(
        parse_text("GET /a%20b?x=1 HTTP/1.1\r\n\r\n"),
        Ok(request("GET", "/a%20b?x=1", "HTTP/1.1", &[], ""))
    );
}

#[test]
fn words_after_the_third_are_ignored() {
    assert_eq!(
        parse_text("GET / HTTP/1.1 extra words\r\n\r\n"),
        Ok(request("GET", "/", "HTTP/1.1", &[], ""))
    );
}

#[test]
fn any_whitespace_separates_the_words() {
    assert_eq!(
        parse_text("  GET\t/x\u{a0}\u{2003}HTTP/1.1  \r\n\r\n"),
        Ok(request("GET", "/x", "HTTP/1.1", &[], ""))
    );
}

#[test]
fn rejects_request_line_with_two_words() {
    assert_eq!(
        parse_text("GET /echo/abc\r\nHost: x\r\n\r\n"),
        Err(RequestError::MalformedRequestLine)
    );
}

#[test]
fn rejects_request_line_with_one_word() {
    assert_eq!(parse_text("GET\r\n\r\n"), Err(RequestError::MalformedRequestLine));
}

#[test]
fn rejects_empty_input() {
    assert_eq!(parse_text(""), Err(RequestError::MalformedRequestLine));
}

#[test]
fn rejects_blank_first_line() {
    assert_eq!(
        parse_text("\r\nGET / HTTP/1.1\r\n\r\n"),
        Err(RequestError::MalformedRequestLine)
    );
    assert_eq!(parse_text("   \r\n"), Err(RequestError::MalformedRequestLine));
}

#[test]
fn header_lines_stop_at_the_first_blank_line() {
    let parsed = parse_text("GET / HTTP/1.1\r\nA: 1\r\n\r\nB: 2\r\n\r\nC: 3\r\n");
    assert_eq!(parsed, Ok(request("GET", "/", "HTTP/1.1", &["A: 1"], "")));
}

#[test]
fn header_lines_are_kept_verbatim_with_duplicates() {
    let parsed = parse_text("GET / HTTP/1.1\r\n  X:  1 \r\nX: 2\r\nno colon here\r\nX: 2\r\n\r\n");
    assert_eq!(
        parsed,
        Ok(request("GET", "/", "HTTP/1.1", &["  X:  1 ", "X: 2", "no colon here", "X: 2"], ""))
    );
}

#[test]
fn captures_body_when_length_declared() {
    let parsed = parse_text("POST /files/a HTTP/1.1\r\nContent-Length: 5\r\n\r\nhello");
    assert_eq!(
        parsed,
        Ok(request("POST", "/files/a", "HTTP/1.1", &["Content-Length: 5"], "hello"))
    );
}

#[test]
fn body_is_cut_to_the_declared_length() {
    let parsed = parse_text("POST /files/a HTTP/1.1\r\nContent-Length: 3\r\n\r\nhello");
    assert_eq!(parsed.unwrap().content, "hel");
}

#[test]
fn body_shorter_than_declared_is_kept_whole() {
    let parsed = parse_text("POST /files/a HTTP/1.1\r\nContent-Length: 500\r\n\r\nhello");
    assert_eq!(parsed.unwrap().content, "hello");
}

#[test]
fn body_of_declared_length_zero_is_empty() {
    let parsed = parse_text("POST /files/a HTTP/1.1\r\nContent-Length: 0\r\n\r\nhello");
    assert_eq!(parsed.unwrap().content, "");
}

#[test]
fn body_is_empty_without_content_length() {
    let parsed = parse_text("POST /files/a HTTP/1.1\r\nHost: x\r\n\r\nhello");
    assert_eq!(parsed, Ok(request("POST", "/files/a", "HTTP/1.1", &["Host: x"], "")));
}

#[test]
fn body_lines_are_joined_without_separators() {
    let parsed = parse_text("POST /f HTTP/1.1\r\nContent-Length: 100\r\n\r\nab\r\ncd\n\nef");
    assert_eq!(parsed.unwrap().content, "abcdef");
}

#[test]
fn body_is_cut_at_a_character_boundary() {
    let parsed = parse_text("POST /f HTTP/1.1\r\nContent-Length: 2\r\n\r\nhéllo");
    assert_eq!(parsed.unwrap().content, "h");
    let parsed = parse_text("POST /f HTTP/1.1\r\nContent-Length: 3\r\n\r\nhéllo");
    assert_eq!(parsed.unwrap().content, "hé");
}

#[test]
fn unreadable_content_length_leaves_body_empty() {
    for value in ["abc", "", "-3", "1.5", "99999999999999999999999999"] {
        let text = format!("POST /f HTTP/1.1\r\nContent-Length: {}\r\n\r\nhello", value);
        assert_eq!(parse_text(&text).unwrap().content, "", "{:?}", value);
    }
}

#[test]
fn content_length_without_colon_leaves_body_empty() {
    let parsed = parse_text("POST /f HTTP/1.1\r\nContent-Length 5\r\n\r\nhello");
    assert_eq!(parsed, Ok(request("POST", "/f", "HTTP/1.1", &["Content-Length 5"], "")));
}

#[test]
fn first_content_length_counts() {
    let parsed =
        parse_text("POST /f HTTP/1.1\r\nContent-Length: 2\r\nContent-Length: 4\r\n\r\nhello");
    assert_eq!(parsed.unwrap().content, "he");
}

#[test]
fn content_length_value_is_trimmed_and_may_carry_a_plus() {
    let parsed = parse_text("POST /f HTTP/1.1\r\nContent-Length:\t +4  \r\n\r\nhello");
    assert_eq!(parsed.unwrap().content, "hell");
}

#[test]
fn parse_request_reads_only_the_given_length() {
    let message = b"GET /echo/abc HTTP/1.1\r\nHost: x\r\n\r\n";
    let mut buffer = [0u8; 256];
    buffer[..message.len()].copy_from_slice(message);
    buffer[message.len()..message.len() + 4].copy_from_slice(b"junk");
    assert_eq!(
        parse_request(&buffer, message.len()),
        Ok(request("GET", "/echo/abc", "HTTP/1.1", &["Host: x"], ""))
    );
}

#[test]
fn parse_request_of_length_zero_is_malformed() {
    let buffer = [0u8; 256];
    assert_eq!(parse_request(&buffer, 0), Err(RequestError::MalformedRequestLine));
}

#[test]
fn parse_request_takes_a_full_buffer() {
    let mut buffer = [b'a'; 256];
    buffer[..5].copy_from_slice(b"GET /");
    buffer[200..210].copy_from_slice(b" HTTP/1.1\n");
    let parsed = parse_request(&buffer, 256).unwrap();
    assert_eq!(parsed.method, "GET");
    assert_eq!(parsed.path, format!("/{}", "a".repeat(195)));
    assert_eq!(parsed.http_version, "HTTP/1.1");
    assert_eq!(parsed.headers, vec!["a".repeat(46)]);
}

#[test]
fn parse_request_replaces_invalid_utf8() {
    let bytes = b"GET /a\xffb HTTP/1.1\r\n\r\n";
    let parsed = parse_request(bytes, bytes.len()).unwrap();
    assert_eq!(parsed.path, "/a\u{fffd}b");
}

#[test]
fn parse_request_decodes_valid_utf8() {
    let bytes = "GET /é HTTP/1.1\r\n\r\n".as_bytes();
    let parsed = parse_request(bytes, bytes.len()).unwrap();
    assert_eq!(parsed.path, "/é");
}

#[test]
fn header_value_is_what_follows_the_first_colon() {
    assert_eq!(read_line_value("Host: example.org"), Some("example.org".to_string()));
    assert_eq!(read_line_value("Host:example.org:8080"), Some("example.org:8080".to_string()));
    assert_eq!(read_line_value("X:  spaced out \t"), Some("spaced out".to_string()));
    assert_eq!(read_line_value("Empty:"), Some(String::new()));
    assert_eq!(read_line_value(":"), Some(String::new()));
    assert_eq!(read_line_value("no colon"), None);
    assert_eq!(read_line_value(""), None);
}

#[test]
fn header_lookup_takes_the_first_match_by_prefix() {
    let headers = strings(&["Host: x", "User-Agent-Hint: a", "User-Agent: b"]);
    assert_eq!(find_header_value(&headers, "User-Agent"), Some("a".to_string()));
    assert_eq!(find_header_value(&headers, "Host"), Some("x".to_string()));
    assert_eq!(find_header_value(&headers, "Accept"), None);
    assert_eq!(find_header_value(&headers, "user-agent"), None);
}

#[test]
fn header_lookup_stops_at_a_match_without_colon() {
    let headers = strings(&["User-Agent", "User-Agent: b"]);
    assert_eq!(find_header_value(&headers, "User-Agent"), None);
}

#[test]
fn declared_length_is_read_from_the_headers() {
    assert_eq!(read_declared_length(&strings(&["Host: x", "Content-Length: 12"])), Some(12));
    assert_eq!(read_declared_length(&strings(&["Content-Length: x"])), None);
    assert_eq!(read_declared_length(&strings(&["Host: x"])), None);
    assert_eq!(read_declared_length(&strings(&[])), None);
}

#[test]
fn sent_request_is_parsed_back() {
    let sent = request(
        "POST",
        "/files/a%20b",
        "HTTP/1.1",
        &["Host: example.org", "Content-Length: 12", "X-Odd:\tvalue\r", ":"],
        "twelve bytes",
    );
    let text = format!(
        "{} {} {}\r\n{}\r\n{}\r\n{}\r\n{}\r\n\r\n{}",
        sent.method,
        sent.path,
        sent.http_version,
        sent.headers[0],
        sent.headers[1],
        sent.headers[2],
        sent.headers[3],
        sent.content
    );
    assert_eq!(parse_text(&text), Ok(sent));
}
