use mini_http::handlers::{
    echo_response, error_response, get_file_response, post_file_response, user_agent,
    user_agent_request, ReadOutcome, WriteOutcome,
};
use mini_http::headers::read_declared_length;
use mini_http::request::{Request, RequestError};
use mini_http::response::Response;

fn strings(items: &[&str]) -> Vec<String> {
    items.iter().map(|s| s.to_string()).collect()
}

fn request(method: &str, path: &str, headers: &[&str]) -> Request {
    Request {
        method: method.to_string(),
        headers: strings(headers),
        path: path.to_string(),
        http_version: "HTTP/1.1".to_string(),
        content: String::new(),
    }
}

fn response(status_code: u16, headers: &[&str], body: &str) -> Response {
    Response { status_code, headers: strings(headers), body: body.to_string() }
}

#[test]
fn bare_response_has_no_header_and_no_body() {
    assert_eq!(Response::bare(200), response(200, &[], ""));
    assert_eq!(Response::bare(404).to_string(), "HTTP/1.1 404\r\n\r\n");
}

#[test]
fn carrying_declares_type_and_byte_length() {
    assert_eq!(
        Response::carrying(200, "text/plain", "héllo".to_string()),
        response(200, &["Content-Type: text/plain", "Content-Length: 6"], "héllo")
    );
}

#[test]
fn plain_empty_declares_length_zero() {
    assert_eq!(
        Response::plain_empty(500),
        response(500, &["Content-Type: text/plain", "Content-Length: 0"], "")
    );
}

#[test]
fn serialization_is_exact() {
    let r = response(200, &["Content-Type: text/plain", "Content-Length: 3"], "abc");
    assert_eq!(
        r.to_string(),
        "HTTP/1.1 200\r\nContent-Type: text/plain\r\nContent-Length: 3\r\n\r\nabc"
    );
}

#[test]
fn serialization_adds_nothing_of_its_own() {
    let r = response(201, &["X-One: 1", "X-Two: 2", "X-One: 1"], "line\r\n");
    assert_eq!(r.to_string(), "HTTP/1.1 201\r\nX-One: 1\r\nX-Two: 2\r\nX-One: 1\r\n\r\nline\r\n");
    let r = response(200, &[], "body without declared length");
    assert_eq!(r.to_string(), "HTTP/1.1 200\r\n\r\nbody without declared length");
}

#[test]
fn serialization_writes_the_status_in_decimal() {
    assert_eq!(response(0, &[], "").to_string(), "HTTP/1.1 0\r\n\r\n");
    assert_eq!(response(7, &[], "").to_string(), "HTTP/1.1 7\r\n\r\n");
    assert_eq!(response(65535, &[], "").to_string(), "HTTP/1.1 65535\r\n\r\n");
}

#[test]
fn bytes_are_the_utf8_of_the_text() {
    let r = response(200, &["Content-Length: 2"], "é");
    assert_eq!(r.clone().into_bytes(), r.to_string().into_bytes());
    assert_eq!(
        response(404, &[], "").into_bytes(),
        b"HTTP/1.1 404\r\n\r\n".to_vec()
    );
}

#[test]
fn echo_returns_what_follows_the_prefix() {
    assert_eq!(
        echo_response(&request("GET", "/echo/abc", &[])),
        response(200, &["Content-Type: text/plain", "Content-Length: 3"], "abc")
    );
}

#[test]
fn echo_of_nothing_is_empty() {
    assert_eq!(
        echo_response(&request("GET", "/echo/", &[])),
        response(200, &["Content-Type: text/plain", "Content-Length: 0"], "")
    );
}

#[test]
fn echo_does_not_decode_and_counts_bytes() {
    assert_eq!(
        echo_response(&request("POST", "/echo/a%20b/é?q", &[])),
        response(200, &["Content-Type: text/plain", "Content-Length: 10"], "a%20b/é?q")
    );
}

#[test]
fn echo_strips_the_prefix_once() {
    assert_eq!(echo_response(&request("GET", "/echo//echo/x", &[])).body, "/echo/x");
}

#[test]
fn echo_of_a_long_value_declares_its_length() {
    let value = "x".repeat(1234);
    let r = echo_response(&request("GET", &format!("/echo/{}", value), &[]));
    assert_eq!(r.headers[1], "Content-Length: 1234");
    assert_eq!(r.body, value);
}

#[test]
fn user_agent_value_is_trimmed() {
    let r = user_agent_request(request("GET", "/user-agent", &["Host: x", "User-Agent:   curl/8.0 \t"]));
    assert_eq!(r, response(200, &["Content-Type: text/plain", "Content-Length: 8"], "curl/8.0"));
}

#[test]
fn user_agent_value_keeps_its_colons() {
    let r = user_agent_request(request(
        "GET",
        "/user-agent",
        &["User-Agent: Mozilla/5.0 (X11; Linux) +http://example.org/bot"],
    ));
    assert_eq!(r.body, "Mozilla/5.0 (X11; Linux) +http://example.org/bot");
    assert_eq!(r.headers[1], "Content-Length: 48");
}

#[test]
fn user_agent_takes_the_first_of_two() {
    let r = user_agent_request(request("GET", "/user-agent", &["User-Agent: a", "User-Agent: b"]));
    assert_eq!(r.body, "a");
}

#[test]
fn missing_user_agent_is_a_bad_request() {
    let r = user_agent_request(request("GET", "/user-agent", &["Host: x"]));
    assert_eq!(r, response(400, &["Content-Type: text/plain", "Content-Length: 0"], ""));
}

#[test]
fn user_agent_lookup_reports_the_missing_header() {
    assert_eq!(user_agent(&strings(&["Host: x"])), Err(RequestError::MissingHeader));
    assert_eq!(user_agent(&strings(&[])), Err(RequestError::MissingHeader));
    assert_eq!(user_agent(&strings(&["User-Agent"])), Err(RequestError::MissingHeader));
    assert_eq!(user_agent(&strings(&["user-agent: x"])), Err(RequestError::MissingHeader));
    assert_eq!(user_agent(&strings(&["User-Agent: x"])), Ok("x".to_string()));
}

#[test]
fn every_error_is_answered_with_400() {
    let expected = response(400, &["Content-Type: text/plain", "Content-Length: 0"], "");
    assert_eq!(error_response(RequestError::MalformedRequestLine), expected);
    assert_eq!(error_response(RequestError::MissingHeader), expected);
}

#[test]
fn found_file_is_served_as_octets() {
    assert_eq!(
        get_file_response(ReadOutcome::Found("file contents\n".to_string())),
        response(
            200,
            &["Content-Type: application/octet-stream", "Content-Length: 14"],
            "file contents\n"
        )
    );
}

#[test]
fn missing_file_is_404_with_empty_body() {
    assert_eq!(
        get_file_response(ReadOutcome::Missing),
        response(404, &["Content-Type: text/plain", "Content-Length: 0"], "")
    );
}

#[test]
fn failed_read_is_500() {
    assert_eq!(
        get_file_response(ReadOutcome::Failed),
        response(500, &["Content-Type: text/plain", "Content-Length: 0"], "")
    );
}

#[test]
fn stored_file_is_201_and_failed_write_is_500() {
    assert_eq!(
        post_file_response(WriteOutcome::Stored),
        response(201, &["Content-Type: text/plain", "Content-Length: 0"], "")
    );
    assert_eq!(
        post_file_response(WriteOutcome::Failed),
        response(500, &["Content-Type: text/plain", "Content-Length: 0"], "")
    );
}

#[test]
fn response_declares_the_length_of_its_body() {
    let long = "x".repeat(1000);
    for body in ["", "abc", "héllo", long.as_str()] {
        let r = Response::carrying(200, "text/plain", body.to_string());
        assert_eq!(read_declared_length(&r.headers), Some(body.len()), "{:?}", body);
    }
}
