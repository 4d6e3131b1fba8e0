//! Component-level tests: framing, decoding, routing, encoding.

use mini_http::decoder::{decode_request, header_value_of, parse_usize, request_from_bytes, split_lines};
use mini_http::encoder::{encode_response, usize_to_dec};
use mini_http::framer::{frame_message, read_body};
use mini_http::handler::{handle_request, BlobOutcome};
use mini_http::http::{HttpMethod, HttpRequest, HttpVersion, StatusCode};
use mini_http::router::{route, Route};

#[test]
fn framer_splits_at_blank_line() {
    let (header, rest) = frame_message(b"A: b\r\nC: d\r\n\r\nBODY");
    assert_eq!(header, b"A: b\r\nC: d\r\n".to_vec());
    assert_eq!(rest, b"BODY".to_vec());
}

#[test]
fn framer_takes_exactly_content_length_bytes() {
    let (header, rest) = frame_message(b"Content-Length: 4\r\n\r\nBODYMORE");
    assert_eq!(header, b"Content-Length: 4\r\n".to_vec());
    assert_eq!(read_body(&rest, 4), b"BODY".to_vec());
}

#[test]
fn framer_without_blank_line_takes_everything() {
    let (header, rest) = frame_message(b"GET / HTTP/1.1\r\nHost: x");
    assert_eq!(header, b"GET / HTTP/1.1\r\nHost: x".to_vec());
    assert_eq!(rest, b"".to_vec());
}

#[test]
fn body_shorter_than_length_is_what_was_available() {
    assert_eq!(read_body(b"ab", 5), b"ab".to_vec());
}

#[test]
fn decoder_reads_start_line_and_headers() {
    let req = request_from_bytes(b"POST /files/x HTTP/1.1\r\nHost: h:1\r\nUser-Agent: u\r\n\r\n");
    assert_eq!(req.method, HttpMethod::POST);
    assert_eq!(req.path, b"/files/x".to_vec());
    assert_eq!(req.version, HttpVersion::V1_1);
    assert_eq!(req.headers.host, Some(b"h:1".to_vec()));
    assert_eq!(req.headers.user_agent, Some(b"u".to_vec()));
    assert_eq!(req.headers.content_encoding, None);
    assert_eq!(req.headers.content_length, None);
    assert_eq!(req.headers.request_body, None);
}

#[test]
fn decoder_scans_past_unrecognized_lines() {
    let req = request_from_bytes(b"GET / HTTP/1.1\r\nX-Other: z\r\nUser-Agent: u\r\n\r\n");
    assert_eq!(req.headers.user_agent, Some(b"u".to_vec()));
}

#[test]
fn decoder_last_header_line_wins() {
    let req = request_from_bytes(b"GET / HTTP/1.1\r\nHost: one\r\nHost: two\r\n\r\n");
    assert_eq!(req.headers.host, Some(b"two".to_vec()));
}

#[test]
fn decoder_header_without_separator_has_empty_value() {
    let req = request_from_bytes(b"GET / HTTP/1.1\r\nHost\r\n\r\n");
    assert_eq!(req.headers.host, Some(b"".to_vec()));
}

#[test]
fn decoder_attaches_body_of_content_length() {
    let req = request_from_bytes(b"POST /files/x HTTP/1.1\r\nContent-Length: 3\r\n\r\nabcdef");
    assert_eq!(req.headers.content_length, Some(3));
    assert_eq!(req.headers.request_body, Some(b"abc".to_vec()));
}

#[test]
fn decoder_missing_tokens_default() {
    let req = request_from_bytes(b"\r\n\r\n");
    assert_eq!(req.method, HttpMethod::GET);
    assert_eq!(req.path, b"".to_vec());
    assert_eq!(req.version, HttpVersion::V1_1);
}

#[test]
fn decoder_bare_method_only() {
    let req = request_from_bytes(b"DELETE\r\n\r\n");
    assert_eq!(req.method, HttpMethod::DELETE);
    assert_eq!(req.path, b"".to_vec());
}

#[test]
fn default_request_is_get_root() {
    let req = HttpRequest::default();
    assert_eq!(req.method, HttpMethod::GET);
    assert_eq!(req.path, b"/".to_vec());
    assert_eq!(req.headers.host, None);
}

#[test]
fn method_tokens_parse() {
    assert_eq!(HttpMethod::from(b"GET"), HttpMethod::GET);
    assert_eq!(HttpMethod::from(b"HEAD"), HttpMethod::HEAD);
    assert_eq!(HttpMethod::from(b"POST"), HttpMethod::POST);
    assert_eq!(HttpMethod::from(b"PUT"), HttpMethod::PUT);
    assert_eq!(HttpMethod::from(b"DELETE"), HttpMethod::DELETE);
    assert_eq!(HttpMethod::from(b"CONNECT"), HttpMethod::CONNECT);
    assert_eq!(HttpMethod::from(b"OPTIONS"), HttpMethod::OPTIONS);
    assert_eq!(HttpMethod::from(b"TRACE"), HttpMethod::TRACE);
    assert_eq!(HttpMethod::from(b"PATCH"), HttpMethod::PATCH);
    assert_eq!(HttpMethod::from(b"get"), HttpMethod::GET);
    assert_eq!(HttpMethod::from(b"BOGUS"), HttpMethod::GET);
}

#[test]
fn any_version_normalizes() {
    assert_eq!(HttpVersion::from(b"HTTP/1.0"), HttpVersion::V1_1);
    assert_eq!(HttpVersion::V1_1.as_str(), "HTTP/1.1");
}

#[test]
fn status_spellings() {
    assert_eq!(StatusCode::Okay.as_str(), "200 OK");
    assert_eq!(StatusCode::Created.as_str(), "201 Created");
    assert_eq!(StatusCode::NotFound.as_str(), "404 Not Found");
}

#[test]
fn router_precedence() {
    assert_eq!(route(b"/"), Route::Ping);
    assert_eq!(route(b"/echo/x"), Route::Echo);
    assert_eq!(route(b"/echo/"), Route::Echo);
    assert_eq!(route(b"/files/x"), Route::Files);
    assert_eq!(route(b"/user-agent"), Route::UserAgent);
    assert_eq!(route(b"/user-agent/x"), Route::NoRoute);
    assert_eq!(route(b"/other"), Route::NoRoute);
    assert_eq!(route(b""), Route::NoRoute);
    assert_eq!(route(b"user-agent"), Route::NoRoute);
}

#[test]
fn content_length_parses_or_defaults() {
    assert_eq!(parse_usize(b"123"), 123);
    assert_eq!(parse_usize(b"0"), 0);
    assert_eq!(parse_usize(b"007"), 7);
    assert_eq!(parse_usize(b""), 0);
    assert_eq!(parse_usize(b"12a"), 0);
    assert_eq!(parse_usize(b"-3"), 0);
    assert_eq!(parse_usize(b"99999999999999999999999999"), 0);
}

#[test]
fn decimal_rendering() {
    assert_eq!(usize_to_dec(0), b"0".to_vec());
    assert_eq!(usize_to_dec(7), b"7".to_vec());
    assert_eq!(usize_to_dec(10), b"10".to_vec());
    assert_eq!(usize_to_dec(1234), b"1234".to_vec());
}

#[test]
fn header_value_takes_after_first_separator() {
    assert_eq!(header_value_of(b"Host: a: b"), b"a: b".to_vec());
    assert_eq!(header_value_of(b"Host"), b"".to_vec());
}

#[test]
fn encode_round_trips_through_framer_and_lines() {
    let req = request_from_bytes(b"GET /echo/xyz HTTP/1.1\r\nAccept-Encoding: gzip\r\n\r\n");
    let resp = handle_request(&req, BlobOutcome::NotTouched);
    let encoded = encode_response(&resp);
    let (header_text, rest) = frame_message(&encoded);
    assert_eq!(rest, b"xyz".to_vec());
    let lines = split_lines(&header_text);
    assert_eq!(lines.len(), 5);
    assert_eq!(lines[0], b"HTTP/1.1 200 OK".to_vec());
    assert_eq!(lines[1], b"Content-Type: text/plain".to_vec());
    assert_eq!(lines[2], b"Content-Encoding: gzip".to_vec());
    assert_eq!(lines[3], b"Content-Length: 3".to_vec());
    assert_eq!(lines[4], b"".to_vec());
    for i in 1..4 {
        let resp_header = &resp.headers[i - 1];
        assert_eq!(&header_value_of(&lines[i]), &resp_header.1);
    }
}

#[test]
fn decode_separates_header_text_and_rest() {
    let req = decode_request(b"GET /user-agent HTTP/1.1\r\nUser-Agent: ua\r\n", b"");
    assert_eq!(req.method, HttpMethod::GET);
    assert_eq!(req.headers.user_agent, Some(b"ua".to_vec()));
}
