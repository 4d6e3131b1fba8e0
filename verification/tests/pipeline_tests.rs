//! End-to-end scenarios: raw request bytes in, response bytes out.

use mini_http::decoder::request_from_bytes;
use mini_http::encoder::encode_response;
use mini_http::handler::{blob_action, handle_request, BlobAction, BlobOutcome};
use mini_http::http::HttpMethod;

fn respond(input: &[u8], blob: BlobOutcome) -> Vec<u8> {
    let req = request_from_bytes(input);
    let resp = handle_request(&req, blob);
    encode_response(&resp)
}

#[test]
fn ping_root_is_bare_200() {
    let out = respond(b"GET / HTTP/1.1\r\n\r\n", BlobOutcome::NotTouched);
    assert_eq!(out, b"HTTP/1.1 200 OK\r\n\r\n".to_vec());
}

#[test]
fn echo_without_accept_encoding() {
    let out = respond(b"GET /echo/abc HTTP/1.1\r\n\r\n", BlobOutcome::NotTouched);
    assert_eq!(
        out,
        b"HTTP/1.1 200 OK\r\nContent-Type: text/plain\r\nContent-Length: 3\r\n\r\nabc".to_vec()
    );
}

#[test]
fn echo_with_gzip_reflects_header_only() {
    let out = respond(
        b"GET /echo/abc HTTP/1.1\r\nAccept-Encoding: gzip\r\n\r\n",
        BlobOutcome::NotTouched,
    );
    assert_eq!(
        out,
        b"HTTP/1.1 200 OK\r\nContent-Type: text/plain\r\nContent-Encoding: gzip\r\nContent-Length: 3\r\n\r\nabc"
            .to_vec()
    );
}

#[test]
fn echo_with_other_encoding_is_not_reflected() {
    let out = respond(
        b"GET /echo/abc HTTP/1.1\r\nAccept-Encoding: deflate\r\n\r\n",
        BlobOutcome::NotTouched,
    );
    assert_eq!(
        out,
        b"HTTP/1.1 200 OK\r\nContent-Type: text/plain\r\nContent-Length: 3\r\n\r\nabc".to_vec()
    );
}

#[test]
fn echo_keeps_deeper_segments() {
    let out = respond(b"GET /echo/a/b HTTP/1.1\r\n\r\n", BlobOutcome::NotTouched);
    assert_eq!(
        out,
        b"HTTP/1.1 200 OK\r\nContent-Type: text/plain\r\nContent-Length: 3\r\n\r\na/b".to_vec()
    );
}

#[test]
fn files_post_writes_key_and_answers_created() {
    let input = b"POST /files/test.txt HTTP/1.1\r\nContent-Length: 5\r\n\r\nhello";
    let req = request_from_bytes(input);
    assert_eq!(req.method, HttpMethod::POST);
    match blob_action(&req, b"/tmp/data/") {
        BlobAction::WriteKey(key, body) => {
            assert_eq!(key, b"/tmp/data/test.txt".to_vec());
            assert_eq!(body, b"hello".to_vec());
        }
        _ => panic!("expected a write"),
    }
    let resp = handle_request(&req, BlobOutcome::WriteDone);
    assert_eq!(encode_response(&resp), b"HTTP/1.1 201 Created\r\n\r\n".to_vec());
}

#[test]
fn files_get_missing_is_bare_404() {
    let input = b"GET /files/missing.txt HTTP/1.1\r\n\r\n";
    let req = request_from_bytes(input);
    match blob_action(&req, b"") {
        BlobAction::ReadKey(key) => assert_eq!(key, b"missing.txt".to_vec()),
        _ => panic!("expected a read"),
    }
    let out = respond(input, BlobOutcome::ReadMissing);
    assert_eq!(out, b"HTTP/1.1 404 Not Found\r\n\r\n".to_vec());
}

#[test]
fn files_get_found_serves_octet_stream() {
    let out = respond(
        b"GET /files/a.bin HTTP/1.1\r\n\r\n",
        BlobOutcome::ReadFound(b"data".to_vec()),
    );
    assert_eq!(
        out,
        b"HTTP/1.1 200 OK\r\nContent-Type: application/octet-stream\r\nContent-Length: 4\r\n\r\ndata"
            .to_vec()
    );
}

#[test]
fn files_post_failed_write_is_404() {
    let out = respond(
        b"POST /files/x HTTP/1.1\r\nContent-Length: 1\r\n\r\na",
        BlobOutcome::WriteFailed,
    );
    assert_eq!(out, b"HTTP/1.1 404 Not Found\r\n\r\n".to_vec());
}

#[test]
fn files_other_method_is_404() {
    let out = respond(b"PUT /files/x HTTP/1.1\r\n\r\n", BlobOutcome::NotTouched);
    assert_eq!(out, b"HTTP/1.1 404 Not Found\r\n\r\n".to_vec());
}

#[test]
fn user_agent_is_reflected() {
    let out = respond(
        b"GET /user-agent HTTP/1.1\r\nUser-Agent: testclient/1.0\r\n\r\n",
        BlobOutcome::NotTouched,
    );
    assert_eq!(
        out,
        b"HTTP/1.1 200 OK\r\nContent-Type: text/plain\r\nContent-Length: 14\r\n\r\ntestclient/1.0"
            .to_vec()
    );
}

#[test]
fn user_agent_absent_is_empty_body() {
    let out = respond(b"GET /user-agent HTTP/1.1\r\n\r\n", BlobOutcome::NotTouched);
    assert_eq!(
        out,
        b"HTTP/1.1 200 OK\r\nContent-Type: text/plain\r\nContent-Length: 0\r\n\r\n".to_vec()
    );
}

#[test]
fn user_agent_with_trailing_segment_is_404() {
    let out = respond(b"GET /user-agent/x HTTP/1.1\r\n\r\n", BlobOutcome::NotTouched);
    assert_eq!(out, b"HTTP/1.1 404 Not Found\r\n\r\n".to_vec());
}

#[test]
fn unknown_path_is_bare_404() {
    let out = respond(b"GET /nonexistent/path HTTP/1.1\r\n\r\n", BlobOutcome::NotTouched);
    assert_eq!(out, b"HTTP/1.1 404 Not Found\r\n\r\n".to_vec());
}

#[test]
fn unknown_path_is_404_for_any_method() {
    for start in [
        &b"DELETE /nonexistent/path HTTP/1.1\r\n\r\n"[..],
        &b"POST /nonexistent/path HTTP/1.1\r\n\r\n"[..],
        &b"BOGUS /nonexistent/path HTTP/1.1\r\n\r\n"[..],
    ] {
        let out = respond(start, BlobOutcome::NotTouched);
        assert_eq!(out, b"HTTP/1.1 404 Not Found\r\n\r\n".to_vec());
    }
}

#[test]
fn repeated_get_is_byte_identical() {
    let input = b"GET /echo/again HTTP/1.1\r\nHost: h\r\n\r\n";
    let first = respond(input, BlobOutcome::NotTouched);
    let second = respond(input, BlobOutcome::NotTouched);
    assert_eq!(first, second);
}

#[test]
fn empty_input_routes_nowhere() {
    let out = respond(b"", BlobOutcome::NotTouched);
    assert_eq!(out, b"HTTP/1.1 404 Not Found\r\n\r\n".to_vec());
}
