//! Handlers: the responses each route produces, and the storage action
//! the file-transfer route asks of the blob store.
//!
//! The blob store itself is the caller's: the library says which key to
//! read or write (`blob_action`), the caller performs the access and
//! reports what happened (`BlobOutcome`), and handling then produces the
//! response from the request and that report alone.

use vstd::prelude::*;
use vstd::slice::{slice_subrange, slice_to_vec};
use crate::bytes::{bytes_of, bytes_eq, str_bytes, push_all};
use crate::http::{
    HttpMethod, HttpRequest, HttpResponse, SpecRequest, SpecResponse, StatusCode,
};
use crate::router::{Route, route_of, route};
use crate::encoder::{dec_digits, usize_to_dec, encode_spec};

verus! {

/// What the blob store reported for this request.
pub enum BlobOutcome {
    ReadFound(Vec<u8>),
    ReadMissing,
    WriteDone,
    WriteFailed,
    NotTouched,
}

/// The mathematical model of a blob-store report.
pub ghost enum SpecBlob {
    ReadFound(Seq<u8>),
    ReadMissing,
    WriteDone,
    WriteFailed,
    NotTouched,
}

impl View for BlobOutcome {
    type V = SpecBlob;

    open spec fn view(&self) -> SpecBlob {
        match self {
            BlobOutcome::ReadFound(v) => SpecBlob::ReadFound(v@),
            BlobOutcome::ReadMissing => SpecBlob::ReadMissing,
            BlobOutcome::WriteDone => SpecBlob::WriteDone,
            BlobOutcome::WriteFailed => SpecBlob::WriteFailed,
            BlobOutcome::NotTouched => SpecBlob::NotTouched,
        }
    }
}

/// What the request asks of the blob store.
pub enum BlobAction {
    ReadKey(Vec<u8>),
    WriteKey(Vec<u8>, Vec<u8>),
    Idle,
}

/// The mathematical model of a storage request.
pub ghost enum SpecBlobAction {
    ReadKey(Seq<u8>),
    WriteKey(Seq<u8>, Seq<u8>),
    Idle,
}

impl View for BlobAction {
    type V = SpecBlobAction;

    open spec fn view(&self) -> SpecBlobAction {
        match self {
            BlobAction::ReadKey(k) => SpecBlobAction::ReadKey(k@),
            BlobAction::WriteKey(k, b) => SpecBlobAction::WriteKey(k@, b@),
            BlobAction::Idle => SpecBlobAction::Idle,
        }
    }
}

/// A response with the given status and neither headers nor body.
pub open spec fn bare_response(req: SpecRequest, status: StatusCode) -> SpecResponse {
    SpecResponse {
        version: req.version,
        status,
        headers: Seq::<(Seq<u8>, Seq<u8>)>::empty(),
        body: None,
    }
}

/// The ping route: 200, no headers, no body.
pub open spec fn ping_response(req: SpecRequest) -> SpecResponse {
    bare_response(req, StatusCode::Okay)
}

/// An unmatched path or a failed storage access: 404, nothing else.
pub open spec fn not_found_response(req: SpecRequest) -> SpecResponse {
    bare_response(req, StatusCode::NotFound)
}

/// A successful store: 201, no headers, no body.
pub open spec fn created_response(req: SpecRequest) -> SpecResponse {
    bare_response(req, StatusCode::Created)
}

/// The echo route: the path remainder after "/echo/" comes back verbatim
/// as text, with its length, and the request's Accept-Encoding value is
/// reflected when it is exactly "gzip" (the body stays uncompressed).
pub open spec fn echo_response(req: SpecRequest) -> SpecResponse {
    let body = req.path.skip(6);
    let ct = (bytes_of("Content-Type"@), bytes_of("text/plain"@));
    let ce = (bytes_of("Content-Encoding"@), bytes_of("gzip"@));
    let cl = (bytes_of("Content-Length"@), dec_digits(body.len()));
    SpecResponse {
        version: req.version,
        status: StatusCode::Okay,
        headers: if req.headers.content_encoding == Some(bytes_of("gzip"@)) {
            seq![ct, ce, cl]
        } else {
            seq![ct, cl]
        },
        body: Some(body),
    }
}

/// The user-agent route: the request's User-Agent value, or nothing when
/// it was absent, comes back as text with its length.
pub open spec fn user_agent_response(req: SpecRequest) -> SpecResponse {
    let body = match req.headers.user_agent {
        Some(v) => v,
        None => Seq::<u8>::empty(),
    };
    SpecResponse {
        version: req.version,
        status: StatusCode::Okay,
        headers: seq![
            (bytes_of("Content-Type"@), bytes_of("text/plain"@)),
            (bytes_of("Content-Length"@), dec_digits(body.len())),
        ],
        body: Some(body),
    }
}

/// A found file: 200 with the content as an octet stream and its length.
pub open spec fn file_found_response(req: SpecRequest, content: Seq<u8>) -> SpecResponse {
    SpecResponse {
        version: req.version,
        status: StatusCode::Okay,
        headers: seq![
            (bytes_of("Content-Type"@), bytes_of("application/octet-stream"@)),
            (bytes_of("Content-Length"@), dec_digits(content.len())),
        ],
        body: Some(content),
    }
}

/// The file-transfer route: GET serves a found blob and 404s otherwise;
/// POST answers 201 when the write went through and 404 otherwise; any
/// other method 404s.
pub open spec fn files_response(req: SpecRequest, blob: SpecBlob) -> SpecResponse {
    if req.method == HttpMethod::GET {
        match blob {
            SpecBlob::ReadFound(content) => file_found_response(req, content),
            _ => not_found_response(req),
        }
    } else if req.method == HttpMethod::POST {
        match blob {
            SpecBlob::WriteDone => created_response(req),
            _ => not_found_response(req),
        }
    } else {
        not_found_response(req)
    }
}

/// The response the request and the blob store's report determine.
pub open spec fn response_spec(req: SpecRequest, blob: SpecBlob) -> SpecResponse {
    match route_of(req.path) {
        Route::Ping => ping_response(req),
        Route::Echo => echo_response(req),
        Route::Files => files_response(req, blob),
        Route::UserAgent => user_agent_response(req),
        Route::NoRoute => not_found_response(req),
    }
}

/// The storage access the request calls for: on the file-transfer route,
/// GET reads and POST writes the key made of the base directory and the
/// path remainder after "/files/"; everything else needs no storage.
pub open spec fn blob_action_spec(req: SpecRequest, dir: Seq<u8>) -> SpecBlobAction {
    if route_of(req.path) == Route::Files {
        let key = dir + req.path.skip(7);
        if req.method == HttpMethod::GET {
            SpecBlobAction::ReadKey(key)
        } else if req.method == HttpMethod::POST {
            let body = match req.headers.request_body {
                Some(b) => b,
                None => Seq::<u8>::empty(),
            };
            SpecBlobAction::WriteKey(key, body)
        } else {
            SpecBlobAction::Idle
        }
    } else {
        SpecBlobAction::Idle
    }
}

/// Says which storage access the request calls for.
pub fn blob_action(req: &HttpRequest, dir: &[u8]) -> (r: BlobAction)
    ensures
        r@ == blob_action_spec(req@, dir@),
{
    proof {
        reveal_strlit("/files/");
    }
    match route(req.path.as_slice()) {
        Route::Files => {
            let l = req.path.len();
            let mut key = slice_to_vec(dir);
            push_all(&mut key, slice_subrange(req.path.as_slice(), 7, l));
            proof {
                assert(key@ =~= dir@ + req.path@.skip(7));
            }
            match req.method {
                HttpMethod::GET => BlobAction::ReadKey(key),
                HttpMethod::POST => {
                    let body = match &req.headers.request_body {
                        Some(b) => slice_to_vec(b.as_slice()),
                        None => Vec::new(),
                    };
                    BlobAction::WriteKey(key, body)
                },
                _ => BlobAction::Idle,
            }
        },
        _ => BlobAction::Idle,
    }
}

/// A response with the given status and neither headers nor body.
fn bare(req: &HttpRequest, status: StatusCode) -> (r: HttpResponse)
    ensures
        r@ == bare_response(req@, status),
{
    let r = HttpResponse { version: req.version, status, headers: Vec::new(), body: None };
    proof {
        assert(r@.headers =~= Seq::<(Seq<u8>, Seq<u8>)>::empty());
    }
    r
}

/// A 200 text response carrying `body` with its length.
fn text_response(req: &HttpRequest, body: Vec<u8>) -> (r: HttpResponse)
    ensures
        r@ == (SpecResponse {
            version: req@.version,
            status: StatusCode::Okay,
            headers: seq![
                (bytes_of("Content-Type"@), bytes_of("text/plain"@)),
                (bytes_of("Content-Length"@), dec_digits(body@.len())),
            ],
            body: Some(body@),
        }),
{
    proof {
        reveal_strlit("Content-Type");
        reveal_strlit("text/plain");
        reveal_strlit("Content-Length");
    }
    let blen = body.len();
    let mut headers: Vec<(Vec<u8>, Vec<u8>)> = Vec::new();
    headers.push((slice_to_vec(str_bytes("Content-Type")), slice_to_vec(str_bytes("text/plain"))));
    headers.push((slice_to_vec(str_bytes("Content-Length")), usize_to_dec(blen)));
    let r = HttpResponse {
        version: req.version,
        status: StatusCode::Okay,
        headers,
        body: Some(body),
    };
    proof {
        assert(r@.headers =~= seq![
            (bytes_of("Content-Type"@), bytes_of("text/plain"@)),
            (bytes_of("Content-Length"@), dec_digits(r@.body_seq().len())),
        ]);
    }
    r
}

/// Produces the response for a decoded request, given the blob store's
/// report for the storage access the request called for.
pub fn handle_request(req: &HttpRequest, blob: BlobOutcome) -> (r: HttpResponse)
    ensures
        r@ == response_spec(req@, blob@),
{
    proof {
        reveal_strlit("/echo/");
        reveal_strlit("gzip");
        reveal_strlit("Content-Type");
        reveal_strlit("Content-Length");
        reveal_strlit("Content-Encoding");
        reveal_strlit("text/plain");
        reveal_strlit("application/octet-stream");
    }
    match route(req.path.as_slice()) {
        Route::Ping => bare(req, StatusCode::Okay),
        Route::Echo => {
            let l = req.path.len();
            let body = slice_to_vec(slice_subrange(req.path.as_slice(), 6, l));
            proof {
                assert(body@ =~= req.path@.skip(6));
            }
            let blen = body.len();
            let gz = match &req.headers.content_encoding {
                Some(v) => bytes_eq(v.as_slice(), str_bytes("gzip")),
                None => false,
            };
            let mut headers: Vec<(Vec<u8>, Vec<u8>)> = Vec::new();
            headers.push((
                slice_to_vec(str_bytes("Content-Type")),
                slice_to_vec(str_bytes("text/plain")),
            ));
            if gz {
                headers.push((
                    slice_to_vec(str_bytes("Content-Encoding")),
                    slice_to_vec(str_bytes("gzip")),
                ));
            }
            headers.push((slice_to_vec(str_bytes("Content-Length")), usize_to_dec(blen)));
            let r = HttpResponse {
                version: req.version,
                status: StatusCode::Okay,
                headers,
                body: Some(body),
            };
            proof {
                assert(r@.headers =~= echo_response(req@).headers);
            }
            r
        },
        Route::Files => {
            match req.method {
                HttpMethod::GET => {
                    match blob {
                        BlobOutcome::ReadFound(content) => {
                            proof {
                                reveal_strlit("Content-Type");
                                reveal_strlit("application/octet-stream");
                                reveal_strlit("Content-Length");
                            }
                            let clen = content.len();
                            let mut headers: Vec<(Vec<u8>, Vec<u8>)> = Vec::new();
                            headers.push((
                                slice_to_vec(str_bytes("Content-Type")),
                                slice_to_vec(str_bytes("application/octet-stream")),
                            ));
                            headers.push((
                                slice_to_vec(str_bytes("Content-Length")),
                                usize_to_dec(clen),
                            ));
                            let r = HttpResponse {
                                version: req.version,
                                status: StatusCode::Okay,
                                headers,
                                body: Some(content),
                            };
                            proof {
                                assert(r@.headers =~= files_response(req@, blob@).headers);
                            }
                            r
                        },
                        _ => bare(req, StatusCode::NotFound),
                    }
                },
                HttpMethod::POST => {
                    match blob {
                        BlobOutcome::WriteDone => bare(req, StatusCode::Created),
                        _ => bare(req, StatusCode::NotFound),
                    }
                },
                _ => bare(req, StatusCode::NotFound),
            }
        },
        Route::UserAgent => {
            let body = match &req.headers.user_agent {
                Some(v) => slice_to_vec(v.as_slice()),
                None => Vec::new(),
            };
            text_response(req, body)
        },
        Route::NoRoute => bare(req, StatusCode::NotFound),
    }
}

/// Handling and encoding are functions of the request and the blob
/// store's report alone: repeating a request against the same state
/// yields a byte-identical response.
pub proof fn lemma_response_idempotent(
    r1: SpecRequest,
    r2: SpecRequest,
    b1: SpecBlob,
    b2: SpecBlob,
)
    requires
        r1 == r2,
        b1 == b2,
    ensures
        encode_spec(response_spec(r1, b1)) == encode_spec(response_spec(r2, b2)),
{
}

} // verus!
