//! The structured HTTP data model: methods, versions, status codes,
//! recognized headers, requests and responses.

use vstd::prelude::*;
use crate::bytes::{bytes_of, bytes_eq, str_bytes, push_all};

verus! {

/// The request methods of HTTP/1.1.
#[derive(PartialEq, Eq, Structural, Clone, Copy, Debug)]
pub enum HttpMethod {
    GET,
    HEAD,
    POST,
    PUT,
    DELETE,
    CONNECT,
    OPTIONS,
    TRACE,
    PATCH,
}

/// The method a start-line token denotes; an unrecognized token means GET.
pub open spec fn method_of_token(t: Seq<u8>) -> HttpMethod {
    if t == bytes_of("HEAD"@) {
        HttpMethod::HEAD
    } else if t == bytes_of("POST"@) {
        HttpMethod::POST
    } else if t == bytes_of("PUT"@) {
        HttpMethod::PUT
    } else if t == bytes_of("DELETE"@) {
        HttpMethod::DELETE
    } else if t == bytes_of("CONNECT"@) {
        HttpMethod::CONNECT
    } else if t == bytes_of("OPTIONS"@) {
        HttpMethod::OPTIONS
    } else if t == bytes_of("TRACE"@) {
        HttpMethod::TRACE
    } else if t == bytes_of("PATCH"@) {
        HttpMethod::PATCH
    } else {
        HttpMethod::GET
    }
}

impl HttpMethod {
    /// Parses a method token; anything unrecognized becomes GET.
    pub fn from(value: &[u8]) -> (r: Self)
        ensures
            r == method_of_token(value@),
    {
        proof {
            reveal_strlit("HEAD");
            reveal_strlit("POST");
            reveal_strlit("PUT");
            reveal_strlit("DELETE");
            reveal_strlit("CONNECT");
            reveal_strlit("OPTIONS");
            reveal_strlit("TRACE");
            reveal_strlit("PATCH");
        }
        if bytes_eq(value, str_bytes("HEAD")) {
            Self::HEAD
        } else if bytes_eq(value, str_bytes("POST")) {
            Self::POST
        } else if bytes_eq(value, str_bytes("PUT")) {
            Self::PUT
        } else if bytes_eq(value, str_bytes("DELETE")) {
            Self::DELETE
        } else if bytes_eq(value, str_bytes("CONNECT")) {
            Self::CONNECT
        } else if bytes_eq(value, str_bytes("OPTIONS")) {
            Self::OPTIONS
        } else if bytes_eq(value, str_bytes("TRACE")) {
            Self::TRACE
        } else if bytes_eq(value, str_bytes("PATCH")) {
            Self::PATCH
        } else {
            Self::GET
        }
    }
}

/// The protocol versions the server speaks; every input normalizes to 1.1.
#[derive(PartialEq, Eq, Structural, Clone, Copy, Debug)]
pub enum HttpVersion {
    V1_1,
}

impl HttpVersion {
    /// Normalizes any version token to HTTP/1.1.
    pub fn from(_value: &[u8]) -> (r: Self)
        ensures
            r == HttpVersion::V1_1,
    {
        Self::V1_1
    }

    /// The version's wire spelling.
    pub open spec fn spec_str(self) -> Seq<char> {
        "HTTP/1.1"@
    }

    /// The version's wire bytes.
    pub open spec fn spec_bytes(self) -> Seq<u8> {
        bytes_of(self.spec_str())
    }

    pub fn as_str(&self) -> (r: &'static str)
        ensures
            r@ == self.spec_str(),
    {
        match self {
            HttpVersion::V1_1 => "HTTP/1.1",
        }
    }
}

/// The response statuses the handlers produce.
#[derive(PartialEq, Eq, Structural, Clone, Copy, Debug)]
pub enum StatusCode {
    Okay,
    Created,
    NotFound,
}

impl StatusCode {
    /// The status's wire spelling: code and reason phrase.
    pub open spec fn spec_str(self) -> Seq<char> {
        match self {
            StatusCode::Okay => "200 OK"@,
            StatusCode::Created => "201 Created"@,
            StatusCode::NotFound => "404 Not Found"@,
        }
    }

    /// The status's wire bytes.
    pub open spec fn spec_bytes(self) -> Seq<u8> {
        bytes_of(self.spec_str())
    }

    pub fn as_str(&self) -> (r: &'static str)
        ensures
            r@ == self.spec_str(),
    {
        match self {
            Self::Okay => "200 OK",
            Self::Created => "201 Created",
            Self::NotFound => "404 Not Found",
        }
    }
}

/// The recognized request headers; each is absent until its line is seen.
/// `request_body` holds the raw body bytes once `content_length` is known.
pub struct HttpHeaders {
    pub host: Option<Vec<u8>>,
    pub user_agent: Option<Vec<u8>>,
    pub content_encoding: Option<Vec<u8>>,
    pub content_length: Option<usize>,
    pub request_body: Option<Vec<u8>>,
}

/// The mathematical model of a header record.
pub ghost struct SpecHeaders {
    pub host: Option<Seq<u8>>,
    pub user_agent: Option<Seq<u8>>,
    pub content_encoding: Option<Seq<u8>>,
    pub content_length: Option<int>,
    pub request_body: Option<Seq<u8>>,
}

impl SpecHeaders {
    /// All five fields absent.
    pub open spec fn is_empty(self) -> bool {
        &&& self.host is None
        &&& self.user_agent is None
        &&& self.content_encoding is None
        &&& self.content_length is None
        &&& self.request_body is None
    }

    /// The record with all five fields absent.
    pub open spec fn empty() -> Self {
        SpecHeaders {
            host: None,
            user_agent: None,
            content_encoding: None,
            content_length: None,
            request_body: None,
        }
    }
}

impl View for HttpHeaders {
    type V = SpecHeaders;

    open spec fn view(&self) -> SpecHeaders {
        SpecHeaders {
            host: match self.host {
                Some(v) => Some(v@),
                None => None,
            },
            user_agent: match self.user_agent {
                Some(v) => Some(v@),
                None => None,
            },
            content_encoding: match self.content_encoding {
                Some(v) => Some(v@),
                None => None,
            },
            content_length: match self.content_length {
                Some(n) => Some(n as int),
                None => None,
            },
            request_body: match self.request_body {
                Some(v) => Some(v@),
                None => None,
            },
        }
    }
}

impl Default for HttpHeaders {
    fn default() -> (r: Self)
        ensures
            r@ == SpecHeaders::empty(),
    {
        HttpHeaders {
            host: None,
            user_agent: None,
            content_encoding: None,
            content_length: None,
            request_body: None,
        }
    }
}

/// A decoded request: start line plus recognized headers.
pub struct HttpRequest {
    pub method: HttpMethod,
    pub path: Vec<u8>,
    pub version: HttpVersion,
    pub headers: HttpHeaders,
}

/// The mathematical model of a request.
pub ghost struct SpecRequest {
    pub method: HttpMethod,
    pub path: Seq<u8>,
    pub version: HttpVersion,
    pub headers: SpecHeaders,
}

impl View for HttpRequest {
    type V = SpecRequest;

    open spec fn view(&self) -> SpecRequest {
        SpecRequest {
            method: self.method,
            path: self.path@,
            version: self.version,
            headers: self.headers@,
        }
    }
}

impl Default for HttpRequest {
    fn default() -> (r: Self)
        ensures
            r@.method == HttpMethod::GET,
            r@.path == bytes_of("/"@),
            r@.version == HttpVersion::V1_1,
            r@.headers == SpecHeaders::empty(),
    {
        let mut path: Vec<u8> = Vec::new();
        proof {
            reveal_strlit("/");
        }
        push_all(&mut path, str_bytes("/"));
        proof {
            assert(path@ =~= bytes_of("/"@));
        }
        HttpRequest {
            method: HttpMethod::GET,
            path,
            version: HttpVersion::V1_1,
            headers: HttpHeaders::default(),
        }
    }
}

/// A structured response: status, ordered headers, optional body.
pub struct HttpResponse {
    pub version: HttpVersion,
    pub status: StatusCode,
    pub headers: Vec<(Vec<u8>, Vec<u8>)>,
    pub body: Option<Vec<u8>>,
}

/// The mathematical model of a response.
pub ghost struct SpecResponse {
    pub version: HttpVersion,
    pub status: StatusCode,
    pub headers: Seq<(Seq<u8>, Seq<u8>)>,
    pub body: Option<Seq<u8>>,
}

impl SpecResponse {
    /// The body bytes, empty when no body is present.
    pub open spec fn body_seq(self) -> Seq<u8> {
        match self.body {
            Some(b) => b,
            None => Seq::empty(),
        }
    }
}

impl View for HttpResponse {
    type V = SpecResponse;

    open spec fn view(&self) -> SpecResponse {
        SpecResponse {
            version: self.version,
            status: self.status,
            headers: Seq::new(
                self.headers@.len(),
                |i: int| (self.headers@[i].0@, self.headers@[i].1@),
            ),
            body: match self.body {
                Some(b) => Some(b@),
                None => None,
            },
        }
    }
}

} // verus!
