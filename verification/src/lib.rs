//! A verified core for a minimal HTTP/1.1 server.
//!
//! The library covers the request pipeline: framing a raw byte stream into
//! a header block and body, decoding the header block into a structured
//! request, routing the request path to a handler, producing a structured
//! response, and encoding that response back into bytes.  Transport and
//! blob-store I/O are left to the caller, which hands the library plain
//! byte values and takes plain byte values back.

pub mod bytes;
pub mod decoder;
pub mod encoder;
pub mod framer;
pub mod handler;
pub mod http;
pub mod router;
