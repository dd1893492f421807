//! A minimal HTTP/1.1 request/response engine.
//!
//! The library parses raw request bytes into a structured [`request::Request`],
//! routes it to one of a small fixed set of handlers, and serializes the
//! handler's result into correctly framed response bytes.  Everything here is
//! a pure function over byte sequences; reading from and writing to sockets
//! and files is left to the embedding program, which feeds results (file
//! contents, write outcomes) back in as plain values.

pub mod scan;
pub mod num;
pub mod status;
pub mod response;
pub mod request;
pub mod router;
pub mod laws;
