//! A minimal HTTP/1.1 message layer: a request parser over raw bytes with
//! header-driven body framing, a response serializer with exact header
//! bookkeeping, and the per-connection routing and content-encoding logic.
//! Socket plumbing and the file store are the caller's side: the library
//! takes bytes and plain values and returns the response bytes to write.
pub mod bytes;
pub mod consts;
pub mod msg;
pub mod parse;
pub mod serial;
pub mod gz;
pub mod route;
pub mod roundtrip;
