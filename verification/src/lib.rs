//! A verified core for an HTTP/1.1 server: wire-level request decoding and
//! response encoding (content-length and chunked framing), a method-indexed
//! path router with deterministic precedence, a middleware dispatch cursor,
//! and the listener state machines that govern bind/accept lifecycles.
//!
//! All protocol logic works on plain values (bytes and strings); the
//! surrounding I/O loop lives outside this crate and feeds bytes in.

pub mod ascii;
pub mod chunked;
pub mod config;
pub mod decode;
pub mod encode;
pub mod headers;
pub mod listener;
pub mod method;
pub mod num;
pub mod request;
pub mod response;
pub mod roundtrip;
pub mod router;
pub mod server;
pub mod status;
pub mod wire;

use vstd::prelude::*;

verus! {

/// Whether a connection should be kept open for another request once the
/// current response has been written.
#[derive(Debug, Copy, Clone, Eq, PartialEq, Structural)]
pub enum ConnectionStatus {
    /// The server will not accept another request on this connection.
    Close,
    /// The server may accept another request on this connection.
    KeepAlive,
}

} // verus!
