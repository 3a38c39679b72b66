//! A small verified HTTP/1.1 server core: wire-format codec, content
//! negotiation with gzip, a pure router over a pluggable storage model, and a
//! bounded connection-admission controller.

pub mod admission;
pub mod bytes;
pub mod codec;
pub mod http;
pub mod negotiate;
pub mod properties;
pub mod router;
pub mod server;
pub mod table;
pub mod tokens;
