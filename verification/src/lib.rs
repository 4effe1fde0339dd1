//! A protocol-translating proxy core for Model Context Protocol calls. One
//! JSON-RPC 2.0 request arrives per input line; each is answered locally
//! (`initialize`, unknown methods), consumed silently (notifications), or
//! forwarded to one backend transport and its reply normalized into a
//! single well-formed JSON-RPC response line. The I/O itself - reading
//! lines, the HTTP, process or socket round trip, writing lines - stays
//! outside; this crate holds the decisions and the data, and proves them.

pub mod dispatch;
pub mod envelope;
pub mod json;
pub mod laws;
pub mod normalize;
