//! A JSON-RPC style greeting service, verified with Verus.
//!
//! The library is the whole request/response transform of a single-endpoint
//! JSON-RPC server: decoding a request envelope from text, routing by method
//! name, computing the greeting, and encoding the success or error envelope
//! back to canonical JSON text. The hosting HTTP server around it only moves
//! bytes.

pub mod codec;
pub mod dispatch;
pub mod envelope;
pub mod greeting;
pub mod handler;
pub mod json;
pub mod strext;
