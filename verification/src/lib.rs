//! An in-memory key/value store speaking a textual, array-framed
//! request/response protocol: a wire codec for typed replies, a request
//! parser that reassembles framed commands out of a byte stream, a typed
//! keyspace with per-value expiry, and a dispatcher that routes parsed
//! commands to keyspace operations.
pub mod commands;
pub mod decoder;
pub mod encoder;
pub mod laws;
pub mod resp;
pub mod session;
pub mod storage;
pub mod text;
