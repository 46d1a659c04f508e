//! Wire-level codec of a client for a PostgreSQL-style binary protocol.
//!
//! Commands are written as frames (`command`), responses are read from
//! frames (`response`), and the raw values that rows carry are converted to
//! and from native values (`types`). All of it works on bytes in memory:
//! `writer` appends to a `Vec<u8>`, `reader` reads from a `MemReader`.
//! `wire`, `bytes` and `repeat` say what the fields of a frame are on the
//! wire, and `laws` what holds between writing and reading them.

pub mod bytes;
pub mod command;
pub mod error;
pub mod laws;
pub mod message;
pub mod reader;
pub mod repeat;
pub mod response;
pub mod types;
pub mod wire;
pub mod writer;
