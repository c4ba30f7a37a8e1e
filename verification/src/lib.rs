//! replstoke: keep a REPL warm and call it like a one-shot tool.
//!
//! This crate holds the verified core: the streaming end-of-response marker
//! scanner, the framed server-to-client protocol, the command line parser,
//! the server's control state machine and the client's response handling.

pub mod error;
pub mod bytes;
pub mod marker;
pub mod text;
pub mod protocol;
pub mod config;
pub mod cli;
pub mod validate;
pub mod server;
pub mod names;
pub mod utc;
pub mod client;
pub mod general;
