//! Verified core of CC Switch's browser (server) mode: the command line, the
//! optional bearer-token check, which IPC commands and events cross the HTTP
//! bridge, and what the server prints and serves when it starts.

pub mod auth;
pub mod bridge;
pub mod ip;
pub mod lexical;
pub mod options;
pub mod runtime;
pub mod server;
pub mod sse;
pub mod text;
