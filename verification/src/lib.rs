//! A small event-driven HTTP/1.1 engine: the connection table, the
//! per-connection state machine, the request reader and the response writer of
//! a single-threaded server that runs on edge-triggered, one-shot readiness
//! events. Sockets and the poller stay with the caller; this crate decides what
//! is done with them, and every decision it takes is proved against its
//! contract.

pub mod wire;
pub mod status;
pub mod response;
pub mod text;
pub mod parser;
pub mod poll;
pub mod sys;
pub mod route;
pub mod request;
pub mod table;
pub mod server;
