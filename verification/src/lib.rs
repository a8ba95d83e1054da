//! A minimal HTTP/1.1 server core: request-line parsing, exact-path routing,
//! wire-correct response formatting, and the scheduling decisions of a
//! fixed-size worker pool.
//!
//! Everything here is pure computation, with contracts that Verus proves.
//! Sockets and threads live with the caller, which feeds this library plain
//! values and carries out the actions it returns.
//!
//! - `request`: the header block of a connection and its request line.
//! - `response`: responses and their wire format.
//! - `handler`: the capability of answering a path.
//! - `server`: the route table and the processing of one request.
//! - `pool`: what a worker and the acceptor do next.
//! - `protocol`: the hand-off between acceptor and workers as a transition
//!   system, with what holds after any interleaving.
//! - `text`: characters, decimal numbers, lines.

pub mod handler;
pub mod pool;
pub mod protocol;
pub mod request;
pub mod response;
pub mod server;
pub mod text;

pub use handler::{FnHandler, Handler};
pub use pool::{
    acceptor_step, pick_idle, worker_step, AcceptorAction, WorkerAction, WorkerEvent, WorkerState,
};
pub use request::{parse_request_line, Request, RequestError, RequestHead, RequestType};
pub use response::{format_response, IntoBoxedResponse, IntoResponse, Response};
pub use server::{bind_address, Route, Server};
