//! The core of a small HTTP/1.1 server, verified with Verus: the request
//! parser, the route dispatcher, the response builder, and the bookkeeping of
//! the worker pool that serves connections.
//!
//! Nothing here touches a socket, a file or a thread. The functions take plain
//! values and return plain values; a server reads and writes around them.

pub mod decimal;
pub mod dispatch;
pub mod pool;
pub mod request;
pub mod response;
pub mod text;

pub use pool::{SubmitError, ThreadPool, WorkerStep};
