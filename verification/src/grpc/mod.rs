//! The gRPC multiplexer: routing, batching, streaming and connection pooling.

pub mod arrow_batch;
pub mod ipc;
pub mod multiplexer;
pub mod noop;
pub mod pool;
pub mod request;
pub mod rows;
pub mod server;
pub mod status;
pub mod stream;
