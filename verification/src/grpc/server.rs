//! Settings of the gRPC server.

use vstd::prelude::*;

use super::multiplexer::TeiMultiplexerService;
use crate::config::{ArrowOutputDtype, ManagerConfig};

verus! {

/// What can be set about the gRPC server.
#[derive(Debug, Clone, Copy, PartialEq, Eq, Structural)]
pub struct GrpcOptions {
    /// The largest message, in MiB.
    pub max_message_size_mb: usize,
    /// Responses of a stream that may wait for the client.
    pub max_parallel_streams: usize,
    /// Seconds that a forwarded request may take; 0 for no limit.
    pub request_timeout_secs: u64,
    /// Element type when a request does not say.
    pub default_output_dtype: ArrowOutputDtype,
    /// Batches of one stream that may be under way, when a stream does not say.
    pub stream_max_concurrent_batches: usize,
}

impl Default for GrpcOptions {
    fn default() -> (o: Self)
        ensures
            o.max_message_size_mb == 16,
            o.max_parallel_streams == 1024,
            o.request_timeout_secs == 30,
            o.default_output_dtype == ArrowOutputDtype::F32,
            o.stream_max_concurrent_batches == 4,
    {
        GrpcOptions {
            max_message_size_mb: 16,
            max_parallel_streams: 1024,
            request_timeout_secs: 30,
            default_output_dtype: ArrowOutputDtype::F32,
            stream_max_concurrent_batches: 4,
        }
    }
}

impl GrpcOptions {
    /// The options that the manager's settings ask for.
    pub fn from_config(config: &ManagerConfig) -> (o: Self)
        ensures
            o.max_message_size_mb == config.grpc_max_message_size_mb,
            o.max_parallel_streams == config.grpc_max_parallel_streams,
            o.request_timeout_secs == config.grpc_request_timeout_secs,
            o.default_output_dtype == config.arrow_output_dtype,
            o.stream_max_concurrent_batches == config.grpc_stream_max_concurrent_batches,
    {
        GrpcOptions {
            max_message_size_mb: config.grpc_max_message_size_mb,
            max_parallel_streams: config.grpc_max_parallel_streams,
            request_timeout_secs: config.grpc_request_timeout_secs,
            default_output_dtype: config.arrow_output_dtype,
            stream_max_concurrent_batches: config.grpc_stream_max_concurrent_batches,
        }
    }

    /// The multiplexer, and the largest message in bytes.
    pub fn build_service(&self) -> (r: (TeiMultiplexerService, usize))
        requires
            self.max_message_size_mb * 1048576 <= usize::MAX,
        ensures
            r.0.max_parallel_stream_requests == self.max_parallel_streams,
            r.0.request_timeout_secs == (if self.request_timeout_secs > 0 {
                Some(self.request_timeout_secs)
            } else {
                None
            }),
            r.0.default_output_dtype == self.default_output_dtype,
            r.0.stream_max_concurrent_batches == self.stream_max_concurrent_batches,
            r.0.route_counter == 0,
            r.1 == self.max_message_size_mb * 1048576,
    {
        let service = TeiMultiplexerService::new(
            self.max_parallel_streams,
            self.request_timeout_secs,
        ).with_default_output_dtype(self.default_output_dtype).with_stream_max_concurrent_batches(
            self.stream_max_concurrent_batches,
        );
        (service, self.max_message_size_mb * 1048576)
    }
}

} // verus!
