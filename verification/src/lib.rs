//! Control plane for a fleet of text-embedding backends: configuration, GPU
//! checks, instance lifecycle, health monitoring, authentication, and the
//! multiplexer that routes batches of rows to running instances.
//!
//! Everything here decides and computes on plain values. Processes, sockets,
//! files and clocks stay with the caller, which hands in what it observed and
//! carries out what is decided.

pub mod api;
pub mod auth;
pub mod bench;
pub mod config;
pub mod error;
pub mod gpu;
pub mod grpc;
pub mod health;
pub mod instance;
pub mod metrics;
pub mod sorting;
pub mod text;
