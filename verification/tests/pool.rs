//! The pool of backend connections, and the server's options.

use std::time::Duration;
use tei_manager::config::{ArrowOutputDtype, ManagerConfig};
use tei_manager::grpc::pool::{
    BackendPool, ConnectionEntry, InstanceEvent, DEFAULT_MAX_IDLE_SECS,
    DEFAULT_PRUNE_INTERVAL_SECS, NANOS,
};
use tei_manager::grpc::server::GrpcOptions;
use tei_manager::grpc::status::Code;

#[test]
fn test_pool_stats() {
    let pool = BackendPool::new();

    let stats = pool.stats(0);
    assert_eq!(stats.active_connections, 0);
}

#[test]
fn test_pool_remove() {
    let mut pool = BackendPool::new();

    // Removing non-existent connection returns false
    assert!(!pool.remove("nonexistent"));
    pool.connected("a", 1);
    assert!(pool.holds("a"));
    assert!(pool.remove("a"));
    assert!(!pool.holds("a"));
}

#[test]
fn test_pool_clear() {
    let mut pool = BackendPool::new();
    pool.connected("a", 1);
    pool.connected("b", 2);
    assert_eq!(pool.stats(3).active_connections, 2);

    pool.clear();
    assert_eq!(pool.stats(3).active_connections, 0);
}

#[test]
fn test_get_clients_not_found() {
    let mut pool = BackendPool::new();

    assert!(!pool.get_clients("nonexistent", 0));
    let err = BackendPool::endpoint("nonexistent", None).unwrap_err();
    assert_eq!(err.code, Code::NotFound);
    assert_eq!(err.message, "Instance 'nonexistent' not found");
}

#[test]
fn test_get_clients_not_running() {
    let mut pool = BackendPool::new();

    // There is an instance, but nobody answers at its port.
    assert!(!pool.get_clients("test", 0));
    assert_eq!(BackendPool::endpoint("test", Some(59998)).unwrap(), "http://127.0.0.1:59998");
    let err = BackendPool::connect_failed("refused");
    assert_eq!(err.code, Code::Unavailable);
    assert_eq!(err.message, "Failed to connect to backend: refused");
    assert!(!pool.holds("test"));
    assert_eq!(BackendPool::invalid_endpoint("x").code, Code::Internal);
}

#[test]
fn test_lifecycle_events_subscribed() {
    let mut pool = BackendPool::new();
    for name in ["a", "b", "c"] {
        pool.connected(name, 0);
    }
    assert!(pool.handle_lifecycle_event(&InstanceEvent::Removed("a".to_string())));
    assert!(pool.handle_lifecycle_event(&InstanceEvent::Stopped("b".to_string())));
    assert!(!pool.handle_lifecycle_event(&InstanceEvent::Removed("a".to_string())));
    assert!(!pool.handle_lifecycle_event(&InstanceEvent::Started("c".to_string())));
    assert!(!pool.holds("a"));
    assert!(!pool.holds("b"));
    assert!(pool.holds("c"));
}

#[test]
fn test_pool_with_custom_pruning_config() {
    let pool = BackendPool::with_pruning_config(
        Duration::from_secs(60).as_nanos(),  // 1 minute prune interval
        Duration::from_secs(120).as_nanos(), // 2 minute max idle
    );

    let stats = pool.stats(0);
    assert_eq!(stats.prune_interval_secs, 60);
    assert_eq!(stats.max_idle_threshold_secs, 120);
}

#[test]
fn test_pool_stats_empty() {
    let pool = BackendPool::new();

    let stats = pool.stats(0);
    assert_eq!(stats.active_connections, 0);
    assert!(stats.oldest_connection_age_secs.is_none());
    assert_eq!(stats.max_idle_secs, 0);
}

#[test]
fn test_prune_idle_connections_empty_pool() {
    let mut pool = BackendPool::with_pruning_config(
        Duration::from_secs(1).as_nanos(),
        Duration::from_millis(100).as_nanos(), // Very short idle time
    );

    // Pruning empty pool should return 0
    assert_eq!(pool.prune_idle_connections(&vec![], 0), 0);
}

#[test]
fn test_prune_orphaned_connections_empty_pool() {
    let mut pool = BackendPool::new();

    // Pruning empty pool should return 0
    assert_eq!(pool.prune_orphaned_connections(&vec![]), 0);
}

#[test]
fn test_connection_entry_touch() {
    let mut entry = ConnectionEntry::new(5);
    assert_eq!((entry.created_at, entry.last_used), (5, 5));
    entry.touch(9);
    assert_eq!((entry.created_at, entry.last_used), (5, 9));
}

#[test]
fn test_stats_default_values() {
    let pool = BackendPool::new();

    let stats = pool.stats(0);
    assert_eq!(stats.prune_interval_secs, DEFAULT_PRUNE_INTERVAL_SECS);
    assert_eq!(stats.max_idle_threshold_secs, DEFAULT_MAX_IDLE_SECS);
}

#[test]
fn used_connections_survive() {
    let mut pool = BackendPool::with_pruning_config(60 * NANOS as u128, 10 * NANOS as u128);
    pool.connected("used", 0);
    pool.connected("idle", 0);
    assert!(pool.get_clients("used", 8 * NANOS));

    let stats = pool.stats(9 * NANOS);
    assert_eq!(stats.active_connections, 2);
    assert_eq!(stats.oldest_connection_age_secs, Some(9));
    assert_eq!(stats.max_idle_secs, 9);

    // Idle for as long as is allowed, then longer.
    let known = vec!["used".to_string(), "idle".to_string()];
    assert_eq!(pool.prune_idle_connections(&known, 10 * NANOS), 0);
    assert_eq!(pool.prune_idle_connections(&known, 11 * NANOS), 1);
    assert!(pool.holds("used"));
    assert!(!pool.holds("idle"));
}

#[test]
fn connections_to_nobody_are_no_use() {
    let mut pool = BackendPool::with_pruning_config(60 * NANOS as u128, 10 * NANOS as u128);
    for name in ["kept", "gone", "idle"] {
        pool.connected(name, 0);
    }
    assert!(pool.get_clients("kept", 20 * NANOS));
    assert!(pool.get_clients("gone", 20 * NANOS));
    let known = vec!["kept".to_string(), "idle".to_string()];
    assert_eq!(pool.prune_idle_connections(&known, 20 * NANOS), 2);
    assert!(pool.holds("kept"));
    assert!(!pool.holds("gone"));
    assert!(!pool.holds("idle"));
}

#[test]
fn connections_to_nobody_are_dropped() {
    let mut pool = BackendPool::new();
    for name in ["a", "b", "c"] {
        pool.connected(name, 0);
    }
    assert_eq!(pool.prune_orphaned_connections(&vec!["b".to_string(), "x".to_string()]), 2);
    assert!(pool.holds("b"));
    assert_eq!(pool.stats(0).active_connections, 1);
}

#[test]
fn test_message_size_calculation() {
    // Test that message size calculation works correctly
    let (_, max_message_size) = GrpcOptions::default().build_service();
    assert_eq!(max_message_size, 16 * 1024 * 1024);
    assert_eq!(max_message_size, 16_777_216);

    // Test with 1 MB
    let options = GrpcOptions { max_message_size_mb: 1, ..Default::default() };
    assert_eq!(options.build_service().1, 1_048_576);
}

#[test]
fn test_build_services_creates_valid_services() {
    let (_service, max_size) = GrpcOptions::default().build_service();
    assert_eq!(max_size, 16 * 1024 * 1024);
}

#[test]
fn options_come_from_the_settings() {
    let config = ManagerConfig {
        grpc_max_parallel_streams: 7,
        grpc_request_timeout_secs: 0,
        arrow_output_dtype: ArrowOutputDtype::F16,
        grpc_stream_max_concurrent_batches: 9,
        ..Default::default()
    };
    let (service, bytes) = GrpcOptions::from_config(&config).build_service();
    assert_eq!(service.max_parallel_stream_requests, 7);
    assert_eq!(service.request_timeout_secs, None);
    assert_eq!(service.default_output_dtype, ArrowOutputDtype::F16);
    assert_eq!(service.stream_max_concurrent_batches, 9);
    assert_eq!(bytes, 40 * 1024 * 1024);
}

#[test]
fn idle_times_need_not_be_whole_seconds() {
    const MILLIS: u64 = 1_000_000;
    let mut pool = BackendPool::with_pruning_config(
        Duration::from_millis(1500).as_nanos(),
        Duration::from_millis(100).as_nanos(),
    );
    let stats = pool.stats(0);
    assert_eq!((stats.prune_interval_secs, stats.max_idle_threshold_secs), (1, 0));
    pool.connected("a", 0);
    let known = vec!["a".to_string()];
    assert_eq!(pool.prune_idle_connections(&known, 100 * MILLIS), 0);
    assert_eq!(pool.prune_idle_connections(&known, 100 * MILLIS + 1), 1);
    let longest = BackendPool::with_pruning_config(Duration::MAX.as_nanos(), u128::MAX).stats(0);
    assert_eq!((longest.prune_interval_secs, longest.max_idle_threshold_secs), (u64::MAX, u64::MAX));
}
