//! Watching over instances.

use tei_manager::config::{GpuFallback, InstanceConfig};
use tei_manager::health::{
    exit_reason, CheckStep, GrpcHealthChecker, HealthCheckResult, HealthEvent, HealthMonitor,
    HealthMonitorConfig, ProbeOutcome, ProcessFacts, ReadyStep, NANOS_PER_SEC,
};
use tei_manager::instance::{handle_for_pid, InstanceStatus, ProcessExit, TeiInstance};

const SEC: i128 = 1_000_000_000;
const NOW: i128 = 1_700_000_000 * SEC;

fn config(name: &str, startup_timeout_secs: Option<u64>) -> InstanceConfig {
    InstanceConfig {
        name: name.to_string(),
        model_id: "model".to_string(),
        port: 8080,
        max_batch_tokens: 1024,
        max_concurrent_requests: 10,
        startup_timeout_secs,
        ..Default::default()
    }
}

/// An instance that was started a moment ago.
fn starting(name: &str, startup_timeout_secs: Option<u64>) -> TeiInstance {
    let mut instance = TeiInstance::new(config(name, startup_timeout_secs));
    instance.started(handle_for_pid(1), NOW);
    instance
}

fn alive() -> ProcessFacts {
    ProcessFacts {
        now: NOW,
        running: true,
        exit: None,
        last_log_write: None,
        gpu_fallback: None,
    }
}

fn dead(code: i32, last_log_error: Option<&str>) -> ProcessFacts {
    ProcessFacts {
        running: false,
        exit: Some(ProcessExit {
            code: Some(code),
            signal: None,
            last_log_error: last_log_error.map(|s| s.to_string()),
        }),
        ..alive()
    }
}

fn monitor(config: HealthMonitorConfig) -> HealthMonitor {
    HealthMonitor { config, tei_binary_path: "mock".to_string() }
}

fn unhealthy(reason: &str) -> HealthCheckResult {
    HealthCheckResult::unhealthy(reason.to_string())
}

fn has(step: &CheckStep, test: fn(&HealthEvent) -> bool) -> bool {
    step.events.iter().any(test)
}

fn secs(n: u64) -> u128 {
    n as u128 * NANOS_PER_SEC
}

#[test]
fn test_health_monitor_creation() {
    let monitor = HealthMonitor::new(30, 60, 3, true, "text-embeddings-router".to_string());

    assert_eq!(monitor.config.check_interval, secs(30));
    assert_eq!(monitor.config.initial_delay, secs(30));
    assert_eq!(monitor.config.startup_timeout, secs(60));
    assert_eq!(monitor.config.max_failures_before_restart, 3);
    assert!(monitor.config.auto_restart);
}

#[test]
fn test_health_monitor_builder() {
    let config = HealthMonitorConfig::builder()
        .check_interval(secs(45))
        .initial_delay(secs(90))
        .startup_timeout(secs(120))
        .max_failures_before_restart(5)
        .auto_restart(false)
        .build();

    let monitor = HealthMonitor { config, tei_binary_path: "tei".to_string() };

    assert_eq!(monitor.config.check_interval, secs(45));
    assert_eq!(monitor.config.initial_delay, secs(90));
    assert_eq!(monitor.config.startup_timeout, secs(120));
    assert_eq!(monitor.config.max_failures_before_restart, 5);
    assert!(!monitor.config.auto_restart);
}

#[test]
fn test_health_monitor_with_mocks() {
    let mut instance = TeiInstance::new(config("test-monitor", None));
    let monitor = monitor(
        HealthMonitorConfig::builder().max_failures_before_restart(3).auto_restart(true).build(),
    );

    // Test successful check
    let step =
        monitor.check_single_instance(&mut instance, HealthCheckResult::healthy(), &alive());
    assert!(has(&step, |e| matches!(e, HealthEvent::CheckSucceeded { .. })));

    // Test failure leading to restart
    let mut restarts = 0;
    let mut triggered = false;
    for _ in 0..3 {
        let step =
            monitor.check_single_instance(&mut instance, unhealthy("Connection lost"), &alive());
        triggered = triggered || has(&step, |e| matches!(e, HealthEvent::RestartTriggered { .. }));
        if step.restart {
            restarts += 1;
        }
    }

    assert_eq!(restarts, 1);
    assert!(triggered);
    let event = monitor.restart_done(&mut instance, Ok(()));
    assert!(matches!(event, HealthEvent::RestartSucceeded { .. }));
    assert_eq!(event.counted_restart(), None);
}

#[test]
fn test_auto_restart_disabled() {
    let mut instance = TeiInstance::new(config("no-restart", None));
    let monitor = monitor(
        HealthMonitorConfig::builder()
            .max_failures_before_restart(3)
            .auto_restart(false) // Disabled
            .build(),
    );

    // Fail many times
    for _ in 0..5 {
        let step = monitor.check_single_instance(&mut instance, unhealthy("fail"), &alive());
        // Should NOT have triggered restart
        assert!(!step.restart);
        assert!(!has(&step, |e| matches!(e, HealthEvent::RestartTriggered { .. })));
    }
    assert_eq!(instance.stats.health_check_failures, 5);
}

#[test]
fn test_recovery_after_failure() {
    let mut instance = TeiInstance::new(config("recovery-test", None));
    let monitor = monitor(
        HealthMonitorConfig::builder().max_failures_before_restart(5).auto_restart(true).build(),
    );

    // Fail 3 times
    for _ in 0..3 {
        let step =
            monitor.check_single_instance(&mut instance, unhealthy("temporary issue"), &alive());
        assert!(!step.restart);
    }

    // Then recover
    let step =
        monitor.check_single_instance(&mut instance, HealthCheckResult::healthy(), &alive());

    // Should NOT have triggered restart (recovered before threshold)
    assert!(!step.restart);

    // Verify failure count was reset
    assert_eq!(instance.stats.health_check_failures, 0);
    assert_eq!(instance.stats.last_health_check, Some(NOW));
}

#[test]
fn test_starting_instance_not_failed_by_health_checks() {
    let mut instance = starting("starting-test", None);
    let monitor = monitor(
        HealthMonitorConfig::builder().max_failures_before_restart(3).auto_restart(true).build(),
    );

    // Fail many times while instance is Starting
    for _ in 0..10 {
        let step =
            monitor.check_single_instance(&mut instance, unhealthy("connection refused"), &alive());
        // Should NOT have triggered restart (instance is still Starting)
        assert!(!step.restart);
        // CheckFailed events should NOT have been emitted for Starting instances
        assert!(!has(&step, |e| matches!(e, HealthEvent::CheckFailed { .. })));
    }

    // Verify failure count was NOT incremented (Starting instances are skipped)
    assert_eq!(instance.stats.health_check_failures, 0);

    // Still starting: within the timeout and the process is alive
    assert_eq!(instance.status, InstanceStatus::Starting);
    assert!(instance.stats.last_error.is_none());
}

#[test]
fn test_starting_instance_with_active_log_survives_timeout() {
    // 1s startup timeout, already elapsed - but the log is fresh
    let mut instance = starting("loading", Some(1));
    instance.stats.started_at = Some(NOW - 60 * SEC);
    let monitor = monitor(HealthMonitorConfig::default());

    let fresh = ProcessFacts { last_log_write: Some(NOW), ..alive() };
    monitor.check_single_instance(&mut instance, unhealthy("not ready"), &fresh);
    // live process with active log must keep loading
    assert_eq!(instance.status, InstanceStatus::Starting);

    // Log goes stale: now it fails
    let stale = ProcessFacts { last_log_write: Some(NOW - 3600 * SEC), ..alive() };
    monitor.check_single_instance(&mut instance, unhealthy("not ready"), &stale);
    assert_eq!(instance.status, InstanceStatus::Failed);
    assert_eq!(
        instance.stats.last_error.as_deref(),
        Some("did not become ready within 1s (last check: not ready)")
    );
}

#[test]
fn test_starting_instance_stall_window_configurable() {
    let mut instance = starting("stall-cfg", Some(1));
    instance.stats.started_at = Some(NOW - 60 * SEC);
    // Log written 10s ago: inside the default 60s window, outside a 5s one
    let facts = ProcessFacts { last_log_write: Some(NOW - 10 * SEC), ..alive() };
    let lenient = monitor(HealthMonitorConfig::default());
    let mut other = instance.clone();
    lenient.check_single_instance(&mut other, unhealthy("not ready"), &facts);
    assert_eq!(other.status, InstanceStatus::Starting);

    let strict = lenient.with_startup_log_stall(secs(5));
    strict.check_single_instance(&mut instance, unhealthy("not ready"), &facts);
    assert_eq!(instance.status, InstanceStatus::Failed);
}

#[test]
fn test_starting_instance_fails_when_process_exits() {
    let mut instance = starting("exits", None);
    let monitor = monitor(HealthMonitorConfig::default());

    // Alive but not ready: stays Starting
    monitor.check_single_instance(&mut instance, unhealthy("gRPC connect failed"), &alive());
    assert_eq!(instance.status, InstanceStatus::Starting);

    // Process dies (e.g. compute-cap mismatch): must flip to Failed immediately
    let step = monitor.check_single_instance(
        &mut instance,
        unhealthy("process exited with code 1"),
        &dead(1, Some("Runtime compute cap 120 is not compatible")),
    );

    assert_eq!(instance.status, InstanceStatus::Failed);
    assert_eq!(
        instance.stats.last_error.as_deref(),
        Some(
            "exited during startup: process exited with code 1: Runtime compute cap 120 is not compatible"
        )
    );

    // Exactly one Starting -> Failed transition, no restart during startup
    assert!(!step.restart);
    assert_eq!(step.events.len(), 1);
    assert!(has(&step, |e| matches!(
        e,
        HealthEvent::StatusTransition {
            from: InstanceStatus::Starting,
            to: InstanceStatus::Failed,
            ..
        }
    )));
}

#[test]
fn test_starting_instance_fails_after_startup_timeout() {
    let mut instance = starting("slow", None);
    let monitor = monitor(HealthMonitorConfig::builder().startup_timeout(secs(300)).build());

    // Within the timeout: still Starting
    monitor.check_single_instance(&mut instance, unhealthy("gRPC connect failed"), &alive());
    assert_eq!(instance.status, InstanceStatus::Starting);

    // Pretend it started long ago
    instance.stats.started_at = Some(NOW - 301 * SEC);
    monitor.check_single_instance(&mut instance, unhealthy("gRPC connect failed"), &alive());

    assert_eq!(instance.status, InstanceStatus::Failed);
    let err = instance.stats.last_error.unwrap();
    assert!(err.contains("did not become ready within 300s"), "{err}");
}

#[test]
fn test_per_instance_startup_timeout_overrides_global() {
    // Instance allows 1000s even though the monitor default is 300s
    let mut instance = starting("big-model", Some(1000));
    let monitor = monitor(HealthMonitorConfig::builder().startup_timeout(secs(300)).build());

    instance.stats.started_at = Some(NOW - 600 * SEC);
    monitor.check_single_instance(&mut instance, unhealthy("gRPC connect failed"), &alive());
    assert_eq!(instance.status, InstanceStatus::Starting);

    instance.stats.started_at = Some(NOW - 1001 * SEC);
    monitor.check_single_instance(&mut instance, unhealthy("gRPC connect failed"), &alive());
    assert_eq!(instance.status, InstanceStatus::Failed);
}

#[test]
fn test_wait_for_ready_bails_when_process_exits() {
    let mut instance = starting("dead", None);
    let facts = dead(2, None);
    let result = GrpcHealthChecker::check_process(&facts).unwrap();
    let step = GrpcHealthChecker::wait_step(&mut instance, result, &facts, GpuFallback::Fail);
    match step {
        ReadyStep::Failed(message) => assert_eq!(
            message,
            "Instance 'dead' exited during startup: process exited with code 2"
        ),
        _ => panic!("must give up"),
    }
}

#[test]
fn test_failed_restart_records_reason() {
    let mut instance = starting("restart-fails", None);
    instance.status = InstanceStatus::Running;
    let monitor = monitor(
        HealthMonitorConfig::builder().max_failures_before_restart(2).auto_restart(true).build(),
    );

    let step = monitor.check_single_instance(&mut instance, unhealthy("Info RPC failed"), &alive());
    assert!(!step.restart);
    assert_eq!(instance.status, InstanceStatus::Running);
    let step = monitor.check_single_instance(&mut instance, unhealthy("Info RPC failed"), &alive());

    assert!(step.restart);
    let event = monitor.restart_done(&mut instance, Err("Mock restart failed".to_string()));
    assert!(matches!(event, HealthEvent::RestartFailed { .. }));
    assert_eq!(instance.status, InstanceStatus::Failed);
    let err = instance.stats.last_error.unwrap();
    assert!(err.contains("restart failed: Mock restart failed"), "{err}");
}

#[test]
fn test_wait_for_ready_times_out_while_process_alive() {
    // Mock process stays alive but nothing listens on the port, so the
    // gRPC probe keeps failing until the timeout.
    let mut instance = starting("never-ready", None);
    assert!(GrpcHealthChecker::check_process(&alive()).is_none());
    let result = GrpcHealthChecker::check_probe(ProbeOutcome::ConnectFailed("refused".to_string()));
    assert_eq!(result.reason.as_deref(), Some("gRPC connect failed: refused"));
    let step = GrpcHealthChecker::wait_step(&mut instance, result, &alive(), GpuFallback::Fail);
    assert!(matches!(step, ReadyStep::Wait));

    let timeout_nanos = 300_000_000;
    assert_eq!(
        GrpcHealthChecker::waited_too_long("never-ready", 300_000_000, 0, timeout_nanos),
        None
    );
    assert_eq!(
        GrpcHealthChecker::waited_too_long("never-ready", 300_000_001, 0, timeout_nanos).as_deref(),
        Some("Instance 'never-ready' did not become ready within 300ms")
    );
    // wait_for_ready reports; the caller decides how to mark the instance
    assert_eq!(instance.status, InstanceStatus::Starting);
}

#[test]
fn a_ready_instance_runs() {
    let mut instance = starting("ready", None);
    let result = GrpcHealthChecker::check_probe(ProbeOutcome::Answered);
    assert!(result.healthy);
    let step = GrpcHealthChecker::wait_step(&mut instance, result, &alive(), GpuFallback::Fail);
    assert!(matches!(step, ReadyStep::Ready));
    assert_eq!(instance.status, InstanceStatus::Running);
    assert_eq!(GrpcHealthChecker::address(8080), "http://localhost:8080");
    let invalid = GrpcHealthChecker::check_probe(ProbeOutcome::InvalidAddress);
    assert_eq!(invalid.reason.as_deref(), Some("Invalid gRPC address"));
    let failed = GrpcHealthChecker::check_probe(ProbeOutcome::InfoFailed("x".to_string()));
    assert_eq!(failed.reason.as_deref(), Some("Info RPC failed: x"));
}

#[test]
fn test_restart_puts_instance_back_into_starting_with_fresh_error() {
    let mut instance = starting("cycle", None);
    instance.mark_failed("boom".to_string());
    assert!(instance.stats.last_error.is_some());

    instance.begin_stop();
    instance.stopped();
    instance.started(handle_for_pid(2), NOW);
    instance.restarted();
    assert_eq!(instance.status, InstanceStatus::Starting);
    assert!(instance.stats.last_error.is_none());
    assert!(instance.process.is_some());
}

#[test]
fn test_running_instance_fails_after_threshold() {
    let mut instance = TeiInstance::new(config("running-test", None));

    // Set instance status to Running (fully operational)
    instance.status = InstanceStatus::Running;

    let monitor = monitor(
        HealthMonitorConfig::builder().max_failures_before_restart(3).auto_restart(true).build(),
    );

    // Fail exactly 3 times (threshold)
    let mut restarts = 0;
    for n in 1..4 {
        let step =
            monitor.check_single_instance(&mut instance, unhealthy("connection refused"), &alive());
        // CheckFailed events should have been emitted
        assert!(has(&step, |e| matches!(e, HealthEvent::CheckFailed { .. })));
        if step.restart {
            restarts += 1;
            // RestartTriggered should have been emitted
            assert_eq!(step.events[1].counted_restart(), Some("running-test"));
            assert_eq!(n, 3);
        }
    }

    // Should have triggered restart (Running instance exceeded threshold)
    assert_eq!(restarts, 1);
}

#[test]
fn a_healthy_instance_that_fell_back_to_the_cpu_fails() {
    let facts = ProcessFacts { gpu_fallback: Some("Using CPU instead".to_string()), ..alive() };

    let mut failing = starting("f", None);
    let strict = monitor(HealthMonitorConfig::default());
    let step = strict.check_single_instance(&mut failing, HealthCheckResult::healthy(), &facts);
    assert_eq!(failing.status, InstanceStatus::Failed);
    assert_eq!(failing.stats.last_error.as_deref(), Some("Using CPU instead"));
    assert_eq!(step.events.len(), 1);

    let mut warned = starting("w", None);
    let lenient =
        monitor(HealthMonitorConfig::builder().gpu_fallback(GpuFallback::Warn).build());
    lenient.check_single_instance(&mut warned, HealthCheckResult::healthy(), &facts);
    assert_eq!(warned.status, InstanceStatus::Running);
    assert_eq!(warned.stats.last_error.as_deref(), Some("Using CPU instead"));

    let mut ignored = starting("i", None);
    let blind = monitor(HealthMonitorConfig::builder().gpu_fallback(GpuFallback::Off).build());
    let step = blind.check_single_instance(&mut ignored, HealthCheckResult::healthy(), &facts);
    assert_eq!(ignored.status, InstanceStatus::Running);
    assert_eq!(ignored.stats.last_error, None);
    assert_eq!(step.events.len(), 2);
}

#[test]
fn reasons_are_told_from_the_best_source() {
    let exit = ProcessExit { code: Some(3), signal: None, last_log_error: None };
    assert_eq!(exit_reason(&Some(exit), Some("probe".to_string())), "process exited with code 3");
    assert_eq!(exit_reason(&None, Some("probe".to_string())), "probe");
    assert_eq!(exit_reason(&None, None), "process not running");
    let instance = starting("begin", None);
    assert!(matches!(
        HealthMonitor::check_started(&instance),
        HealthEvent::CheckStarted { .. }
    ));
}

#[test]
fn waiting_for_an_instance_looks_for_a_fallback_too() {
    let line = "Using CPU instead";
    let facts = ProcessFacts { gpu_fallback: Some(line.to_string()), ..alive() };
    let look = |policy: GpuFallback| {
        let mut instance = starting("fallback", None);
        let result = HealthCheckResult::healthy();
        let step = GrpcHealthChecker::wait_step(&mut instance, result, &facts, policy);
        (step, instance)
    };

    let (step, instance) = look(GpuFallback::Fail);
    assert!(matches!(step, ReadyStep::Failed(message) if message == line));
    assert_eq!(instance.status, InstanceStatus::Failed);
    assert_eq!(instance.stats.last_error.as_deref(), Some(line));

    let (step, instance) = look(GpuFallback::Warn);
    assert!(matches!(step, ReadyStep::Ready));
    assert_eq!(instance.status, InstanceStatus::Running);
    assert_eq!(instance.stats.last_error.as_deref(), Some(line));

    let (step, instance) = look(GpuFallback::Off);
    assert!(matches!(step, ReadyStep::Ready));
    assert_eq!(instance.status, InstanceStatus::Running);
    assert_eq!(instance.stats.last_error, None);
}

#[test]
fn restarts_in_a_row_are_counted() {
    let monitor = monitor(HealthMonitorConfig::builder().max_failures_before_restart(2).build());
    let mut instance = starting("test", None);
    instance.status = InstanceStatus::Running;
    for n in 1..=4 {
        let facts = ProcessFacts { now: NOW + n * SEC, ..alive() };
        let step = monitor.handle_failure(&mut instance, "down".to_string(), &facts);
        assert_eq!(step.restart, n >= 2);
    }
    assert_eq!(instance.stats.backoff_restarts, 3);
    assert_eq!(instance.stats.last_restart_at, Some(NOW + 4 * SEC));
    let facts = ProcessFacts { now: NOW + 5 * SEC, ..alive() };
    monitor.handle_success(&mut instance, &facts);
    assert_eq!(instance.stats.backoff_restarts, 0);
    assert_eq!(instance.stats.last_restart_at, Some(NOW + 4 * SEC));
}
