//! Instances: what their processes are started with, what their logs say, and
//! how their state changes.

use tei_manager::config::InstanceConfig;
use tei_manager::instance::{
    fallback_log_dir, gpu_fallback_evidence, handle_for_pid, last_log_error, log_dir, reap,
    stop_action, InstanceStatus, ProcessExit, StopAction, StopEvent, TeiInstance, WaitOutcome,
};

fn log(lines: &[&str]) -> String {
    lines.join("\n")
}

#[test]
fn test_last_log_error_extracts_json_message() {
    let tail = log(&[
        r#"{"level":"INFO","message":"Starting model backend"}"#,
        r#"{"level":"ERROR","message":"Could not start Candle backend: compute cap 120"}"#,
        "Error: Could not create backend",
        "",
        "Caused by:",
        "    Could not start backend",
    ]);
    // The structured ERROR line carries the real cause and wins over the
    // trailing plain `Error:` report.
    assert_eq!(
        last_log_error(&tail).as_deref(),
        Some("Could not start Candle backend: compute cap 120")
    );
}

#[test]
fn test_last_log_error_falls_back_to_plain_error_line() {
    let tail = log(&[
        r#"{"level":"INFO","message":"hello"}"#,
        "Error: Could not create backend",
        "Caused by: something",
    ]);
    assert_eq!(
        last_log_error(&tail).as_deref(),
        Some("Error: Could not create backend")
    );
}

#[test]
fn test_last_log_error_parses_json_error_line() {
    let tail = log(&[
        r#"{"level":"INFO","message":"hello"}"#,
        r#"{"level":"ERROR","message":"boom","target":"x"}"#,
        r#"{"level":"INFO","message":"after"}"#,
    ]);
    assert_eq!(last_log_error(&tail).as_deref(), Some("boom"));
}

#[test]
fn test_last_log_error_none_when_no_errors_or_missing_file() {
    let tail = log(&[r#"{"level":"INFO","message":"fine"}"#]);
    assert_eq!(last_log_error(&tail), None);
    // Without a log there is no error in it either.
    let exit = reap(WaitOutcome::Exited { code: Some(1), signal: None }, None).unwrap();
    assert_eq!(exit.last_log_error, None);
}

#[test]
fn the_last_of_several_errors_counts() {
    let tail = log(&[
        r#"{"level":"ERROR","message":"first"}"#,
        r#"{"level":"ERROR","message":"second"}"#,
        r#"{"level":"ERROR","note":"no message here"}"#,
    ]);
    let found = last_log_error(&tail);
    assert!(found.is_some());
    assert_ne!(found.as_deref(), Some("first"));
}

#[test]
fn test_gpu_fallback_evidence_detects_cpu_fallback() {
    let head = log(&[
        r#"{"level":"INFO","message":"Args { model_id: \"BAAI/bge-small-en-v1.5\" }"}"#,
        r#"{"level":"WARN","message":"Could not create backend","target":"text_embeddings_backend"}"#,
        r#"{"level":"WARN","message":"Could not create backend","target":"text_embeddings_backend"}"#,
        r#"{"level":"WARN","message":"Using CPU instead","target":"text_embeddings_backend"}"#,
        r#"{"level":"INFO","message":"Ready"}"#,
    ]);
    // The last matching line wins and its JSON message is extracted
    assert_eq!(
        gpu_fallback_evidence(&head).as_deref(),
        Some("Using CPU instead")
    );
}

#[test]
fn test_gpu_fallback_evidence_backend_failure_only() {
    let head = log(&["Could not create backend: CUDA_ERROR_COMPAT_NOT_SUPPORTED_ON_DEVICE"]);
    // Non-JSON line: returned verbatim
    assert_eq!(
        gpu_fallback_evidence(&head).as_deref(),
        Some("Could not create backend: CUDA_ERROR_COMPAT_NOT_SUPPORTED_ON_DEVICE")
    );
}

#[test]
fn test_gpu_fallback_evidence_none_for_healthy_cuda_log() {
    let head = log(&[
        r#"{"level":"INFO","message":"Starting FlashBert model on Cuda(CudaDevice(DeviceId(1)))"}"#,
        r#"{"level":"INFO","message":"Ready"}"#,
    ]);
    assert_eq!(gpu_fallback_evidence(&head), None);
    assert_eq!(gpu_fallback_evidence(""), None);
}

#[test]
fn test_gpu_fallback_evidence_cleared_by_later_cuda_start() {
    // Logs are appended across restarts: a failed CPU run followed by a
    // successful GPU run must not be flagged.
    let head = log(&[
        r#"{"level":"WARN","message":"Could not create backend"}"#,
        r#"{"level":"WARN","message":"Using CPU instead"}"#,
        r#"{"level":"INFO","message":"Starting FlashBert model on Cuda(CudaDevice(DeviceId(0)))"}"#,
    ]);
    assert_eq!(gpu_fallback_evidence(&head), None);
}

#[test]
fn test_process_exit_display() {
    let code = ProcessExit {
        code: Some(1),
        signal: None,
        last_log_error: Some("bad cap".to_string()),
    };
    assert_eq!(code.to_string(), "process exited with code 1: bad cap");

    let sig = ProcessExit {
        code: None,
        signal: Some(9),
        last_log_error: None,
    };
    assert_eq!(sig.to_string(), "process killed by signal 9");

    let unknown = ProcessExit {
        code: None,
        signal: None,
        last_log_error: None,
    };
    assert_eq!(unknown.to_string(), "process exited");
}

fn config(name: &str, model_id: &str, port: u16) -> InstanceConfig {
    InstanceConfig {
        name: name.to_string(),
        model_id: model_id.to_string(),
        port,
        ..Default::default()
    }
}

#[test]
fn test_mark_failed_records_reason_and_start_clears_it() {
    let mut instance = TeiInstance::new(config("mf", "m", 9999));

    instance.mark_failed("compute cap mismatch".to_string());
    assert_eq!(instance.status, InstanceStatus::Failed);
    assert_eq!(instance.stats.last_error.as_deref(), Some("compute cap mismatch"));

    instance.started(handle_for_pid(7), 1);
    assert_eq!(instance.status, InstanceStatus::Starting);
    assert!(instance.stats.last_error.is_none());
}

#[test]
fn test_instance_creation() {
    let instance = TeiInstance::new(config("test", "test-model", 9999));
    assert_eq!(instance.status, InstanceStatus::Stopped);
    assert!(instance.process.is_none());
}

#[test]
fn test_instance_start() {
    let mut instance = TeiInstance::new(InstanceConfig {
        max_batch_tokens: 2048,
        max_concurrent_requests: 20,
        pooling: Some("mean".to_string()),
        gpu_id: Some(0),
        prometheus_port: Some(9090),
        extra_args: vec!["--trust-remote-code".to_string()],
        ..config("test-start", "bert-base", 8080)
    });
    let spawn = instance.spawn_config("/usr/bin/tei", "warn");
    assert_eq!(
        spawn.args(),
        vec![
            "--model-id",
            "bert-base",
            "--port",
            "8080",
            "--max-batch-tokens",
            "2048",
            "--max-concurrent-requests",
            "20",
            "--json-output",
            "--pooling",
            "mean",
            "--prometheus-port",
            "9090",
            "--trust-remote-code",
        ]
    );
    assert_eq!(spawn.log_file_name(), "test-start.log");

    instance.started(handle_for_pid(1234), 5);
    assert_eq!(instance.status, InstanceStatus::Starting);
    assert_eq!(instance.process.as_ref().unwrap().id, "process_1234");
}

#[test]
fn test_instance_stop() {
    let mut instance = TeiInstance::new(config("test-stop", "test-model", 8081));
    instance.started(handle_for_pid(1), 5);

    let process = instance.begin_stop();
    assert_eq!(process.unwrap().id, "process_1");
    assert_eq!(instance.status, InstanceStatus::Stopping);
    instance.stopped();
    assert_eq!(instance.status, InstanceStatus::Stopped);
    assert!(instance.process.is_none());
    // Stopping again finds nothing to stop.
    assert!(instance.begin_stop().is_none());
}

#[test]
fn instance_test_instance_restart() {
    let mut instance = TeiInstance::new(config("test-restart", "test-model", 8082));
    instance.started(handle_for_pid(1), 5);

    instance.begin_stop();
    instance.stopped();
    instance.started(handle_for_pid(2), 9);
    instance.restarted();

    assert_eq!(instance.process.as_ref().unwrap().id, "process_2");
    assert_eq!(instance.stats.restarts, 1);
    assert_eq!(instance.stats.started_at, Some(9));
}

#[test]
fn test_gpu_assignment() {
    let instance = TeiInstance::new(InstanceConfig {
        gpu_id: Some(1),
        ..config("test-gpu", "test-model", 9998)
    });
    let env = instance.spawn_config("/usr/bin/tei", "warn").env();
    assert_eq!(
        env,
        vec![
            ("RUST_LOG".to_string(), "warn".to_string()),
            ("CUDA_VISIBLE_DEVICES".to_string(), "1".to_string()),
        ]
    );
    let any = TeiInstance::new(config("any", "m", 1)).spawn_config("tei", "info").env();
    assert_eq!(any, vec![("RUST_LOG".to_string(), "info".to_string())]);
}

#[test]
fn test_process_handle_lifecycle() {
    let mut instance = TeiInstance::new(config("test-handle", "test-model", 8083));

    // Initially no handle
    assert!(instance.process.is_none());

    // After start, handle exists
    instance.started(handle_for_pid(3), 0);
    assert!(instance.process.is_some());

    // After stop, handle is removed
    instance.begin_stop();
    instance.stopped();
    assert!(instance.process.is_none());
}

#[test]
fn test_stats_tracking() {
    let mut instance = TeiInstance::new(config("test-stats", "test-model", 8084));

    // Initially no started_at
    assert!(instance.stats.started_at.is_none());

    instance.started(handle_for_pid(1), 10);

    // After start, started_at is set
    assert!(instance.stats.started_at.is_some());

    // Restart increments counter
    for pid in [2, 3] {
        instance.begin_stop();
        instance.stopped();
        instance.started(handle_for_pid(pid), 20);
        instance.restarted();
        assert_eq!(instance.stats.restarts, pid - 1);
    }
    instance.stats.backoff_restarts = 4;
    instance.stats.last_restart_at = Some(1);
    instance.reset_restart_backoff();
    assert_eq!(instance.stats.backoff_restarts, 0);
    assert_eq!(instance.stats.last_restart_at, None);
    assert_eq!(instance.stats.restarts, 2);
}

#[test]
fn test_spawn_config_propagation() {
    let instance = TeiInstance::new(InstanceConfig {
        max_batch_tokens: 4096,
        max_concurrent_requests: 50,
        pooling: Some("cls".to_string()),
        gpu_id: Some(2),
        prometheus_port: Some(9999),
        extra_args: vec!["--arg1".to_string(), "--arg2".to_string()],
        ..config("test-config", "custom-model", 7777)
    });

    let spawn_config = instance.spawn_config("/custom/path/tei", "info");

    assert_eq!(spawn_config.binary_path, "/custom/path/tei");
    assert_eq!(spawn_config.model_id, "custom-model");
    assert_eq!(spawn_config.port, 7777);
    assert_eq!(spawn_config.max_batch_tokens, 4096);
    assert_eq!(spawn_config.max_concurrent_requests, 50);
    assert_eq!(spawn_config.pooling, Some("cls".to_string()));
    assert_eq!(spawn_config.gpu_id, Some(2));
    assert_eq!(spawn_config.prometheus_port, Some(9999));
    assert_eq!(spawn_config.extra_args.len(), 2);
}

#[test]
fn a_prometheus_port_among_the_extra_arguments_counts() {
    let instance = TeiInstance::new(InstanceConfig {
        prometheus_port: Some(9999),
        extra_args: vec!["--prometheus-port".to_string(), "1".to_string()],
        ..config("p", "m", 1)
    });
    let args = instance.spawn_config("tei", "info").args();
    assert_eq!(args.iter().filter(|a| *a == "--prometheus-port").count(), 1);
    assert_eq!(args.last().unwrap(), "1");
}

#[test]
fn ended_processes_are_reaped() {
    let tail = r#"{"level":"ERROR","message":"boom"}"#;
    let exit = reap(WaitOutcome::Exited { code: None, signal: Some(9) }, Some(tail)).unwrap();
    assert_eq!(exit.to_string(), "process killed by signal 9: boom");
    assert!(reap(WaitOutcome::Running, Some(tail)).is_none());
    assert!(reap(WaitOutcome::Unknown, Some(tail)).is_none());
}

#[test]
fn logs_go_where_they_are_told_to() {
    assert_eq!(log_dir(None), "/data/logs");
    assert_eq!(log_dir(Some("/x".to_string())), "/x");
    assert_eq!(fallback_log_dir(), "/tmp/tei-manager/logs");
}

#[test]
fn processes_are_asked_before_they_are_killed() {
    assert_eq!(stop_action(StopEvent::Begun), StopAction::Terminate);
    assert_eq!(stop_action(StopEvent::Exited), StopAction::Done);
    assert_eq!(stop_action(StopEvent::TimedOut), StopAction::Kill);
}
