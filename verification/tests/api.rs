//! What the HTTP API answers.

use tei_manager::api::handlers::{
    allocate_metrics_port, allocate_port, auto_max_batch_tokens, create_and_place,
    create_instance, delete_instance,
    found, get_instance, get_logs, health, list_instances, log_location, place_instance,
    process_failed, restart_instance, settle_batch_tokens, slice_log, start_instance,
    stop_instance, Limits, LogRead, LogsQuery,
};
use tei_manager::api::models::{CreateInstanceRequest, InstanceInfo};
use tei_manager::config::InstanceConfig;
use tei_manager::error::TeiError;
use tei_manager::gpu::GpuInfo;
use tei_manager::instance::{handle_for_pid, InstanceStatus, TeiInstance};

const SEC: i128 = 1_000_000_000;

fn config(name: &str, port: u16) -> InstanceConfig {
    InstanceConfig {
        name: name.to_string(),
        model_id: "model".to_string(),
        port,
        ..Default::default()
    }
}

fn request(gpu_id: Option<u32>) -> CreateInstanceRequest {
    CreateInstanceRequest {
        name: "my-model".to_string(),
        model_id: "BAAI/bge-small-en-v1.5".to_string(),
        port: None,
        max_batch_tokens: None,
        max_concurrent_requests: None,
        pooling: None,
        gpu_id,
        prometheus_port: None,
        startup_timeout_secs: None,
        extra_args: None,
    }
}

fn gpus(indices: Vec<u32>) -> GpuInfo {
    GpuInfo { indices, cuda_visible_devices: String::new(), devices: vec![] }
}

#[test]
fn the_manager_is_healthy() {
    let answer = health(5);
    assert_eq!(answer.status, "healthy");
    assert_eq!(answer.timestamp, 5);
}

#[test]
fn requests_are_filled_in() {
    let made = create_instance(request(Some(1)), &gpus(vec![0, 1]), Some(1), 2048, 42).unwrap();
    assert_eq!(made.name, "my-model");
    assert_eq!(made.model_id, "BAAI/bge-small-en-v1.5");
    assert_eq!(made.port, 0);
    assert_eq!(made.max_batch_tokens, 16384);
    assert_eq!(made.max_concurrent_requests, 512);
    assert_eq!(made.gpu_id, Some(1));
    assert!(made.extra_args.is_empty());
    assert_eq!(made.created_at, Some(42));

    let full = CreateInstanceRequest {
        port: Some(8080),
        max_batch_tokens: Some(1),
        max_concurrent_requests: Some(2),
        pooling: Some("splade".to_string()),
        prometheus_port: Some(9),
        startup_timeout_secs: Some(3),
        extra_args: Some(vec!["--x".to_string()]),
        ..request(None)
    };
    let made = create_instance(full, &gpus(vec![]), None, 2048, 0).unwrap();
    assert_eq!(made.port, 8080);
    assert_eq!(made.max_batch_tokens, 1);
    assert_eq!(made.max_concurrent_requests, 2);
    assert_eq!(made.pooling.as_deref(), Some("splade"));
    assert_eq!(made.prometheus_port, Some(9));
    assert_eq!(made.startup_timeout_secs, Some(3));
    assert_eq!(made.extra_args, vec!["--x"]);
}

#[test]
fn gpus_that_are_not_there_are_refused() {
    let error = create_instance(request(Some(2)), &gpus(vec![0, 1]), None, 2048, 0).unwrap_err();
    assert_eq!(error.to_string(), "Invalid GPU ID 2: Available GPUs: [0, 1]");
    assert_eq!(error.status_code().as_u16(), 400);
    let error = create_instance(request(Some(0)), &gpus(vec![]), None, 2048, 0).unwrap_err();
    assert_eq!(error.to_string(), "Invalid GPU ID 0: Available GPUs: []");
}

fn limits(max_instances: Option<usize>) -> Limits {
    Limits { max_instances, port_start: 8080, port_end: 8083 }
}

#[test]
fn ports_are_given_from_the_lowest() {
    let existing = vec![config("a", 8080)];
    assert_eq!(allocate_port(&limits(None), &existing, &vec![]), Some(8081));
    assert_eq!(allocate_port(&limits(None), &existing, &vec![8081]), Some(8082));
    assert_eq!(allocate_port(&limits(None), &existing, &vec![8081, 8082]), None);
    let backwards = Limits { max_instances: None, port_start: 9, port_end: 8 };
    assert_eq!(allocate_port(&backwards, &vec![], &vec![]), None);

    let placed = place_instance(config("b", 0), &existing, &limits(None), &vec![]).unwrap();
    assert_eq!(placed.port, 8081);
    assert_eq!(placed.name, "b");
    let asked = place_instance(config("b", 4000), &existing, &limits(None), &vec![]).unwrap();
    assert_eq!(asked.port, 4000);
}

#[test]
fn refusals_say_why() {
    let existing = vec![config("a", 8080), config("b", 8081)];
    let refuse = |c: InstanceConfig, max: Option<usize>, busy: Vec<u16>| {
        let error = place_instance(c, &existing, &limits(max), &busy).unwrap_err();
        (error.status_code().as_u16(), error.error_code(), error.to_string())
    };
    assert_eq!(
        refuse(config("a", 0), None, vec![]),
        (409, "INSTANCE_EXISTS", "Instance 'a' already exists".to_string())
    );
    assert_eq!(
        refuse(config("c", 8081), None, vec![]),
        (409, "PORT_CONFLICT", "Port 8081 already in use by instance 'b'".to_string())
    );
    assert_eq!(
        refuse(config("c", 0), Some(2), vec![]),
        (422, "MAX_INSTANCES_REACHED", "Maximum instance count (2) reached".to_string())
    );
    assert_eq!(
        refuse(config("c", 0), None, vec![8082]),
        (
            422,
            "PORT_ALLOCATION_FAILED",
            "Failed to allocate port: no free port from 8080 up to 8083".to_string()
        )
    );
}

fn with_status(status: InstanceStatus) -> TeiInstance {
    let mut instance = TeiInstance::new(config("a", 8080));
    instance.status = status;
    instance
}

fn code(r: Result<(), TeiError>) -> Option<(u16, &'static str)> {
    match r {
        Ok(()) => None,
        Err(e) => Some((e.status_code().as_u16(), e.error_code())),
    }
}

#[test]
fn what_runs_is_not_started_again() {
    let missing = Some((404, "INSTANCE_NOT_FOUND"));
    assert_eq!(code(start_instance("a", None)), missing);
    assert_eq!(code(stop_instance("a", None)), missing);
    assert_eq!(code(restart_instance("a", None)), missing);

    let running = with_status(InstanceStatus::Running);
    let starting = with_status(InstanceStatus::Starting);
    let stopped = with_status(InstanceStatus::Stopped);
    let failed = with_status(InstanceStatus::Failed);
    let already = Some((409, "ALREADY_RUNNING"));
    assert_eq!(code(start_instance("a", Some(&running))), already);
    assert_eq!(code(start_instance("a", Some(&starting))), already);
    assert_eq!(code(start_instance("a", Some(&stopped))), None);
    assert_eq!(code(start_instance("a", Some(&failed))), None);

    assert_eq!(code(stop_instance("a", Some(&running))), None);
    assert_eq!(code(stop_instance("a", Some(&stopped))), Some((409, "NOT_RUNNING")));
    assert_eq!(
        stop_instance("a", Some(&stopped)).unwrap_err().to_string(),
        "Instance 'a' is not running"
    );
    assert_eq!(
        start_instance("a", Some(&running)).unwrap_err().to_string(),
        "Instance 'a' is already running"
    );
    assert_eq!(code(restart_instance("a", Some(&stopped))), None);
    assert_eq!(process_failed("x".to_string()).to_string(), "Internal error: x");
}

#[test]
fn instances_are_looked_up_by_name() {
    assert_eq!(found("a", Some(3)).unwrap(), 3);
    let nobody: Option<i32> = None;
    assert_eq!(found("a", nobody).unwrap_err().to_string(), "Instance 'a' not found");
}

#[test]
fn what_is_deleted_leaves_the_registry() {
    let mut registry = vec![config("a", 8080), config("b", 8081), config("c", 8082)];
    let error = delete_instance("x", &mut registry).unwrap_err();
    assert_eq!((error.status_code().as_u16(), error.error_code()), (404, "INSTANCE_NOT_FOUND"));
    assert_eq!(registry.len(), 3);
    assert_eq!(delete_instance("b", &mut registry).unwrap().as_u16(), 200);
    assert_eq!(registry, vec![config("a", 8080), config("c", 8082)]);
    assert!(delete_instance("b", &mut registry).is_err());
}

#[test]
fn tokens_follow_the_free_memory() {
    assert_eq!(auto_max_batch_tokens(Some(24 * 1024), 2048), 49152);
    assert_eq!(auto_max_batch_tokens(Some(1536), 2048), 3072);
    assert_eq!(auto_max_batch_tokens(Some(0), 2048), 1);
    assert_eq!(auto_max_batch_tokens(Some(u64::MAX), u32::MAX), u32::MAX);
    assert_eq!(auto_max_batch_tokens(None, 2048), 16384);

    let open = CreateInstanceRequest { max_batch_tokens: Some(0), ..request(None) };
    let made = create_instance(open, &gpus(vec![]), Some(10240), 2048, 0).unwrap();
    assert_eq!(made.max_batch_tokens, 20480);
    let seed = settle_batch_tokens(config("a", 0), Some(10240), 1024);
    assert_eq!(seed.max_batch_tokens, 10240);
    let fixed = InstanceConfig { max_batch_tokens: 7, ..config("a", 0) };
    assert_eq!(settle_batch_tokens(fixed, Some(10240), 1024).max_batch_tokens, 7);
}

#[test]
fn metrics_get_ports_of_their_own() {
    let first = place_instance(config("a", 0), &vec![], &limits(None), &vec![]).unwrap();
    assert_eq!(first.prometheus_port, Some(9100));
    let second =
        place_instance(config("b", 9101), &vec![first], &limits(None), &vec![9102]).unwrap();
    assert_eq!(second.prometheus_port, Some(9103));
    let off = InstanceConfig { prometheus_port: Some(0), ..config("c", 0) };
    let off = place_instance(off, &vec![second.clone()], &limits(None), &vec![]).unwrap();
    assert_eq!(off.prometheus_port, Some(0));
    let busy: Vec<u16> = (9100..=65535).collect();
    assert_eq!(allocate_metrics_port(&vec![second.clone()], &busy, 1), None);
    assert_eq!(allocate_metrics_port(&vec![second], &vec![], 9100), Some(9102));
    let error = place_instance(config("a", 0), &vec![], &limits(None), &busy).unwrap_err();
    assert_eq!(error.to_string(), "Failed to allocate port: no free port for metrics");
}

#[test]
fn names_and_ports_are_checked() {
    let refuse = |c: InstanceConfig| {
        let error = place_instance(c, &vec![], &limits(None), &vec![]).unwrap_err();
        (error.status_code().as_u16(), error.error_code(), error.to_string())
    };
    for name in ["a/b", "a\\b"] {
        let message = format!("Invalid instance name '{name}': cannot contain path separators");
        assert_eq!(refuse(config(name, 0)), (400, "INVALID_INSTANCE_NAME", message));
    }
    assert_eq!(
        refuse(config("", 0)).2,
        "Invalid instance name '': cannot be empty".to_string()
    );
    assert_eq!(
        refuse(config("a", 80)),
        (400, "INVALID_PORT", "Port 80 is invalid: must be >= 1024".to_string())
    );
    assert!(place_instance(config("a", 1024), &vec![], &limits(None), &vec![]).is_ok());
}

#[test]
fn instances_are_shown() {
    let mut instance = TeiInstance::new(config("a", 8080));
    let info = InstanceInfo::from_instance(&instance, None, 0);
    assert_eq!(info.uptime_secs, None);
    assert_eq!(info.status, InstanceStatus::Stopped);

    instance.started(handle_for_pid(77), 10 * SEC);
    instance.stats.restarts = 2;
    instance.stats.health_check_failures = 1;
    instance.stats.last_health_check = Some(11 * SEC);
    let info = get_instance("a", Some(&instance), Some(77), 15 * SEC + 999_999_999).unwrap();
    assert_eq!(info.name, "a");
    assert_eq!(info.model_id, "model");
    assert_eq!(info.port, 8080);
    assert_eq!(info.status, InstanceStatus::Starting);
    assert_eq!(info.pid, Some(77));
    assert_eq!(info.uptime_secs, Some(5));
    assert_eq!(info.restarts, 2);
    assert_eq!(info.health_check_failures, 1);
    assert_eq!(info.last_health_check, Some(11 * SEC));

    // A clock that was set back.
    let odd = InstanceInfo::from_instance(&instance, None, 9 * SEC);
    assert_eq!(odd.uptime_secs, Some(u64::MAX));
    let same = InstanceInfo::from_instance(&instance, None, 10 * SEC - 1);
    assert_eq!(same.uptime_secs, Some(0));

    assert!(get_instance("b", None, None, 0).is_err());
    let both = vec![(instance.clone(), Some(77)), (TeiInstance::new(config("b", 1)), None)];
    let shown = list_instances(&both, 12 * SEC);
    assert_eq!(shown.len(), 2);
    assert_eq!(shown[0].uptime_secs, Some(2));
    assert_eq!(shown[1].name, "b");
}

fn slice(start: Option<i32>, end: Option<i32>) -> (Vec<String>, usize, usize, usize) {
    let r = slice_log("a\nb\r\nc\nd\n", &LogsQuery { start, end });
    (r.lines, r.start, r.end, r.total_lines)
}

fn texts(items: &[&str]) -> Vec<String> {
    items.iter().map(|s| s.to_string()).collect()
}

#[test]
fn logs_are_sliced_from_either_end() {
    assert_eq!(slice(None, None), (texts(&["a", "b", "c", "d"]), 0, 4, 4));
    assert_eq!(slice(Some(1), Some(3)), (texts(&["b", "c"]), 1, 3, 4));
    assert_eq!(slice(Some(-2), None), (texts(&["c", "d"]), 2, 4, 4));
    assert_eq!(slice(None, Some(-1)), (texts(&["a", "b", "c"]), 0, 3, 4));
    assert_eq!(slice(Some(-100), Some(100)), (texts(&["a", "b", "c", "d"]), 0, 4, 4));
    assert_eq!(slice(Some(3), Some(1)), (texts(&[]), 3, 1, 4));
    assert_eq!(slice(Some(i32::MIN), Some(i32::MAX)).0.len(), 4);
    assert_eq!(slice(Some(9), None), (texts(&[]), 4, 4, 4));
}

#[test]
fn log_slices_meet() {
    for i in -6..7 {
        let mut both = slice(None, Some(i)).0;
        both.extend(slice(Some(i), None).0);
        assert_eq!(both, texts(&["a", "b", "c", "d"]));
    }
}

#[test]
fn logs_are_found_and_read() {
    assert_eq!(
        log_location(None, true, "x"),
        ("/data/logs".to_string(), "x.log".to_string())
    );
    assert_eq!(log_location(Some("/l".to_string()), true, "x").0, "/l");
    assert_eq!(log_location(Some("/l".to_string()), false, "x").0, "/tmp/tei-manager/logs");

    let whole = LogsQuery { start: None, end: None };
    let error = get_logs("x", LogRead::Missing, &whole).unwrap_err();
    assert_eq!(error.error_code(), "INSTANCE_NOT_FOUND");
    let error = get_logs("x", LogRead::Unreadable("denied".to_string()), &whole).unwrap_err();
    assert_eq!(error.to_string(), "I/O error: Failed to read log file: denied");
    let logs = get_logs("x", LogRead::Content("one\ntwo".to_string()), &whole).unwrap();
    assert_eq!(logs.lines, texts(&["one", "two"]));
    assert_eq!(logs.total_lines, 2);
}

#[test]
fn requests_are_answered_as_a_whole() {
    let create = |req: CreateInstanceRequest, existing: &Vec<InstanceConfig>| {
        let known = gpus(vec![0, 1]);
        create_and_place(req, &known, Some(1024), 2048, 7, existing, &limits(None), &vec![])
    };
    let refused = |req: CreateInstanceRequest, existing: &Vec<InstanceConfig>| {
        let error = create(req, existing).unwrap_err();
        (error.status_code().as_u16(), error.error_code())
    };
    let made = create(CreateInstanceRequest { max_batch_tokens: Some(0), ..request(Some(1)) }, &vec![]);
    let made = made.unwrap();
    assert_eq!((made.name.as_str(), made.gpu_id, made.created_at), ("my-model", Some(1), Some(7)));
    assert_eq!((made.max_batch_tokens, made.prometheus_port), (2048, Some(9100)));
    assert_ne!(made.port, 0);

    let existing = vec![made];
    for port in [None, Some(0), Some(1024)] {
        let again = CreateInstanceRequest { port, ..request(None) };
        assert_eq!(refused(again, &existing), (409, "INSTANCE_EXISTS"));
    }
    assert_eq!(refused(request(Some(2)), &existing), (400, "INVALID_GPU_ID"));
    let path = CreateInstanceRequest { name: "a/b".to_string(), ..request(None) };
    assert_eq!(refused(path, &existing), (400, "INVALID_INSTANCE_NAME"));
    let low = CreateInstanceRequest { port: Some(80), ..request(None) };
    assert_eq!(refused(low, &existing), (400, "INVALID_PORT"));
}
