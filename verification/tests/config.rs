//! Loading and checking settings.

use tei_manager::config::{
    default_max_batch_tokens, default_max_concurrent_requests, AuthConfig, EnvOverrides, FileFacts,
    GpuPreflight, InstanceConfig, ManagerConfig, MtlsConfig,
};

fn no_overrides() -> EnvOverrides {
    EnvOverrides {
        api_port: None,
        state_file: None,
        health_check_interval: None,
        tei_binary_path: None,
        grpc_port: None,
        grpc_enabled: None,
    }
}

fn some(s: &str) -> Option<String> {
    Some(s.to_string())
}

fn validate(config: &ManagerConfig) -> Result<(), String> {
    config.validate(&FileFacts::default()).map_err(|e| e.message)
}

#[test]
fn test_default_config() {
    let config = ManagerConfig::default();
    assert_eq!(config.api_port, 9000);
    assert_eq!(config.health_check_interval_secs, 10);
    assert_eq!(config.startup_timeout_secs, 300);
    assert!(validate(&config).is_ok());
}

#[test]
fn test_load_from_file() {
    let file = ManagerConfig {
        api_port: 9090,
        health_check_interval_secs: 60,
        ..Default::default()
    };

    let config = ManagerConfig::load(Some(file), &no_overrides()).unwrap();
    assert_eq!(config.api_port, 9090);
    assert_eq!(config.health_check_interval_secs, 60);
}

#[test]
fn test_env_var_api_port_override() {
    let env = EnvOverrides { api_port: some("9999"), ..no_overrides() };
    let config = ManagerConfig::load(None, &env).unwrap();
    assert_eq!(config.api_port, 9999);
}

#[test]
fn test_env_var_api_port_invalid() {
    let env = EnvOverrides { api_port: some("not_a_number"), ..no_overrides() };
    assert!(ManagerConfig::load(None, &env).is_err());
    // One more than a port can be.
    let env = EnvOverrides { api_port: some("65536"), ..no_overrides() };
    assert!(ManagerConfig::load(None, &env).is_err());
}

#[test]
fn test_env_var_state_file_override() {
    let env = EnvOverrides { state_file: some("/tmp/custom-state.toml"), ..no_overrides() };
    let config = ManagerConfig::load(None, &env).unwrap();
    assert_eq!(config.state_file, "/tmp/custom-state.toml");
}

#[test]
fn test_env_var_health_check_interval_override() {
    let env = EnvOverrides { health_check_interval: some("120"), ..no_overrides() };
    let config = ManagerConfig::load(None, &env).unwrap();
    assert_eq!(config.health_check_interval_secs, 120);
}

#[test]
fn test_env_var_health_check_interval_invalid() {
    let env = EnvOverrides { health_check_interval: some("invalid"), ..no_overrides() };
    assert!(ManagerConfig::load(None, &env).is_err());
}

#[test]
fn test_env_var_tei_binary_path_override() {
    let env = EnvOverrides { tei_binary_path: some("/custom/path/to/tei"), ..no_overrides() };
    let config = ManagerConfig::load(None, &env).unwrap();
    assert_eq!(config.tei_binary_path, "/custom/path/to/tei");
}

#[test]
fn the_grpc_server_can_be_set_from_outside() {
    let env = EnvOverrides {
        grpc_port: some("7000"),
        grpc_enabled: some("false"),
        ..no_overrides()
    };
    let config = ManagerConfig::load(None, &env).unwrap();
    assert_eq!(config.grpc_port, 7000);
    assert!(!config.grpc_enabled);
    let env = EnvOverrides { grpc_enabled: some("maybe"), ..no_overrides() };
    assert!(ManagerConfig::load(None, &env).is_err());
    let env = EnvOverrides { grpc_port: some("-1"), ..no_overrides() };
    assert!(ManagerConfig::load(None, &env).is_err());
}

#[test]
fn a_state_directory_that_cannot_be_made_is_named() {
    let facts = FileFacts { missing_state_dir: some("/no/such"), ..FileFacts::default() };
    let error = ManagerConfig::default().validate(&facts).unwrap_err();
    assert_eq!(error.message, "Cannot create state file directory: \"/no/such\"");
}

#[test]
fn test_default_functions() {
    // Test default_max_batch_tokens
    assert_eq!(default_max_batch_tokens(), 16384);

    // Test default_max_concurrent_requests
    assert_eq!(default_max_concurrent_requests(), 512);

    // Verify they fill in for what an instance's settings leave out
    let config_json = r#"{"name":"test","model_id":"model","port":8080}"#;
    let value: serde_json::Value = serde_json::from_str(config_json).unwrap();
    let number = |key: &str| value.get(key).and_then(|v| v.as_u64()).map(|n| n as u32);
    let instance = InstanceConfig {
        name: value["name"].as_str().unwrap().to_string(),
        model_id: value["model_id"].as_str().unwrap().to_string(),
        port: number("port").unwrap() as u16,
        max_batch_tokens: number("max_batch_tokens").unwrap_or_else(default_max_batch_tokens),
        max_concurrent_requests: number("max_concurrent_requests")
            .unwrap_or_else(default_max_concurrent_requests),
        ..Default::default()
    };
    assert_eq!(instance.max_batch_tokens, 16384);
    assert_eq!(instance.max_concurrent_requests, 512);
}

#[test]
fn test_port_validation() {
    let config = ManagerConfig {
        api_port: 500, // Below 1024
        ..Default::default()
    };
    assert_eq!(validate(&config).unwrap_err(), "API port must be >= 1024 (got 500)");
}

#[test]
fn test_duplicate_port_detection() {
    let config = ManagerConfig {
        instances: vec![
            InstanceConfig {
                name: "test1".to_string(),
                model_id: "model1".to_string(),
                port: 8080,
                max_batch_tokens: 1024,
                max_concurrent_requests: 10,
                pooling: None,
                gpu_id: None,
                prometheus_port: None,
                ..Default::default()
            },
            InstanceConfig {
                name: "test2".to_string(),
                model_id: "model2".to_string(),
                port: 8080, // Duplicate
                max_batch_tokens: 1024,
                max_concurrent_requests: 10,
                pooling: None,
                gpu_id: None,
                prometheus_port: None,
                ..Default::default()
            },
        ],
        ..Default::default()
    };
    assert!(validate(&config).is_err());
}

#[test]
fn test_instance_name_validation() {
    let config = ManagerConfig {
        instances: vec![InstanceConfig {
            name: "test/invalid".to_string(), // Contains path separator
            model_id: "model1".to_string(),
            port: 8080,
            max_batch_tokens: 1024,
            max_concurrent_requests: 10,
            pooling: None,
            gpu_id: None,
            prometheus_port: None,
            ..Default::default()
        }],
        ..Default::default()
    };
    assert!(validate(&config).is_err());
}

fn instance(name: &str, port: u16) -> InstanceConfig {
    InstanceConfig {
        name: name.to_string(),
        model_id: "model".to_string(),
        port,
        ..Default::default()
    }
}

fn with(instances: Vec<InstanceConfig>) -> ManagerConfig {
    ManagerConfig { instances, ..Default::default() }
}

#[test]
fn instances_have_to_keep_apart() {
    assert!(validate(&with(vec![instance("a", 8080), instance("b", 8081)])).is_ok());
    assert!(validate(&with(vec![instance("a", 8080), instance("a", 8081)])).is_err());
    assert!(validate(&with(vec![instance("", 8080)])).is_err());
    assert!(validate(&with(vec![instance("a\\b", 8080)])).is_err());
    assert!(validate(&with(vec![instance("a", 80)])).is_err());
    // The ports of the two servers.
    assert!(validate(&with(vec![instance("a", 9000)])).is_err());
    assert!(validate(&with(vec![instance("a", 9001)])).is_err());
}

#[test]
fn the_port_range_has_to_make_sense() {
    let backwards = ManagerConfig {
        instance_port_start: 9000,
        instance_port_end: 8999,
        ..Default::default()
    };
    assert_eq!(
        validate(&backwards).unwrap_err(),
        "instance_port_end (8999) must be greater than instance_port_start (9000)"
    );
    let low = ManagerConfig { instance_port_start: 1, ..Default::default() };
    assert_eq!(validate(&low).unwrap_err(), "instance_port_start must be >= 1024 (got 1)");
    let narrow = ManagerConfig { max_instances: Some(101), ..Default::default() };
    assert!(validate(&narrow).is_err());
    let wide = ManagerConfig { max_instances: Some(100), ..Default::default() };
    assert!(validate(&wide).is_ok());
}

fn mtls(allow_self_signed: bool) -> MtlsConfig {
    MtlsConfig {
        ca_cert: "ca.pem".to_string(),
        server_cert: "server.pem".to_string(),
        server_key: "key.pem".to_string(),
        allow_self_signed,
        verify_subject: true,
        allowed_subjects: vec![],
        verify_san: false,
        allowed_sans: vec![],
    }
}

fn secured(providers: Vec<String>, mtls: Option<MtlsConfig>) -> ManagerConfig {
    ManagerConfig {
        auth: AuthConfig { enabled: true, providers, require_cert_headers: false, mtls },
        ..Default::default()
    }
}

#[test]
fn authentication_has_to_be_complete() {
    let files = FileFacts {
        missing_state_dir: None,
        ca_cert_exists: true,
        server_cert_exists: true,
        server_key_exists: true,
    };
    let by_cert = || vec!["mtls".to_string()];
    assert!(secured(by_cert(), Some(mtls(false))).validate(&files).is_ok());
    assert!(secured(vec![], Some(mtls(false))).validate(&files).is_err());
    assert!(secured(by_cert(), None).validate(&files).is_err());
    for missing in 0..3 {
        let gone = FileFacts {
            missing_state_dir: None,
            ca_cert_exists: missing != 0,
            server_cert_exists: missing != 1,
            server_key_exists: missing != 2,
        };
        assert!(secured(by_cert(), Some(mtls(false))).validate(&gone).is_err());
    }
    assert!(secured(by_cert(), Some(mtls(true))).accepts_self_signed());
    assert!(!secured(by_cert(), Some(mtls(false))).accepts_self_signed());
    assert!(!ManagerConfig::default().accepts_self_signed());
}

#[test]
fn preflight_problems_stop_the_manager_only_when_asked_to() {
    let problems = vec!["no".to_string()];
    let lenient = ManagerConfig::default();
    assert!(!lenient.refuses_to_start(&problems));
    let strict = ManagerConfig { gpu_preflight: GpuPreflight::Fail, ..Default::default() };
    assert!(strict.refuses_to_start(&problems));
    assert!(!strict.refuses_to_start(&vec![]));
}

#[test]
fn what_was_kept_takes_precedence() {
    let config = with(vec![instance("a", 8080), instance("b", 8081), instance("c", 8082)]);
    assert_eq!(config.instances_to_seed(&vec![]), vec![0, 1, 2]);
    assert_eq!(config.instances_to_seed(&vec![instance("b", 9999)]), vec![0, 2]);
    let all = config.instances.clone();
    assert!(config.instances_to_seed(&all).is_empty());
}

#[test]
fn startup_timeouts_can_be_set_for_one_instance() {
    let mut one = instance("a", 8080);
    assert_eq!(one.startup_timeout(7), 7);
    one.startup_timeout_secs = Some(2);
    assert_eq!(one.startup_timeout(7), 2_000_000_000);
}

#[test]
fn seeds_need_not_name_a_port() {
    let seed = |name: &str| InstanceConfig {
        name: name.to_string(),
        model_id: "BAAI/bge-small-en-v1.5".to_string(),
        gpu_id: Some(0),
        ..Default::default()
    };
    let config = ManagerConfig {
        state_file: "/tmp/state.toml".to_string(),
        instances: vec![seed("bge-small"), seed("bge-large")],
        ..Default::default()
    };
    assert!(config.validate(&FileFacts::default()).is_ok());
    assert_eq!(config.auto_max_batch_tokens_per_gib, 2048);
}
