//! What an operator can set, and the rules that a setting has to meet.

use vstd::prelude::*;

use crate::text::{
    chars_of, decimal, decimal_string, list_contains, parse_unsigned, quote, quoted, text_eq,
    unsigned_upto,
};

verus! {

/// A point in time, in nanoseconds since the Unix epoch.
pub type UnixNanos = i128;

/// A span of time, in nanoseconds.
pub type Nanos = u128;

/// Seconds after which a starting instance counts as hung, unless set.
pub const DEFAULT_STARTUP_TIMEOUT_SECS: u64 = 300;

/// Seconds of silence in the log of a starting instance after which it counts
/// as stalled, unless set.
pub const DEFAULT_STARTUP_LOG_STALL_SECS: u64 = 60;

/// The lowest port that may be used.
pub const MIN_PORT: u16 = 1024;

/// Element type of the vectors in a response.
#[derive(Debug, Clone, Copy, PartialEq, Eq, Structural)]
pub enum ArrowOutputDtype {
    F32,
    F16,
}

/// What to do about GPUs that an image cannot run on.
#[derive(Debug, Clone, Copy, PartialEq, Eq, Structural)]
pub enum GpuPreflight {
    /// Say so and go on.
    Warn,
    /// Refuse to start.
    Fail,
}

/// What to do about an instance that turns out to run on the CPU instead of a
/// GPU.
#[derive(Debug, Clone, Copy, PartialEq, Eq, Structural)]
pub enum GpuFallback {
    /// It has failed.
    Fail,
    /// Note it and go on.
    Warn,
    /// Do not look.
    Off,
}

/// Settings of the manager.
#[derive(Debug, Clone)]
pub struct ManagerConfig {
    /// Port of the HTTP API.
    pub api_port: u16,
    /// Where instance configurations are kept across restarts.
    pub state_file: String,
    pub health_check_interval_secs: u64,
    /// Seconds after which an instance that is still starting counts as hung.
    /// Health check failures are not counted while an instance is starting.
    pub startup_timeout_secs: u64,
    /// Health check failures in a row after which a running instance is
    /// restarted.
    pub max_failures_before_restart: u32,
    pub graceful_shutdown_timeout_secs: u64,
    pub auto_restore_on_restart: bool,
    /// How many instances there may be; no limit when unset.
    pub max_instances: Option<usize>,
    /// First port of the range `[start, end)` that instances get ports from.
    pub instance_port_start: u16,
    pub instance_port_end: u16,
    /// Instances to create at startup.
    pub instances: Vec<InstanceConfig>,
    /// Models to register at startup.
    pub models: Option<Vec<String>>,
    /// The backend program.
    pub tei_binary_path: String,
    pub grpc_port: u16,
    pub grpc_enabled: bool,
    pub grpc_max_message_size_mb: usize,
    pub grpc_max_parallel_streams: usize,
    /// Seconds that a forwarded request may take; 0 for no limit.
    pub grpc_request_timeout_secs: u64,
    /// Batches of one stream that may be under way, when a stream does not say.
    pub grpc_stream_max_concurrent_batches: usize,
    /// Element type of responses, when a request does not say.
    pub arrow_output_dtype: ArrowOutputDtype,
    pub gpu_preflight: GpuPreflight,
    pub gpu_fallback: GpuFallback,
    /// Tokens of a batch for each GiB of free memory, for instances that leave
    /// their number open.
    pub auto_max_batch_tokens_per_gib: u32,
    pub auth: AuthConfig,
}

/// Settings of one instance.
#[derive(Debug, Clone, PartialEq)]
pub struct InstanceConfig {
    /// Unique among instances, without path separators.
    pub name: String,
    pub model_id: String,
    pub port: u16,
    pub max_batch_tokens: u32,
    pub max_concurrent_requests: u32,
    pub pooling: Option<String>,
    /// The GPU to run on; any when unset.
    pub gpu_id: Option<u32>,
    pub prometheus_port: Option<u16>,
    /// Overrides the manager's startup timeout.
    pub startup_timeout_secs: Option<u64>,
    /// Further arguments for the backend program.
    pub extra_args: Vec<String>,
    pub created_at: Option<UnixNanos>,
}

/// Settings of authentication.
#[derive(Debug, Clone)]
pub struct AuthConfig {
    pub enabled: bool,
    pub providers: Vec<String>,
    /// Whether a request without certificate headers is turned away. Without
    /// this, such a request is taken for a TLS connection whose client
    /// certificate was checked already.
    pub require_cert_headers: bool,
    pub mtls: Option<MtlsConfig>,
}

/// Settings of mutual TLS.
#[derive(Debug, Clone)]
pub struct MtlsConfig {
    pub ca_cert: String,
    pub server_cert: String,
    pub server_key: String,
    /// Skip the check that a client certificate was issued by the CA.
    pub allow_self_signed: bool,
    pub verify_subject: bool,
    /// Subjects to let in; all when empty.
    pub allowed_subjects: Vec<String>,
    pub verify_san: bool,
    /// Alternative names to let in; all when empty.
    pub allowed_sans: Vec<String>,
}

/// Why a configuration was turned down.
#[derive(Debug, Clone, PartialEq)]
pub struct ConfigError {
    pub message: String,
}

pub fn default_api_port() -> (r: u16)
    ensures
        r == 9000,
{
    9000
}

pub fn default_state_file() -> (r: String)
    ensures
        r@ == "/data/tei-manager-state.toml"@,
{
    "/data/tei-manager-state.toml".to_owned()
}

pub fn default_health_check_interval() -> (r: u64)
    ensures
        r == 10,
{
    10
}

pub fn default_startup_timeout() -> (r: u64)
    ensures
        r == DEFAULT_STARTUP_TIMEOUT_SECS,
{
    DEFAULT_STARTUP_TIMEOUT_SECS
}

pub fn default_max_failures_before_restart() -> (r: u32)
    ensures
        r == 3,
{
    3
}

pub fn default_instance_port_start() -> (r: u16)
    ensures
        r == 8080,
{
    8080
}

pub fn default_instance_port_end() -> (r: u16)
    ensures
        r == 8180,
{
    8180
}

pub fn default_graceful_shutdown_timeout() -> (r: u64)
    ensures
        r == 30,
{
    30
}

pub fn default_max_batch_tokens() -> (r: u32)
    ensures
        r == 16384,
{
    16384
}

pub fn default_max_concurrent_requests() -> (r: u32)
    ensures
        r == 512,
{
    512
}

pub fn default_tei_binary_path() -> (r: String)
    ensures
        r@ == "text-embeddings-router"@,
{
    "text-embeddings-router".to_owned()
}

pub fn default_grpc_port() -> (r: u16)
    ensures
        r == 9001,
{
    9001
}

pub fn default_grpc_enabled() -> (r: bool)
    ensures
        r,
{
    true
}

pub fn default_grpc_max_message_size_mb() -> (r: usize)
    ensures
        r == 40,
{
    40
}

pub fn default_grpc_max_parallel_streams() -> (r: usize)
    ensures
        r == 1024,
{
    1024
}

pub fn default_grpc_request_timeout_secs() -> (r: u64)
    ensures
        r == 30,
{
    30
}

pub fn default_verify_subject() -> (r: bool)
    ensures
        r,
{
    true
}

impl Default for AuthConfig {
    fn default() -> (c: Self)
        ensures
            !c.enabled,
            c.providers@.len() == 0,
            !c.require_cert_headers,
            c.mtls is None,
    {
        AuthConfig {
            enabled: false,
            providers: Vec::new(),
            require_cert_headers: false,
            mtls: None,
        }
    }
}

impl Default for InstanceConfig {
    fn default() -> (c: Self)
        ensures
            c.name@.len() == 0,
            c.model_id@.len() == 0,
            c.port == 0,
            c.max_batch_tokens == 0,
            c.max_concurrent_requests == 0,
            c.pooling is None,
            c.gpu_id is None,
            c.prometheus_port is None,
            c.startup_timeout_secs is None,
            c.extra_args@.len() == 0,
            c.created_at is None,
    {
        InstanceConfig {
            name: String::new(),
            model_id: String::new(),
            port: 0,
            max_batch_tokens: 0,
            max_concurrent_requests: 0,
            pooling: None,
            gpu_id: None,
            prometheus_port: None,
            startup_timeout_secs: None,
            extra_args: Vec::new(),
            created_at: None,
        }
    }
}

impl Default for ManagerConfig {
    fn default() -> (c: Self)
        ensures
            c.api_port == 9000,
            c.state_file@ == "/data/tei-manager-state.toml"@,
            c.health_check_interval_secs == 10,
            c.startup_timeout_secs == 300,
            c.max_failures_before_restart == 3,
            c.graceful_shutdown_timeout_secs == 30,
            !c.auto_restore_on_restart,
            c.max_instances is None,
            c.instance_port_start == 8080,
            c.instance_port_end == 8180,
            c.instances@.len() == 0,
            c.models is None,
            c.tei_binary_path@ == "text-embeddings-router"@,
            c.grpc_port == 9001,
            c.grpc_enabled,
            c.grpc_max_message_size_mb == 40,
            c.grpc_max_parallel_streams == 1024,
            c.grpc_request_timeout_secs == 30,
            c.grpc_stream_max_concurrent_batches == 4,
            c.arrow_output_dtype == ArrowOutputDtype::F32,
            c.gpu_preflight == GpuPreflight::Warn,
            c.gpu_fallback == GpuFallback::Fail,
            c.auto_max_batch_tokens_per_gib == 2048,
            !c.auth.enabled,
            c.auth.providers@.len() == 0,
            !c.auth.require_cert_headers,
            c.auth.mtls is None,
    {
        ManagerConfig {
            api_port: default_api_port(),
            state_file: default_state_file(),
            health_check_interval_secs: default_health_check_interval(),
            startup_timeout_secs: default_startup_timeout(),
            max_failures_before_restart: default_max_failures_before_restart(),
            graceful_shutdown_timeout_secs: default_graceful_shutdown_timeout(),
            auto_restore_on_restart: false,
            max_instances: None,
            instance_port_start: default_instance_port_start(),
            instance_port_end: default_instance_port_end(),
            instances: Vec::new(),
            models: None,
            tei_binary_path: default_tei_binary_path(),
            grpc_port: default_grpc_port(),
            grpc_enabled: default_grpc_enabled(),
            grpc_max_message_size_mb: default_grpc_max_message_size_mb(),
            grpc_max_parallel_streams: default_grpc_max_parallel_streams(),
            grpc_request_timeout_secs: default_grpc_request_timeout_secs(),
            grpc_stream_max_concurrent_batches: 4,
            arrow_output_dtype: ArrowOutputDtype::F32,
            gpu_preflight: GpuPreflight::Warn,
            gpu_fallback: GpuFallback::Fail,
            auto_max_batch_tokens_per_gib: 2048,
            auth: AuthConfig::default(),
        }
    }
}

impl InstanceConfig {
    /// How long this instance may take to become ready: its own setting, else
    /// `global`.
    pub fn startup_timeout(&self, global: Nanos) -> (r: Nanos)
        ensures
            r == (match self.startup_timeout_secs {
                Some(secs) => secs as u128 * 1_000_000_000,
                None => global as int,
            }),
    {
        match self.startup_timeout_secs {
            Some(secs) => secs as u128 * 1_000_000_000,
            None => global,
        }
    }
}

/// The values of the environment variables that override settings.
#[derive(Debug, Clone, Default)]
pub struct EnvOverrides {
    /// `TEI_MANAGER_API_PORT`
    pub api_port: Option<String>,
    /// `TEI_MANAGER_STATE_FILE`
    pub state_file: Option<String>,
    /// `TEI_MANAGER_HEALTH_CHECK_INTERVAL`
    pub health_check_interval: Option<String>,
    /// `TEI_BINARY_PATH`
    pub tei_binary_path: Option<String>,
    /// `TEI_MANAGER_GRPC_PORT`
    pub grpc_port: Option<String>,
    /// `TEI_MANAGER_GRPC_ENABLED`
    pub grpc_enabled: Option<String>,
}

/// The number that a variable stands for: `current` when it is unset, `None`
/// when it is no number of at most `max`.
pub open spec fn overridden(value: Option<String>, current: int, max: nat) -> Option<int> {
    match value {
        Some(s) => match unsigned_upto(s@, max) {
            Some(n) => Some(n as int),
            None => None,
        },
        None => Some(current),
    }
}

/// The flag that a variable stands for: `current` when it is unset, `None`
/// when it is neither `true` nor `false`.
pub open spec fn overridden_flag(value: Option<String>, current: bool) -> Option<bool> {
    match value {
        Some(s) => if s@ == "true"@ {
            Some(true)
        } else if s@ == "false"@ {
            Some(false)
        } else {
            None
        },
        None => Some(current),
    }
}

/// The text that a variable stands for: `current` when it is unset.
pub open spec fn overridden_text(value: Option<String>, current: String) -> Seq<char> {
    match value {
        Some(s) => s@,
        None => current@,
    }
}

/// What is wrong with the variables, if anything; the first of them counts.
pub open spec fn override_fault(env: EnvOverrides) -> Option<Seq<char>> {
    if overridden(env.api_port, 0, u16::MAX as nat) is None {
        Some("Invalid TEI_MANAGER_API_PORT value"@)
    } else if overridden(env.health_check_interval, 0, u64::MAX as nat) is None {
        Some("Invalid TEI_MANAGER_HEALTH_CHECK_INTERVAL value"@)
    } else if overridden(env.grpc_port, 0, u16::MAX as nat) is None {
        Some("Invalid TEI_MANAGER_GRPC_PORT value"@)
    } else if overridden_flag(env.grpc_enabled, false) is None {
        Some("Invalid TEI_MANAGER_GRPC_ENABLED value"@)
    } else {
        None
    }
}

fn number_or(value: &Option<String>, current: u64, max: u64) -> (r: Option<u64>)
    ensures
        match r {
            Some(n) => overridden(*value, current as int, max as nat) == Some(n as int),
            None => overridden(*value, current as int, max as nat) is None,
        },
        value is Some && r is Some ==> r->0 <= max,
        value is None ==> r == Some(current),
{
    match value {
        Some(s) => parse_unsigned(&chars_of(s.as_str()), max),
        None => Some(current),
    }
}

fn flag_or(value: &Option<String>, current: bool) -> (r: Option<bool>)
    ensures
        r == overridden_flag(*value, current),
{
    match value {
        Some(s) => {
            if text_eq(s.as_str(), "true") {
                Some(true)
            } else if text_eq(s.as_str(), "false") {
                Some(false)
            } else {
                None
            }
        },
        None => Some(current),
    }
}

/// What the file system says about the files that a configuration names.
#[derive(Debug, Clone, Default)]
pub struct FileFacts {
    /// The directory of the state file, if it does not exist and could not be
    /// created.
    pub missing_state_dir: Option<String>,
    pub ca_cert_exists: bool,
    pub server_cert_exists: bool,
    pub server_key_exists: bool,
}

/// What is wrong with the ports of the manager itself, if anything.
pub open spec fn port_fault(c: ManagerConfig) -> Option<Seq<char>> {
    let start = c.instance_port_start;
    let end = c.instance_port_end;
    if c.api_port < MIN_PORT {
        Some("API port must be >= 1024 (got "@ + decimal(c.api_port as nat) + ")"@)
    } else if start < MIN_PORT {
        Some("instance_port_start must be >= 1024 (got "@ + decimal(start as nat) + ")"@)
    } else if end <= start {
        Some(
            "instance_port_end ("@ + decimal(end as nat)
                + ") must be greater than instance_port_start ("@ + decimal(start as nat) + ")"@,
        )
    } else if c.max_instances matches Some(max) && end - start < max {
        Some(
            "Port range ["@ + decimal(start as nat) + ", "@ + decimal(end as nat) + ") only has "@
                + decimal((end - start) as nat) + " ports but max_instances is "@ + decimal(
                c.max_instances->0 as nat,
            ),
        )
    } else {
        None
    }
}

/// Whether an instance before the `i`th has the same port. One that names no port
/// is given one later.
pub open spec fn port_taken(c: ManagerConfig, i: int) -> bool {
    c.instances@[i].port != 0 && exists|j: int|
        0 <= j < i && (#[trigger] c.instances@[j]).port == c.instances@[i].port
}

/// Whether an instance before the `i`th has the same name.
pub open spec fn name_taken(c: ManagerConfig, i: int) -> bool {
    exists|j: int| 0 <= j < i && (#[trigger] c.instances@[j]).name@ == c.instances@[i].name@
}

/// What is wrong with the `i`th instance, if anything. It need not name a port.
pub open spec fn instance_fault(c: ManagerConfig, i: int) -> Option<Seq<char>> {
    let name = c.instances@[i].name@;
    let port = c.instances@[i].port;
    if 0 < port < MIN_PORT {
        Some(
            "Instance '"@ + name + "' port must be >= 1024 (got "@ + decimal(port as nat) + ")"@,
        )
    } else if port != 0 && port == c.api_port {
        Some(
            "Instance '"@ + name + "' port "@ + decimal(port as nat) + " conflicts with API port"@,
        )
    } else if port != 0 && c.grpc_enabled && port == c.grpc_port {
        Some(
            "Instance '"@ + name + "' port "@ + decimal(port as nat) + " conflicts with gRPC port"@,
        )
    } else if port_taken(c, i) {
        Some("Duplicate port "@ + decimal(port as nat) + " in instance configs"@)
    } else if name.len() == 0 {
        Some("Instance name cannot be empty"@)
    } else if name.contains('/') || name.contains('\\') {
        Some("Instance name '"@ + name + "' cannot contain path separators"@)
    } else if name_taken(c, i) {
        Some("Duplicate instance name: "@ + name)
    } else {
        None
    }
}

/// What is wrong with the instances from the `i`th on: the first fault counts.
pub open spec fn instances_fault(c: ManagerConfig, i: int) -> Option<Seq<char>>
    decreases c.instances@.len() - i,
{
    if i < 0 || i >= c.instances@.len() {
        None
    } else {
        match instance_fault(c, i) {
            Some(m) => Some(m),
            None => instances_fault(c, i + 1),
        }
    }
}

/// Whether mutual TLS is among the providers.
pub open spec fn uses_mtls(a: AuthConfig) -> bool {
    exists|i: int| 0 <= i < a.providers@.len() && (#[trigger] a.providers@[i])@ == "mtls"@
}

/// What is wrong with the authentication settings, if anything.
pub open spec fn auth_fault(a: AuthConfig, files: FileFacts) -> Option<Seq<char>> {
    if !a.enabled {
        None
    } else if a.providers@.len() == 0 {
        Some("Authentication is enabled but no providers are configured"@)
    } else if !uses_mtls(a) {
        None
    } else {
        match a.mtls {
            None => Some("mTLS provider enabled but mtls config missing"@),
            Some(m) => {
                if !files.ca_cert_exists {
                    Some("mTLS CA certificate not found: "@ + quoted(m.ca_cert@))
                } else if !files.server_cert_exists {
                    Some("mTLS server certificate not found: "@ + quoted(m.server_cert@))
                } else if !files.server_key_exists {
                    Some("mTLS server key not found: "@ + quoted(m.server_key@))
                } else {
                    None
                }
            },
        }
    }
}

/// What is wrong with the ports and instances, if anything.
pub open spec fn static_fault(c: ManagerConfig) -> Option<Seq<char>> {
    match port_fault(c) {
        Some(m) => Some(m),
        None => instances_fault(c, 0),
    }
}

/// What is wrong with a configuration, if anything.
pub open spec fn config_fault(c: ManagerConfig, files: FileFacts) -> Option<Seq<char>> {
    match static_fault(c) {
        Some(m) => Some(m),
        None => match files.missing_state_dir {
            Some(dir) => Some("Cannot create state file directory: "@ + quoted(dir@)),
            None => auth_fault(c.auth, files),
        },
    }
}

/// Whether `r` reports exactly `fault`.
pub open spec fn reports(r: Result<(), ConfigError>, fault: Option<Seq<char>>) -> bool {
    match fault {
        Some(m) => r matches Err(e) && e.message@ == m,
        None => r is Ok,
    }
}

fn fail(message: String) -> (r: Result<(), ConfigError>)
    ensures
        reports(r, Some(message@)),
{
    Err(ConfigError { message })
}

/// Whether `s` holds a path separator.
pub(crate) fn has_separator(s: &str) -> (r: bool)
    ensures
        r == (s@.contains('/') || s@.contains('\\')),
{
    let v = chars_of(s);
    let mut i: usize = 0;
    while i < v.len()
        invariant
            i <= v@.len(),
            v@ == s@,
            forall|k: int| 0 <= k < i ==> v@[k] != '/' && v@[k] != '\\',
        decreases v@.len() - i,
    {
        if v[i] == '/' || v[i] == '\\' {
            assert(s@.contains(v@[i as int]));
            return true;
        }
        i = i + 1;
    }
    false
}

impl ManagerConfig {
    /// The settings in force: those of the file, if there is one, or else the
    /// defaults, with the environment's overrides on top.
    pub fn load(file: Option<ManagerConfig>, env: &EnvOverrides) -> (r: Result<
        ManagerConfig,
        ConfigError,
    >)
        ensures
            match override_fault(*env) {
                Some(m) => r matches Err(e) && e.message@ == m,
                None => r is Ok,
            },
            env.api_port is None && env.health_check_interval is None && env.grpc_port is None
                && env.grpc_enabled is None ==> r is Ok,
            r matches Ok(c) ==> file matches Some(f) ==> {
                &&& env.api_port is None ==> c.api_port == f.api_port
                &&& env.health_check_interval is None ==> c.health_check_interval_secs
                    == f.health_check_interval_secs
                &&& env.grpc_port is None ==> c.grpc_port == f.grpc_port
                &&& env.grpc_enabled is None ==> c.grpc_enabled == f.grpc_enabled
                &&& env.state_file matches Some(s) ==> c.state_file@ == s@
                &&& env.state_file is None ==> c.state_file@ == f.state_file@
                &&& env.tei_binary_path matches Some(s) ==> c.tei_binary_path@ == s@
                &&& env.tei_binary_path is None ==> c.tei_binary_path@ == f.tei_binary_path@
                &&& c.instances == f.instances && c.auth == f.auth && c.max_instances
                    == f.max_instances
            },
            r matches Ok(c) ==> file matches Some(f) ==> {
                &&& overridden(env.api_port, f.api_port as int, u16::MAX as nat) == Some(
                    c.api_port as int,
                )
                &&& c.state_file@ == overridden_text(env.state_file, f.state_file)
                &&& overridden(
                    env.health_check_interval,
                    f.health_check_interval_secs as int,
                    u64::MAX as nat,
                ) == Some(c.health_check_interval_secs as int)
                &&& c.tei_binary_path@ == overridden_text(env.tei_binary_path, f.tei_binary_path)
                &&& overridden(env.grpc_port, f.grpc_port as int, u16::MAX as nat) == Some(
                    c.grpc_port as int,
                )
                &&& overridden_flag(env.grpc_enabled, f.grpc_enabled) == Some(c.grpc_enabled)
                &&& c == (ManagerConfig {
                    api_port: c.api_port,
                    state_file: c.state_file,
                    health_check_interval_secs: c.health_check_interval_secs,
                    tei_binary_path: c.tei_binary_path,
                    grpc_port: c.grpc_port,
                    grpc_enabled: c.grpc_enabled,
                    ..f
                })
            },
            r matches Ok(c) ==> file is None ==> {
                &&& overridden(env.api_port, 9000, u16::MAX as nat) == Some(c.api_port as int)
                &&& c.state_file@ == (match env.state_file {
                    Some(s) => s@,
                    None => "/data/tei-manager-state.toml"@,
                })
                &&& overridden(env.health_check_interval, 10, u64::MAX as nat) == Some(
                    c.health_check_interval_secs as int,
                )
                &&& c.tei_binary_path@ == (match env.tei_binary_path {
                    Some(s) => s@,
                    None => "text-embeddings-router"@,
                })
                &&& overridden(env.grpc_port, 9001, u16::MAX as nat) == Some(c.grpc_port as int)
                &&& overridden_flag(env.grpc_enabled, true) == Some(c.grpc_enabled)
                &&& c.startup_timeout_secs == 300
                &&& c.max_failures_before_restart == 3
                &&& c.graceful_shutdown_timeout_secs == 30
                &&& !c.auto_restore_on_restart
                &&& c.max_instances is None
                &&& c.instance_port_start == 8080
                &&& c.instance_port_end == 8180
                &&& c.instances@.len() == 0
                &&& c.models is None
                &&& c.grpc_max_message_size_mb == 40
                &&& c.grpc_max_parallel_streams == 1024
                &&& c.grpc_request_timeout_secs == 30
                &&& c.grpc_stream_max_concurrent_batches == 4
                &&& c.arrow_output_dtype == ArrowOutputDtype::F32
                &&& c.gpu_preflight == GpuPreflight::Warn
                &&& c.gpu_fallback == GpuFallback::Fail
                &&& c.auto_max_batch_tokens_per_gib == 2048
                &&& !c.auth.enabled
                &&& c.auth.providers@.len() == 0
                &&& !c.auth.require_cert_headers
                &&& c.auth.mtls is None
            },
    {
        let mut config = match file {
            Some(c) => c,
            None => ManagerConfig::default(),
        };
        match number_or(&env.api_port, config.api_port as u64, 65535) {
            Some(n) => {
                config.api_port = n as u16;
            },
            None => {
                return Err(
                    ConfigError { message: "Invalid TEI_MANAGER_API_PORT value".to_owned() },
                );
            },
        }
        if let Some(s) = &env.state_file {
            config.state_file = s.clone();
        }
        match number_or(&env.health_check_interval, config.health_check_interval_secs, u64::MAX) {
            Some(n) => {
                config.health_check_interval_secs = n;
            },
            None => {
                return Err(
                    ConfigError {
                        message: "Invalid TEI_MANAGER_HEALTH_CHECK_INTERVAL value".to_owned(),
                    },
                );
            },
        }
        if let Some(s) = &env.tei_binary_path {
            config.tei_binary_path = s.clone();
        }
        match number_or(&env.grpc_port, config.grpc_port as u64, 65535) {
            Some(n) => {
                config.grpc_port = n as u16;
            },
            None => {
                return Err(
                    ConfigError { message: "Invalid TEI_MANAGER_GRPC_PORT value".to_owned() },
                );
            },
        }
        match flag_or(&env.grpc_enabled, config.grpc_enabled) {
            Some(b) => {
                config.grpc_enabled = b;
            },
            None => {
                return Err(
                    ConfigError { message: "Invalid TEI_MANAGER_GRPC_ENABLED value".to_owned() },
                );
            },
        }
        Ok(config)
    }

    fn check_ports(&self) -> (r: Result<(), ConfigError>)
        ensures
            reports(r, port_fault(*self)),
    {
        let start: u16 = self.instance_port_start;
        let end: u16 = self.instance_port_end;
        if self.api_port < MIN_PORT {
            return fail(
                "API port must be >= 1024 (got ".to_owned().concat(
                    decimal_string(self.api_port as u64).as_str(),
                ).concat(")"),
            );
        }
        if start < MIN_PORT {
            return fail(
                "instance_port_start must be >= 1024 (got ".to_owned().concat(
                    decimal_string(start as u64).as_str(),
                ).concat(")"),
            );
        }
        if end <= start {
            return fail(
                "instance_port_end (".to_owned().concat(decimal_string(end as u64).as_str()).concat(
                    ") must be greater than instance_port_start (",
                ).concat(decimal_string(start as u64).as_str()).concat(")"),
            );
        }
        if let Some(max) = self.max_instances {
            if ((end - start) as usize) < max {
                return fail(
                    "Port range [".to_owned().concat(decimal_string(start as u64).as_str()).concat(
                        ", ",
                    ).concat(decimal_string(end as u64).as_str()).concat(") only has ").concat(
                        decimal_string((end - start) as u64).as_str(),
                    ).concat(" ports but max_instances is ").concat(
                        decimal_string(max as u64).as_str(),
                    ),
                );
            }
        }
        Ok(())
    }

    fn port_is_taken(&self, i: usize) -> (r: bool)
        requires
            i < self.instances@.len(),
        ensures
            r == port_taken(*self, i as int),
    {
        if self.instances[i].port == 0 {
            return false;
        }
        let mut j: usize = 0;
        while j < i
            invariant
                j <= i < self.instances@.len(),
                self.instances@[i as int].port != 0,
                forall|k: int|
                    0 <= k < j ==> (#[trigger] self.instances@[k]).port
                        != self.instances@[i as int].port,
            decreases i - j,
        {
            if self.instances[j].port == self.instances[i].port {
                return true;
            }
            j = j + 1;
        }
        false
    }

    fn name_is_taken(&self, i: usize) -> (r: bool)
        requires
            i < self.instances@.len(),
        ensures
            r == name_taken(*self, i as int),
    {
        let mut j: usize = 0;
        while j < i
            invariant
                j <= i < self.instances@.len(),
                forall|k: int|
                    0 <= k < j ==> (#[trigger] self.instances@[k]).name@
                        != self.instances@[i as int].name@,
            decreases i - j,
        {
            if self.instances[j].name == self.instances[i].name {
                return true;
            }
            j = j + 1;
        }
        false
    }

    fn check_instance(&self, i: usize) -> (r: Result<(), ConfigError>)
        requires
            i < self.instances@.len(),
        ensures
            reports(r, instance_fault(*self, i as int)),
    {
        let instance = &self.instances[i];
        let port: u16 = instance.port;
        let name = instance.name.as_str();
        if port != 0 && port < MIN_PORT {
            return fail(
                "Instance '".to_owned().concat(name).concat("' port must be >= 1024 (got ").concat(
                    decimal_string(port as u64).as_str(),
                ).concat(")"),
            );
        }
        if port != 0 && port == self.api_port {
            return fail(
                "Instance '".to_owned().concat(name).concat("' port ").concat(
                    decimal_string(port as u64).as_str(),
                ).concat(" conflicts with API port"),
            );
        }
        if port != 0 && self.grpc_enabled && port == self.grpc_port {
            return fail(
                "Instance '".to_owned().concat(name).concat("' port ").concat(
                    decimal_string(port as u64).as_str(),
                ).concat(" conflicts with gRPC port"),
            );
        }
        if self.port_is_taken(i) {
            return fail(
                "Duplicate port ".to_owned().concat(decimal_string(port as u64).as_str()).concat(
                    " in instance configs",
                ),
            );
        }
        if name.is_empty() {
            return fail("Instance name cannot be empty".to_owned());
        }
        if has_separator(name) {
            return fail(
                "Instance name '".to_owned().concat(name).concat(
                    "' cannot contain path separators",
                ),
            );
        }
        if self.name_is_taken(i) {
            return fail("Duplicate instance name: ".to_owned().concat(name));
        }
        Ok(())
    }

    /// Check what needs no look at the file system: ports, and the instances
    /// to create at startup. The first fault is reported.
    pub fn validate_static(&self) -> (r: Result<(), ConfigError>)
        ensures
            reports(r, static_fault(*self)),
    {
        if let Err(e) = self.check_ports() {
            return Err(e);
        }
        let mut i: usize = 0;
        while i < self.instances.len()
            invariant
                i <= self.instances@.len(),
                port_fault(*self) is None,
                instances_fault(*self, 0) == instances_fault(*self, i as int),
            decreases self.instances@.len() - i,
        {
            if let Err(e) = self.check_instance(i) {
                return Err(e);
            }
            i = i + 1;
        }
        Ok(())
    }

    fn check_auth(&self, files: &FileFacts) -> (r: Result<(), ConfigError>)
        ensures
            reports(r, auth_fault(self.auth, *files)),
    {
        if !self.auth.enabled {
            return Ok(());
        }
        if self.auth.providers.len() == 0 {
            return fail("Authentication is enabled but no providers are configured".to_owned());
        }
        if !list_contains(&self.auth.providers, "mtls") {
            return Ok(());
        }
        match &self.auth.mtls {
            None => fail("mTLS provider enabled but mtls config missing".to_owned()),
            Some(m) => {
                if !files.ca_cert_exists {
                    fail(
                        "mTLS CA certificate not found: ".to_owned().concat(
                            quote(m.ca_cert.as_str()).as_str(),
                        ),
                    )
                } else if !files.server_cert_exists {
                    fail(
                        "mTLS server certificate not found: ".to_owned().concat(
                            quote(m.server_cert.as_str()).as_str(),
                        ),
                    )
                } else if !files.server_key_exists {
                    fail(
                        "mTLS server key not found: ".to_owned().concat(
                            quote(m.server_key.as_str()).as_str(),
                        ),
                    )
                } else {
                    Ok(())
                }
            },
        }
    }

    /// Check a configuration, given what the file system says of the files it
    /// names. The first fault is reported.
    pub fn validate(&self, files: &FileFacts) -> (r: Result<(), ConfigError>)
        ensures
            reports(r, config_fault(*self, *files)),
            r is Ok <==> is_sound(*self, *files),
    {
        proof {
            law_sound_configs_pass(*self, *files);
        }
        if let Err(e) = self.validate_static() {
            return Err(e);
        }
        if let Some(dir) = &files.missing_state_dir {
            return fail(
                "Cannot create state file directory: ".to_owned().concat(
                    quote(dir.as_str()).as_str(),
                ),
            );
        }
        self.check_auth(files)
    }

    /// Whether the manager must not start, given what is wrong with the GPUs.
    pub fn refuses_to_start(&self, problems: &Vec<String>) -> (r: bool)
        ensures
            r == (self.gpu_preflight == GpuPreflight::Fail && problems@.len() > 0),
    {
        self.gpu_preflight == GpuPreflight::Fail && problems.len() > 0
    }

    /// Whether client certificates are accepted without a look at who issued
    /// them, which an operator should be warned of.
    pub fn accepts_self_signed(&self) -> (r: bool)
        ensures
            r == (self.auth.enabled && uses_mtls(self.auth) && (self.auth.mtls matches Some(m)
                && m.allow_self_signed)),
    {
        let allowed: bool = match &self.auth.mtls {
            Some(m) => m.allow_self_signed,
            None => false,
        };
        self.auth.enabled && list_contains(&self.auth.providers, "mtls") && allowed
    }
}

/// No fault from an instance on means none in any of the later ones.
proof fn lemma_no_instance_fault(c: ManagerConfig, i: int, k: int)
    requires
        0 <= i <= k < c.instances@.len(),
        instances_fault(c, i) is None,
    ensures
        instance_fault(c, k) is None,
    decreases k - i,
{
    if i < k {
        lemma_no_instance_fault(c, i + 1, k);
    }
}

/// In a configuration that passes, the ports that instances name are their own, at
/// least 1024 and apart from those of the servers; their names are their own too,
/// not empty and without path separators; the port range is not empty and has
/// room for all the instances allowed.
pub proof fn law_valid_configs_keep_instances_apart(c: ManagerConfig, files: FileFacts)
    requires
        config_fault(c, files) is None,
    ensures
        MIN_PORT <= c.api_port,
        MIN_PORT <= c.instance_port_start < c.instance_port_end,
        c.max_instances matches Some(max) ==> max <= c.instance_port_end - c.instance_port_start,
        forall|i: int|
            0 <= i < c.instances@.len() ==> {
                let x = #[trigger] c.instances@[i];
                &&& x.port == 0 || MIN_PORT <= x.port
                &&& x.port != c.api_port
                &&& c.grpc_enabled && x.port != 0 ==> x.port != c.grpc_port
                &&& x.name@.len() > 0
                &&& !x.name@.contains('/')
                &&& !x.name@.contains('\\')
            },
        forall|i: int, j: int|
            0 <= i < j < c.instances@.len() ==> ((#[trigger] c.instances@[i]).port == 0
                || c.instances@[i].port != (#[trigger] c.instances@[j]).port)
                && c.instances@[i].name@ != c.instances@[j].name@,
        c.auth.enabled && uses_mtls(c.auth) ==> c.auth.mtls is Some,
{
    assert forall|i: int| 0 <= i < c.instances@.len() implies instance_fault(c, i) is None by {
        lemma_no_instance_fault(c, 0, i);
    }
    assert forall|i: int, j: int| 0 <= i < j < c.instances@.len() implies ((
    #[trigger] c.instances@[i]).port == 0 || c.instances@[i].port != (
    #[trigger] c.instances@[j]).port) && c.instances@[i].name@ != c.instances@[j].name@ by {
        assert(instance_fault(c, j) is None);
    }
    assert forall|i: int| 0 <= i < c.instances@.len() implies {
        let x = #[trigger] c.instances@[i];
        &&& x.port == 0 || MIN_PORT <= x.port
        &&& x.port != c.api_port
        &&& c.grpc_enabled && x.port != 0 ==> x.port != c.grpc_port
        &&& x.name@.len() > 0
        &&& !x.name@.contains('/')
        &&& !x.name@.contains('\\')
    } by {
        assert(instance_fault(c, i) is None);
    }
}

/// Whether a configuration is sound: ports from 1024 on, a range of ports that is
/// not empty and has room for as many instances as there may be, instances whose
/// names and ports are their own and not those of the servers, a place for the
/// state, and, where callers have to say who they are, a way to do so with the files
/// that it takes.
pub open spec fn is_sound(c: ManagerConfig, files: FileFacts) -> bool {
    &&& c.api_port >= 1024
    &&& c.instance_port_start >= 1024
    &&& c.instance_port_start < c.instance_port_end
    &&& c.max_instances matches Some(max) ==> c.instance_port_start + max <= c.instance_port_end
    &&& forall|i: int|
        #![trigger c.instances@[i]]
        0 <= i < c.instances@.len() ==> {
            let x = c.instances@[i];
            &&& x.name@.len() > 0 && !x.name@.contains('/') && !x.name@.contains('\\')
            &&& x.port != 0 ==> x.port >= 1024 && x.port != c.api_port && !(c.grpc_enabled && x.port
                == c.grpc_port)
        }
    &&& forall|i: int, j: int|
        0 <= i < j < c.instances@.len() ==> (#[trigger] c.instances@[i]).name@ != (
        #[trigger] c.instances@[j]).name@ && (c.instances@[i].port != c.instances@[j].port
            || c.instances@[j].port == 0)
    &&& files.missing_state_dir is None
    &&& c.auth.enabled ==> c.auth.providers@.len() > 0
    &&& forall|k: int|
        c.auth.enabled && 0 <= k < c.auth.providers@.len() && (#[trigger] c.auth.providers@[k])@
            == "mtls"@ ==> c.auth.mtls is Some && files.ca_cert_exists && files.server_cert_exists
            && files.server_key_exists
}

/// A configuration passes exactly when it is sound.
pub proof fn law_sound_configs_pass(c: ManagerConfig, files: FileFacts)
    ensures
        config_fault(c, files) is None <==> is_sound(c, files),
{
    if config_fault(c, files) is None {
        law_valid_configs_keep_instances_apart(c, files);
        assert forall|k: int|
            c.auth.enabled && 0 <= k < c.auth.providers@.len() && (#[trigger] c.auth.providers@[k])@
                == "mtls"@ implies c.auth.mtls is Some && files.ca_cert_exists
            && files.server_cert_exists && files.server_key_exists by {
            assert(uses_mtls(c.auth));
        }
    }
    if is_sound(c, files) {
        assert forall|i: int| 0 <= i < c.instances@.len() implies #[trigger] instance_fault(
            c,
            i,
        ) is None by {
            let x = c.instances@[i];
            if port_taken(c, i) {
                let j = choose|j: int|
                    0 <= j < i && (#[trigger] c.instances@[j]).port == c.instances@[i].port;
                assert(c.instances@[j].port != c.instances@[i].port);
            }
            if name_taken(c, i) {
                let j = choose|j: int|
                    0 <= j < i && (#[trigger] c.instances@[j]).name@ == c.instances@[i].name@;
                assert(c.instances@[j].name@ != c.instances@[i].name@);
            }
        }
        lemma_all_fit(c, 0);
        if uses_mtls(c.auth) {
            let k = choose|k: int|
                0 <= k < c.auth.providers@.len() && (#[trigger] c.auth.providers@[k])@ == "mtls"@;
        }
    }
}

proof fn lemma_all_fit(c: ManagerConfig, i: int)
    requires
        0 <= i,
        forall|k: int| 0 <= k < c.instances@.len() ==> #[trigger] instance_fault(c, k) is None,
    ensures
        instances_fault(c, i) is None,
    decreases c.instances@.len() - i,
{
    if i < c.instances@.len() {
        assert(instance_fault(c, i) is None);
        lemma_all_fit(c, i + 1);
    }
}

/// The fault that is reported of instances is that of the first one that has any.
pub proof fn law_the_first_faulty_instance_is_reported(c: ManagerConfig, i: int, k: int)
    requires
        0 <= i <= k < c.instances@.len(),
        forall|j: int| i <= j < k ==> #[trigger] instance_fault(c, j) is None,
        instance_fault(c, k) is Some,
    ensures
        instances_fault(c, i) == instance_fault(c, k),
    decreases k - i,
{
    if i < k {
        assert(instance_fault(c, i) is None);
        law_the_first_faulty_instance_is_reported(c, i + 1, k);
    }
}

/// The first thing that is wrong with an instance is what is said of it, with its
/// name or its port.
pub proof fn law_instance_faults_say_what_is_wrong(c: ManagerConfig, i: int)
    requires
        0 <= i < c.instances@.len(),
    ensures
        ({
            let x = c.instances@[i];
            let port = decimal(x.port as nat);
            let same_port = x.port != 0 && exists|j: int|
                0 <= j < i && (#[trigger] c.instances@[j]).port == x.port;
            let same_name = exists|j: int|
                0 <= j < i && (#[trigger] c.instances@[j]).name@ == x.name@;
            instance_fault(c, i) == (if x.port != 0 && x.port < 1024 {
                Some(
                    "Instance '"@ + x.name@ + "' port must be >= 1024 (got "@ + port + ")"@,
                )
            } else if x.port != 0 && x.port == c.api_port {
                Some("Instance '"@ + x.name@ + "' port "@ + port + " conflicts with API port"@)
            } else if x.port != 0 && c.grpc_enabled && x.port == c.grpc_port {
                Some("Instance '"@ + x.name@ + "' port "@ + port + " conflicts with gRPC port"@)
            } else if same_port {
                Some("Duplicate port "@ + port + " in instance configs"@)
            } else if x.name@.len() == 0 {
                Some("Instance name cannot be empty"@)
            } else if x.name@.contains('/') || x.name@.contains('\\') {
                Some("Instance name '"@ + x.name@ + "' cannot contain path separators"@)
            } else if same_name {
                Some("Duplicate instance name: "@ + x.name@)
            } else {
                None
            })
        }),
{
}

/// What is said of the ports of the manager, the first that is wrong.
pub proof fn law_port_faults_say_what_is_wrong(c: ManagerConfig)
    ensures
        ({
            let start = decimal(c.instance_port_start as nat);
            let end = decimal(c.instance_port_end as nat);
            port_fault(c) == (if c.api_port < 1024 {
                Some("API port must be >= 1024 (got "@ + decimal(c.api_port as nat) + ")"@)
            } else if c.instance_port_start < 1024 {
                Some("instance_port_start must be >= 1024 (got "@ + start + ")"@)
            } else if c.instance_port_end <= c.instance_port_start {
                Some(
                    "instance_port_end ("@ + end
                        + ") must be greater than instance_port_start ("@ + start + ")"@,
                )
            } else if c.max_instances is Some && c.max_instances->0 > c.instance_port_end
                - c.instance_port_start {
                Some(
                    "Port range ["@ + start + ", "@ + end + ") only has "@ + decimal(
                        (c.instance_port_end - c.instance_port_start) as nat,
                    ) + " ports but max_instances is "@ + decimal(c.max_instances->0 as nat),
                )
            } else {
                None
            })
        }),
{
}

/// What is said of authentication that cannot work: that nobody is to be asked, that
/// the settings for certificates are missing, or which of their files is.
pub proof fn law_auth_faults_say_what_is_missing(a: AuthConfig, files: FileFacts, m: MtlsConfig)
    requires
        a.enabled,
        exists|i: int| 0 <= i < a.providers@.len() && (#[trigger] a.providers@[i])@ == "mtls"@,
    ensures
        a.mtls is None ==> auth_fault(a, files) == Some(
            "mTLS provider enabled but mtls config missing"@,
        ),
        a.mtls == Some(m) && !files.ca_cert_exists ==> auth_fault(a, files) == Some(
            "mTLS CA certificate not found: "@ + quoted(m.ca_cert@),
        ),
        a.mtls == Some(m) && files.ca_cert_exists && !files.server_cert_exists ==> auth_fault(
            a,
            files,
        ) == Some("mTLS server certificate not found: "@ + quoted(m.server_cert@)),
        a.mtls == Some(m) && files.ca_cert_exists && files.server_cert_exists
            && !files.server_key_exists ==> auth_fault(a, files) == Some(
            "mTLS server key not found: "@ + quoted(m.server_key@),
        ),
        a.mtls == Some(m) && files.ca_cert_exists && files.server_cert_exists
            && files.server_key_exists ==> auth_fault(a, files) is None,
{
}

/// A variable that is set to a number in range stands for it, one that is unset
/// leaves what is there, and one that is set to anything but digits is a fault; a
/// flag is `true` or `false`.
pub proof fn law_variables_override(n: nat, value: String, current: int, max: nat, flag: bool)
    ensures
        overridden(None, current, max) == Some(current),
        value@ == decimal(n) && n <= max ==> overridden(Some(value), current, max) == Some(n as int),
        value@ == decimal(n) && n > max ==> overridden(Some(value), current, max) is None,
        overridden(Some(value), current, max) matches Some(k) ==> 0 <= k <= max && value@.len() > 0,
        overridden_flag(None, flag) == Some(flag),
        overridden_flag(Some(value), flag) matches Some(b) ==> value@ == (if b {
            "true"@
        } else {
            "false"@
        }),
        value@ == "true"@ ==> overridden_flag(Some(value), flag) == Some(true),
        value@ == "false"@ ==> overridden_flag(Some(value), flag) == Some(false),
{
    crate::text::law_decimals_are_read_back(n, max);
    crate::text::law_numbers_are_digits_alone(value@, max);
    reveal_strlit("true");
    reveal_strlit("false");
    assert("true"@.len() != "false"@.len());
}

/// Of the variables that hold no value of their kind, the first is named, and with
/// none of them nothing is wrong.
pub proof fn law_the_first_wrong_variable_is_named(env: EnvOverrides)
    ensures
        ({
            let port = |s: Option<String>|
                s is Some && unsigned_upto(s->0@, u16::MAX as nat) is None;
            let span = env.health_check_interval is Some && unsigned_upto(
                env.health_check_interval->0@,
                u64::MAX as nat,
            ) is None;
            let flag = env.grpc_enabled is Some && env.grpc_enabled->0@ != "true"@
                && env.grpc_enabled->0@ != "false"@;
            override_fault(env) == (if port(env.api_port) {
                Some("Invalid TEI_MANAGER_API_PORT value"@)
            } else if span {
                Some("Invalid TEI_MANAGER_HEALTH_CHECK_INTERVAL value"@)
            } else if port(env.grpc_port) {
                Some("Invalid TEI_MANAGER_GRPC_PORT value"@)
            } else if flag {
                Some("Invalid TEI_MANAGER_GRPC_ENABLED value"@)
            } else {
                None
            })
        }),
{
}

/// Whether one of `instances` has this name.
pub open spec fn has_name(instances: Seq<InstanceConfig>, name: Seq<char>) -> bool {
    exists|i: int| 0 <= i < instances.len() && (#[trigger] instances[i]).name@ == name
}

/// Which of the first `n` of `instances` are not among `state`, by their names.
pub open spec fn missing(instances: Seq<InstanceConfig>, state: Seq<InstanceConfig>, n: int) -> Seq<
    int,
>
    decreases n,
{
    if n <= 0 {
        Seq::empty()
    } else if has_name(state, instances[n - 1].name@) {
        missing(instances, state, n - 1)
    } else {
        missing(instances, state, n - 1).push(n - 1)
    }
}

fn is_named(instances: &Vec<InstanceConfig>, name: &str) -> (r: bool)
    ensures
        r == has_name(instances@, name@),
{
    let mut i: usize = 0;
    while i < instances.len()
        invariant
            i <= instances@.len(),
            forall|k: int| 0 <= k < i ==> (#[trigger] instances@[k]).name@ != name@,
        decreases instances@.len() - i,
    {
        if text_eq(instances[i].name.as_str(), name) {
            return true;
        }
        i = i + 1;
    }
    false
}

impl ManagerConfig {
    /// Which of the configured instances to create at startup, given those that
    /// were restored: the ones whose names are missing. What was kept takes
    /// precedence over the configuration.
    pub fn instances_to_seed(&self, restored: &Vec<InstanceConfig>) -> (r: Vec<usize>)
        ensures
            r@.map_values(|i: usize| i as int) == missing(
                self.instances@,
                restored@,
                self.instances@.len() as int,
            ),
            forall|i: int|
                0 <= i < r@.len() ==> #[trigger] r@[i] < self.instances@.len() && forall|j: int|
                    0 <= j < restored@.len() ==> (#[trigger] restored@[j]).name@
                        != self.instances@[r@[i] as int].name@,
            forall|i: int, j: int| 0 <= i < j < r@.len() ==> #[trigger] r@[i] < #[trigger] r@[j],
            forall|k: int|
                0 <= k < self.instances@.len() && (forall|j: int|
                    0 <= j < restored@.len() ==> (#[trigger] restored@[j]).name@ != (
                    #[trigger] self.instances@[k]).name@) ==> exists|i: int|
                    0 <= i < r@.len() && #[trigger] r@[i] == k,
    {
        let mut seeds: Vec<usize> = Vec::new();
        let mut i: usize = 0;
        assert(seeds@.map_values(|i: usize| i as int) =~= missing(self.instances@, restored@, 0));
        while i < self.instances.len()
            invariant
                i <= self.instances@.len(),
                seeds@.map_values(|i: usize| i as int) == missing(
                    self.instances@,
                    restored@,
                    i as int,
                ),
                forall|k: int|
                    0 <= k < seeds@.len() ==> #[trigger] seeds@[k] < i && forall|j: int|
                        0 <= j < restored@.len() ==> (#[trigger] restored@[j]).name@
                            != self.instances@[seeds@[k] as int].name@,
                forall|k: int, j: int|
                    0 <= k < j < seeds@.len() ==> #[trigger] seeds@[k] < #[trigger] seeds@[j],
                forall|k: int|
                    0 <= k < i && (forall|j: int|
                        0 <= j < restored@.len() ==> (#[trigger] restored@[j]).name@ != (
                        #[trigger] self.instances@[k]).name@) ==> exists|n: int|
                        0 <= n < seeds@.len() && #[trigger] seeds@[n] == k,
            decreases self.instances@.len() - i,
        {
            let ghost before = seeds@.map_values(|i: usize| i as int);
            let ghost held = seeds@;
            if !is_named(restored, self.instances[i].name.as_str()) {
                seeds.push(i);
                assert(seeds@[held.len() as int] == i);
                assert forall|k: int|
                    0 <= k < i && (forall|j: int|
                        0 <= j < restored@.len() ==> (#[trigger] restored@[j]).name@ != (
                        #[trigger] self.instances@[k]).name@) implies exists|n: int|
                    0 <= n < seeds@.len() && #[trigger] seeds@[n] == k by {
                    let n = choose|n: int| 0 <= n < held.len() && #[trigger] held[n] == k;
                    assert(seeds@[n] == k);
                }
                assert(seeds@.map_values(|i: usize| i as int) =~= before.push(i as int));
            }
            i = i + 1;
        }
        seeds
    }
}

/// Exactly the configured instances are seeded whose names are not among those
/// restored.
pub proof fn law_state_takes_precedence(
    instances: Seq<InstanceConfig>,
    state: Seq<InstanceConfig>,
    n: int,
    i: int,
)
    requires
        0 <= i < n <= instances.len(),
    ensures
        missing(instances, state, n).contains(i) <==> !has_name(state, instances[i].name@),
    decreases n,
{
    let before = missing(instances, state, n - 1);
    let now = missing(instances, state, n);
    if i < n - 1 {
        law_state_takes_precedence(instances, state, n - 1, i);
        if before.contains(i) {
            let k = choose|k: int| 0 <= k < before.len() && before[k] == i;
            assert(now[k] == i);
        }
        if now.contains(i) {
            let k = choose|k: int| 0 <= k < now.len() && now[k] == i;
            assert(before[k] == i);
        }
    } else {
        lemma_missing_below(instances, state, n - 1);
        if !has_name(state, instances[i].name@) {
            assert(now[before.len() as int] == i);
        }
    }
}

/// Where nothing was kept, every configured instance is seeded, in order.
pub proof fn law_without_state_all_are_seeded(instances: Seq<InstanceConfig>, n: int)
    requires
        0 <= n <= instances.len(),
    ensures
        missing(instances, Seq::empty(), n) == Seq::new(n as nat, |i: int| i),
    decreases n,
{
    if n > 0 {
        law_without_state_all_are_seeded(instances, n - 1);
    }
    assert(missing(instances, Seq::empty(), n) =~= Seq::new(n as nat, |i: int| i));
}

proof fn lemma_missing_below(instances: Seq<InstanceConfig>, state: Seq<InstanceConfig>, n: int)
    ensures
        forall|k: int|
            0 <= k < missing(instances, state, n).len() ==> #[trigger] missing(
                instances,
                state,
                n,
            )[k] < n,
    decreases n,
{
    if n > 0 {
        let before = missing(instances, state, n - 1);
        let now = missing(instances, state, n);
        lemma_missing_below(instances, state, n - 1);
        assert forall|k: int| 0 <= k < now.len() implies #[trigger] now[k] < n by {
            if k < before.len() {
                assert(now[k] == before[k]);
            }
        }
    }
}

} // verus!
