//! Watching over instances: what a check says of one, and what is done about it.

use vstd::prelude::*;

use crate::config::{
    GpuFallback, Nanos, UnixNanos, DEFAULT_STARTUP_LOG_STALL_SECS, DEFAULT_STARTUP_TIMEOUT_SECS,
};
use crate::grpc::request::option_text;
use crate::instance::{InstanceStats, InstanceStatus, ProcessExit, TeiInstance};
use crate::text::{decimal, decimal_string, wide_decimal_string};

verus! {

/// Nanoseconds in a second.
pub const NANOS_PER_SEC: u128 = 1_000_000_000;

/// Seconds that connecting to an instance, and asking it, may take.
pub const PROBE_TIMEOUT_SECS: u64 = 5;

/// What a check found.
#[derive(Debug, Clone)]
pub struct HealthCheckResult {
    pub healthy: bool,
    /// Why it is not healthy.
    pub reason: Option<String>,
}

impl HealthCheckResult {
    pub fn healthy() -> (r: Self)
        ensures
            r.healthy,
            r.reason is None,
    {
        HealthCheckResult { healthy: true, reason: None }
    }

    pub fn unhealthy(reason: String) -> (r: Self)
        ensures
            !r.healthy,
            r.reason == Some(reason),
    {
        HealthCheckResult { healthy: false, reason: Some(reason) }
    }
}

/// What happens while instances are watched.
#[derive(Debug, Clone)]
pub enum HealthEvent {
    CheckStarted { instance_name: String },
    CheckSucceeded { instance_name: String },
    CheckFailed { instance_name: String, consecutive_failures: u32, reason: String },
    RestartTriggered { instance_name: String, failure_count: u32 },
    RestartSucceeded { instance_name: String },
    RestartFailed { instance_name: String, error: String },
    StatusTransition { instance_name: String, from: InstanceStatus, to: InstanceStatus },
}

impl HealthEvent {
    /// The instance whose restart is to be counted, if this event is one.
    pub fn counted_restart(&self) -> (r: Option<&str>)
        ensures
            match *self {
                HealthEvent::RestartTriggered { instance_name, .. } => r matches Some(s) && s@
                    == instance_name@,
                _ => r is None,
            },
    {
        match self {
            HealthEvent::RestartTriggered { instance_name, .. } => Some(instance_name.as_str()),
            _ => None,
        }
    }
}

/// How instances are watched.
#[derive(Debug, Clone)]
pub struct HealthMonitorConfig {
    pub check_interval: Nanos,
    pub initial_delay: Nanos,
    /// How long an instance may be starting. Its own setting goes first.
    pub startup_timeout: Nanos,
    pub max_failures_before_restart: u32,
    pub auto_restart: bool,
    /// Past the startup timeout, an instance whose process lives and has logged
    /// something so recently is still loading.
    pub startup_log_stall: Nanos,
    pub gpu_fallback: GpuFallback,
}

/// Seconds as nanoseconds.
pub open spec fn secs(n: int) -> int {
    n * NANOS_PER_SEC
}

impl Default for HealthMonitorConfig {
    fn default() -> (c: Self)
        ensures
            c.check_interval == secs(30),
            c.initial_delay == secs(60),
            c.startup_timeout == secs(300),
            c.max_failures_before_restart == 3,
            c.auto_restart,
            c.startup_log_stall == secs(60),
            c.gpu_fallback == GpuFallback::Fail,
    {
        HealthMonitorConfig {
            check_interval: 30 * NANOS_PER_SEC,
            initial_delay: 60 * NANOS_PER_SEC,
            startup_timeout: DEFAULT_STARTUP_TIMEOUT_SECS as u128 * NANOS_PER_SEC,
            max_failures_before_restart: 3,
            auto_restart: true,
            startup_log_stall: DEFAULT_STARTUP_LOG_STALL_SECS as u128 * NANOS_PER_SEC,
            gpu_fallback: GpuFallback::Fail,
        }
    }
}

impl HealthMonitorConfig {
    pub fn builder() -> (b: HealthMonitorConfigBuilder)
        ensures
            b.check_interval is None,
            b.initial_delay is None,
            b.startup_timeout is None,
            b.max_failures_before_restart is None,
            b.auto_restart is None,
            b.startup_log_stall is None,
            b.gpu_fallback is None,
    {
        HealthMonitorConfigBuilder {
            check_interval: None,
            initial_delay: None,
            startup_timeout: None,
            max_failures_before_restart: None,
            auto_restart: None,
            startup_log_stall: None,
            gpu_fallback: None,
        }
    }
}

/// Builds a [`HealthMonitorConfig`], with the defaults for what is not set.
pub struct HealthMonitorConfigBuilder {
    pub check_interval: Option<Nanos>,
    pub initial_delay: Option<Nanos>,
    pub startup_timeout: Option<Nanos>,
    pub max_failures_before_restart: Option<u32>,
    pub auto_restart: Option<bool>,
    pub startup_log_stall: Option<Nanos>,
    pub gpu_fallback: Option<GpuFallback>,
}

/// `set`, or `default` when it is not.
pub open spec fn set_or<T>(set: Option<T>, default: T) -> T {
    match set {
        Some(x) => x,
        None => default,
    }
}

impl HealthMonitorConfigBuilder {
    pub fn check_interval(self, interval: Nanos) -> (b: Self)
        ensures
            b == (HealthMonitorConfigBuilder { check_interval: Some(interval), ..self }),
    {
        HealthMonitorConfigBuilder { check_interval: Some(interval), ..self }
    }

    pub fn initial_delay(self, delay: Nanos) -> (b: Self)
        ensures
            b == (HealthMonitorConfigBuilder { initial_delay: Some(delay), ..self }),
    {
        HealthMonitorConfigBuilder { initial_delay: Some(delay), ..self }
    }

    pub fn startup_timeout(self, timeout: Nanos) -> (b: Self)
        ensures
            b == (HealthMonitorConfigBuilder { startup_timeout: Some(timeout), ..self }),
    {
        HealthMonitorConfigBuilder { startup_timeout: Some(timeout), ..self }
    }

    pub fn max_failures_before_restart(self, max: u32) -> (b: Self)
        ensures
            b == (HealthMonitorConfigBuilder { max_failures_before_restart: Some(max), ..self }),
    {
        HealthMonitorConfigBuilder { max_failures_before_restart: Some(max), ..self }
    }

    pub fn auto_restart(self, enabled: bool) -> (b: Self)
        ensures
            b == (HealthMonitorConfigBuilder { auto_restart: Some(enabled), ..self }),
    {
        HealthMonitorConfigBuilder { auto_restart: Some(enabled), ..self }
    }

    pub fn startup_log_stall(self, window: Nanos) -> (b: Self)
        ensures
            b == (HealthMonitorConfigBuilder { startup_log_stall: Some(window), ..self }),
    {
        HealthMonitorConfigBuilder { startup_log_stall: Some(window), ..self }
    }

    pub fn gpu_fallback(self, policy: GpuFallback) -> (b: Self)
        ensures
            b == (HealthMonitorConfigBuilder { gpu_fallback: Some(policy), ..self }),
    {
        HealthMonitorConfigBuilder { gpu_fallback: Some(policy), ..self }
    }

    pub fn build(self) -> (c: HealthMonitorConfig)
        ensures
            c.check_interval == set_or(self.check_interval, secs(30) as u128),
            c.initial_delay == set_or(self.initial_delay, secs(60) as u128),
            c.startup_timeout == set_or(self.startup_timeout, secs(300) as u128),
            c.max_failures_before_restart == set_or(self.max_failures_before_restart, 3u32),
            c.auto_restart == set_or(self.auto_restart, true),
            c.startup_log_stall == set_or(self.startup_log_stall, secs(60) as u128),
            c.gpu_fallback == set_or(self.gpu_fallback, GpuFallback::Fail),
    {
        let defaults = HealthMonitorConfig::default();
        HealthMonitorConfig {
            check_interval: self.check_interval.unwrap_or(defaults.check_interval),
            initial_delay: self.initial_delay.unwrap_or(defaults.initial_delay),
            startup_timeout: self.startup_timeout.unwrap_or(defaults.startup_timeout),
            max_failures_before_restart: self.max_failures_before_restart.unwrap_or(
                defaults.max_failures_before_restart,
            ),
            auto_restart: self.auto_restart.unwrap_or(defaults.auto_restart),
            startup_log_stall: self.startup_log_stall.unwrap_or(defaults.startup_log_stall),
            gpu_fallback: self.gpu_fallback.unwrap_or(defaults.gpu_fallback),
        }
    }
}

/// What can be observed of an instance's process at a moment.
#[derive(Debug, Clone)]
pub struct ProcessFacts {
    pub now: UnixNanos,
    pub running: bool,
    /// How it ended, if that is known.
    pub exit: Option<ProcessExit>,
    /// When it last wrote to its log.
    pub last_log_write: Option<UnixNanos>,
    /// What its log says of running on the CPU.
    pub gpu_fallback: Option<String>,
}

/// How long it is from `from` to `to`; nothing when that is backwards.
pub open spec fn elapsed(from: UnixNanos, to: UnixNanos) -> int {
    if to <= from {
        0
    } else {
        to - from
    }
}

/// How long it is from `from` to `to`; nothing when that is backwards.
pub fn elapsed_nanos(from: UnixNanos, to: UnixNanos) -> (d: Nanos)
    ensures
        d == elapsed(from, to),
        to >= from ==> d == to - from,
        to <= from ==> d == 0,
{
    if to <= from {
        0
    } else if from < 0 && to >= 0 {
        to as u128 + (-(from + 1)) as u128 + 1
    } else {
        (to - from) as u128
    }
}

/// What `exit_reason` says.
pub open spec fn gone_because(exit: Option<ProcessExit>, probe: Option<Seq<char>>) -> Seq<char> {
    match exit {
        Some(e) => e.text(),
        None => match probe {
            Some(p) => p,
            None => "process not running"@,
        },
    }
}

/// Why a process is gone: how it ended if that is known, else what the last
/// check said.
pub fn exit_reason(exit: &Option<ProcessExit>, probe_reason: Option<String>) -> (s: String)
    ensures
        s@ == gone_because(*exit, option_text(probe_reason)),
        exit matches Some(e) ==> s@ == e.text(),
        exit is None && probe_reason is Some ==> s@ == probe_reason->0@,
        exit is None && probe_reason is None ==> s@ == "process not running"@,
{
    match exit {
        Some(e) => e.to_string(),
        None => match probe_reason {
            Some(p) => p,
            None => "process not running".to_owned(),
        },
    }
}

/// What asking an instance gave.
#[derive(Debug)]
pub enum ProbeOutcome {
    InvalidAddress,
    ConnectFailed(String),
    InfoFailed(String),
    Answered,
}

/// Checks an instance by asking for its model over gRPC.
pub struct GrpcHealthChecker;

/// What is next in waiting for an instance to become ready.
#[derive(Debug)]
pub enum ReadyStep {
    /// It is ready.
    Ready,
    /// It never will be.
    Failed(String),
    /// Look again after a while.
    Wait,
}

/// A span of time in words, as the `Debug` format of a duration shows it.
pub uninterp spec fn duration_text(secs: u64, nanos: u32) -> Seq<char>;

/// `Debug` for `std::time::Duration`, through `format`: the span in the largest
/// unit that suits it, which is a function of the span alone. `Duration::new`
/// panics when the nanoseconds carry over the largest number of seconds.
#[verifier::external_body]
fn duration_string(secs: u64, nanos: u32) -> (s: String)
    requires
        nanos < 1_000_000_000,
    ensures
        s@ == duration_text(secs, nanos),
{
    format!("{:?}", std::time::Duration::new(secs, nanos))
}

/// The evidence that an instance runs on the CPU, if it matters. It is looked
/// for when an instance that is starting is first found healthy.
pub open spec fn fallback_found(
    i: TeiInstance,
    facts: ProcessFacts,
    policy: GpuFallback,
) -> Option<String> {
    if i.status != InstanceStatus::Starting || policy == GpuFallback::Off {
        None
    } else {
        facts.gpu_fallback
    }
}

/// Whether an instance fails, found healthy, because it runs on the CPU.
pub open spec fn fails_on_fallback(
    i: TeiInstance,
    facts: ProcessFacts,
    policy: GpuFallback,
) -> bool {
    policy == GpuFallback::Fail && fallback_found(i, facts, policy) is Some
}

/// An instance once it is found healthy: it is running, but for one that must
/// not run on the CPU and does. The evidence is noted as an error either way.
pub open spec fn once_ready(
    i: TeiInstance,
    facts: ProcessFacts,
    policy: GpuFallback,
) -> TeiInstance {
    match fallback_found(i, facts, policy) {
        None => TeiInstance { status: InstanceStatus::Running, ..i },
        Some(line) => if policy == GpuFallback::Fail {
            i.after_failure(line)
        } else {
            TeiInstance {
                status: InstanceStatus::Running,
                stats: InstanceStats { last_error: Some(line), ..i.stats },
                ..i
            }
        },
    }
}

/// An instance was found healthy: the evidence that it fails for, if it does.
fn make_ready(instance: &mut TeiInstance, facts: &ProcessFacts, policy: GpuFallback) -> (failure:
    Option<String>)
    ensures
        *final(instance) == once_ready(*old(instance), *facts, policy),
        failure == (if fails_on_fallback(*old(instance), *facts, policy) {
            facts.gpu_fallback
        } else {
            None
        }),
{
    if instance.status == InstanceStatus::Starting && policy != GpuFallback::Off {
        if let Some(line) = &facts.gpu_fallback {
            if policy == GpuFallback::Fail {
                instance.mark_failed(line.clone());
                return Some(line.clone());
            }
            instance.stats.last_error = Some(line.clone());
        }
    }
    instance.status = InstanceStatus::Running;
    None
}

impl GrpcHealthChecker {
    /// The address at which an instance is asked.
    pub fn address(port: u16) -> (s: String)
        ensures
            s@ == "http://localhost:"@ + decimal(port as nat),
    {
        "http://localhost:".to_owned().concat(decimal_string(port as u64).as_str())
    }

    /// What can be said without asking: an instance whose process is gone is not
    /// healthy.
    pub fn check_process(facts: &ProcessFacts) -> (r: Option<HealthCheckResult>)
        ensures
            match r {
                None => facts.running,
                Some(h) => !facts.running && !h.healthy && option_text(h.reason) == Some(
                    gone_because(facts.exit, None),
                ),
            },
    {
        if facts.running {
            None
        } else {
            Some(HealthCheckResult::unhealthy(exit_reason(&facts.exit, None)))
        }
    }

    /// What asking an instance says of its health.
    pub fn check_probe(outcome: ProbeOutcome) -> (h: HealthCheckResult)
        ensures
            h.healthy == (outcome is Answered),
            option_text(h.reason) == (match outcome {
                ProbeOutcome::InvalidAddress => Some("Invalid gRPC address"@),
                ProbeOutcome::ConnectFailed(e) => Some("gRPC connect failed: "@ + e@),
                ProbeOutcome::InfoFailed(e) => Some("Info RPC failed: "@ + e@),
                ProbeOutcome::Answered => None,
            }),
    {
        match outcome {
            ProbeOutcome::InvalidAddress => HealthCheckResult::unhealthy(
                "Invalid gRPC address".to_owned(),
            ),
            ProbeOutcome::ConnectFailed(e) => HealthCheckResult::unhealthy(
                "gRPC connect failed: ".to_owned().concat(e.as_str()),
            ),
            ProbeOutcome::InfoFailed(e) => HealthCheckResult::unhealthy(
                "Info RPC failed: ".to_owned().concat(e.as_str()),
            ),
            ProbeOutcome::Answered => HealthCheckResult::healthy(),
        }
    }

    /// Before the next look at an instance that is waited for: the message to
    /// give up with, when it has been too long.
    pub fn waited_too_long(name: &str, waited: Nanos, timeout_secs: u64, timeout_nanos: u32) -> (r:
        Option<String>)
        requires
            timeout_nanos < 1_000_000_000,
        ensures
            option_text(r) == (if waited > secs(timeout_secs as int) + timeout_nanos {
                Some(
                    "Instance '"@ + name@ + "' did not become ready within "@ + duration_text(
                        timeout_secs,
                        timeout_nanos,
                    ),
                )
            } else {
                None
            }),
    {
        if waited > timeout_secs as u128 * NANOS_PER_SEC + timeout_nanos as u128 {
            Some(
                "Instance '".to_owned().concat(name).concat("' did not become ready within ").concat(
                    duration_string(timeout_secs, timeout_nanos).as_str(),
                ),
            )
        } else {
            None
        }
    }

    /// A look at an instance that is waited for. A healthy one is running from
    /// then on, unless it turns out to run on the CPU and `policy` says that it
    /// must not; one whose process is gone will never be ready.
    pub fn wait_step(
        instance: &mut TeiInstance,
        result: HealthCheckResult,
        facts: &ProcessFacts,
        policy: GpuFallback,
    ) -> (r: ReadyStep)
        ensures
            result.healthy ==> *final(instance) == once_ready(*old(instance), *facts, policy),
            result.healthy && fails_on_fallback(*old(instance), *facts, policy) ==> (
            r matches ReadyStep::Failed(m) && facts.gpu_fallback == Some(m)),
            result.healthy && !fails_on_fallback(*old(instance), *facts, policy) ==> r is Ready,
            !result.healthy ==> *final(instance) == *old(instance),
            !result.healthy && facts.running ==> r is Wait,
            !result.healthy && !facts.running ==> (r matches ReadyStep::Failed(m) && m@
                == "Instance '"@ + old(instance).config.name@ + "' exited during startup: "@
                + gone_because(facts.exit, option_text(result.reason))),
    {
        if result.healthy {
            return match make_ready(instance, facts, policy) {
                Some(line) => ReadyStep::Failed(line),
                None => ReadyStep::Ready,
            };
        }
        if !facts.running {
            let reason = exit_reason(&facts.exit, result.reason);
            return ReadyStep::Failed(
                "Instance '".to_owned().concat(instance.config.name.as_str()).concat(
                    "' exited during startup: ",
                ).concat(reason.as_str()),
            );
        }
        ReadyStep::Wait
    }
}

/// What is to be done after a check.
#[derive(Debug)]
pub struct CheckStep {
    /// What happened, in order.
    pub events: Vec<HealthEvent>,
    /// Whether to restart the instance now.
    pub restart: bool,
}

/// Watches over instances.
#[derive(Debug, Clone)]
pub struct HealthMonitor {
    pub config: HealthMonitorConfig,
    pub tei_binary_path: String,
}

/// Whether an instance has logged something recently enough to be still loading.
pub open spec fn still_loading(facts: ProcessFacts, stall: Nanos) -> bool {
    facts.last_log_write matches Some(w) && w <= facts.now && elapsed(w, facts.now) < stall
}

/// Why an instance that is starting has failed to, if it has: its process is
/// gone, or it took too long and its log has stalled.
pub open spec fn start_fault(
    config: HealthMonitorConfig,
    instance: TeiInstance,
    reason: Seq<char>,
    facts: ProcessFacts,
) -> Option<Seq<char>> {
    let timeout = match instance.config.startup_timeout_secs {
        Some(s) => secs(s as int),
        None => config.startup_timeout as int,
    };
    if !facts.running {
        Some("exited during startup: "@ + gone_because(facts.exit, Some(reason)))
    } else {
        match instance.stats.started_at {
            None => None,
            Some(at) => if elapsed(at, facts.now) <= timeout || still_loading(
                facts,
                config.startup_log_stall,
            ) {
                None
            } else {
                Some(
                    "did not become ready within "@ + decimal(
                        (timeout / NANOS_PER_SEC as int) as nat,
                    ) + "s (last check: "@ + reason + ")"@,
                )
            },
        }
    }
}

/// An instance after a check that it passed: its failures and the restarts that
/// they led to are forgotten.
pub open spec fn after_success(
    config: HealthMonitorConfig,
    i: TeiInstance,
    facts: ProcessFacts,
) -> TeiInstance {
    let checked = TeiInstance {
        stats: InstanceStats {
            health_check_failures: 0,
            last_health_check: Some(facts.now),
            backoff_restarts: 0,
            ..i.stats
        },
        ..i
    };
    if i.status == InstanceStatus::Starting {
        once_ready(checked, facts, config.gpu_fallback)
    } else {
        checked
    }
}

/// What happens at a check that an instance passed.
pub open spec fn success_events(
    config: HealthMonitorConfig,
    i: TeiInstance,
    facts: ProcessFacts,
) -> Seq<HealthEvent> {
    let name = i.config.name;
    if i.status != InstanceStatus::Starting {
        seq![HealthEvent::CheckSucceeded { instance_name: name }]
    } else if fails_on_fallback(i, facts, config.gpu_fallback) {
        seq![
            HealthEvent::StatusTransition {
                instance_name: name,
                from: InstanceStatus::Starting,
                to: InstanceStatus::Failed,
            },
        ]
    } else {
        seq![
            HealthEvent::StatusTransition {
                instance_name: name,
                from: InstanceStatus::Starting,
                to: InstanceStatus::Running,
            },
            HealthEvent::CheckSucceeded { instance_name: name },
        ]
    }
}

/// Whether a failed check of an instance that is past starting makes it restart.
pub open spec fn restarts_at(config: HealthMonitorConfig, failures: int) -> bool {
    config.auto_restart && failures >= config.max_failures_before_restart
}

/// What happens at a check that an instance past starting failed.
pub open spec fn failure_events(
    config: HealthMonitorConfig,
    i: TeiInstance,
    reason: String,
) -> Seq<HealthEvent> {
    let failed = HealthEvent::CheckFailed {
        instance_name: i.config.name,
        consecutive_failures: (i.stats.health_check_failures + 1) as u32,
        reason,
    };
    if restarts_at(config, i.stats.health_check_failures + 1) {
        seq![
            failed,
            HealthEvent::RestartTriggered {
                instance_name: i.config.name,
                failure_count: (i.stats.health_check_failures + 1) as u32,
            },
        ]
    } else {
        seq![failed]
    }
}

/// An instance with one failed check more. Where that makes it restart, the time
/// and the number of such restarts in a row are kept, as far as they can be counted.
pub open spec fn with_failure(
    config: HealthMonitorConfig,
    i: TeiInstance,
    now: UnixNanos,
) -> TeiInstance {
    let restart = restarts_at(config, i.stats.health_check_failures + 1);
    TeiInstance {
        stats: InstanceStats {
            health_check_failures: (i.stats.health_check_failures + 1) as u32,
            last_restart_at: if restart {
                Some(now)
            } else {
                i.stats.last_restart_at
            },
            backoff_restarts: if restart && i.stats.backoff_restarts < u32::MAX {
                (i.stats.backoff_restarts + 1) as u32
            } else {
                i.stats.backoff_restarts
            },
            ..i.stats
        },
        ..i
    }
}

impl HealthMonitor {
    /// A monitor whose first check comes after one interval. What is still
    /// loading then is protected by the startup timeout.
    pub fn new(
        check_interval_secs: u64,
        startup_timeout_secs: u64,
        max_failures_before_restart: u32,
        auto_restart: bool,
        tei_binary_path: String,
    ) -> (m: Self)
        ensures
            m.config.check_interval == secs(check_interval_secs as int),
            m.config.initial_delay == secs(check_interval_secs as int),
            m.config.startup_timeout == secs(startup_timeout_secs as int),
            m.config.max_failures_before_restart == max_failures_before_restart,
            m.config.auto_restart == auto_restart,
            m.config.startup_log_stall == secs(60),
            m.config.gpu_fallback == GpuFallback::Fail,
            m.tei_binary_path == tei_binary_path,
    {
        let defaults = HealthMonitorConfig::default();
        HealthMonitor {
            config: HealthMonitorConfig {
                check_interval: check_interval_secs as u128 * NANOS_PER_SEC,
                initial_delay: check_interval_secs as u128 * NANOS_PER_SEC,
                startup_timeout: startup_timeout_secs as u128 * NANOS_PER_SEC,
                max_failures_before_restart,
                auto_restart,
                startup_log_stall: defaults.startup_log_stall,
                gpu_fallback: defaults.gpu_fallback,
            },
            tei_binary_path,
        }
    }

    /// With this window for logs.
    pub fn with_startup_log_stall(self, window: Nanos) -> (m: Self)
        ensures
            m == (HealthMonitor {
                config: HealthMonitorConfig { startup_log_stall: window, ..self.config },
                ..self
            }),
    {
        HealthMonitor {
            config: HealthMonitorConfig { startup_log_stall: window, ..self.config },
            ..self
        }
    }

    /// A check begins.
    pub fn check_started(instance: &TeiInstance) -> (e: HealthEvent)
        ensures
            e == (HealthEvent::CheckStarted { instance_name: instance.config.name }),
    {
        HealthEvent::CheckStarted { instance_name: instance.config.name.clone() }
    }

    /// An instance passed a check: its failures are forgotten, and if it was
    /// starting it is running now, unless it turns out to run on the CPU.
    pub fn handle_success(&self, instance: &mut TeiInstance, facts: &ProcessFacts) -> (events: Vec<
        HealthEvent,
    >)
        ensures
            *final(instance) == after_success(self.config, *old(instance), *facts),
            events@ == success_events(self.config, *old(instance), *facts),
    {
        let mut events: Vec<HealthEvent> = Vec::new();
        instance.stats.health_check_failures = 0;
        instance.stats.last_health_check = Some(facts.now);
        instance.stats.backoff_restarts = 0;
        if instance.status == InstanceStatus::Starting {
            if make_ready(instance, facts, self.config.gpu_fallback).is_some() {
                events.push(
                    HealthEvent::StatusTransition {
                        instance_name: instance.config.name.clone(),
                        from: InstanceStatus::Starting,
                        to: InstanceStatus::Failed,
                    },
                );
                assert(events@ =~= success_events(self.config, *old(instance), *facts));
                return events;
            }
            events.push(
                HealthEvent::StatusTransition {
                    instance_name: instance.config.name.clone(),
                    from: InstanceStatus::Starting,
                    to: InstanceStatus::Running,
                },
            );
        }
        events.push(HealthEvent::CheckSucceeded { instance_name: instance.config.name.clone() });
        assert(events@ =~= success_events(self.config, *old(instance), *facts));
        events
    }

    /// Why an instance that is starting has failed to, if it has.
    pub fn startup_failure(&self, instance: &TeiInstance, reason: &str, facts: &ProcessFacts) -> (r:
        Option<String>)
        ensures
            option_text(r) == start_fault(self.config, *instance, reason@, *facts),
            !facts.running ==> r is Some,
            facts.running && instance.stats.started_at is None ==> r is None,
    {
        if !facts.running {
            let why = exit_reason(&facts.exit, Some(reason.to_owned()));
            return Some("exited during startup: ".to_owned().concat(why.as_str()));
        }
        let timeout: u128 = instance.config.startup_timeout(self.config.startup_timeout);
        let at: i128 = match instance.stats.started_at {
            Some(at) => at,
            None => {
                return None;
            },
        };
        if elapsed_nanos(at, facts.now) <= timeout {
            return None;
        }
        if let Some(written) = facts.last_log_write {
            if written <= facts.now && elapsed_nanos(written, facts.now)
                < self.config.startup_log_stall {
                return None;
            }
        }
        Some(
            "did not become ready within ".to_owned().concat(
                wide_decimal_string(timeout / NANOS_PER_SEC).as_str(),
            ).concat("s (last check: ").concat(reason).concat(")"),
        )
    }

    /// An instance failed a check. While it is starting that is expected and not
    /// counted; only its process's end, or too long a time, makes it fail. Past
    /// that, failures are counted, and enough of them in a row make it restart.
    pub fn handle_failure(&self, instance: &mut TeiInstance, reason: String, facts: &ProcessFacts) -> (r:
        CheckStep)
        requires
            old(instance).status != InstanceStatus::Starting ==> old(
                instance,
            ).stats.health_check_failures < u32::MAX,
        ensures
            old(instance).status != InstanceStatus::Starting ==> {
                &&& *final(instance) == with_failure(self.config, *old(instance), facts.now)
                &&& r.events@ == failure_events(self.config, *old(instance), reason)
                &&& r.restart == restarts_at(
                    self.config,
                    old(instance).stats.health_check_failures + 1,
                )
            },
            old(instance).status == InstanceStatus::Starting && !facts.running ==> final(instance).status == InstanceStatus::Failed && r.events@.len() == 1,
            old(instance).status != InstanceStatus::Starting ==> final(instance).status == old(
                instance,
            ).status && final(instance).stats.health_check_failures == old(
                instance,
            ).stats.health_check_failures + 1 && (r.restart <==> self.config.auto_restart && old(
                instance,
            ).stats.health_check_failures + 1 >= self.config.max_failures_before_restart),
            old(instance).status == InstanceStatus::Starting ==> {
                &&& !r.restart
                &&& match start_fault(self.config, *old(instance), reason@, *facts) {
                    None => *final(instance) == *old(instance) && r.events@.len() == 0,
                    Some(why) => {
                        &&& exists|s: String|
                            s@ == why && *final(instance) == #[trigger] old(
                                instance,
                            ).after_failure(s)
                        &&& r.events@ == seq![
                            HealthEvent::StatusTransition {
                                instance_name: old(instance).config.name,
                                from: InstanceStatus::Starting,
                                to: InstanceStatus::Failed,
                            },
                        ]
                    },
                }
            },
    {
        let mut events: Vec<HealthEvent> = Vec::new();
        if instance.status == InstanceStatus::Starting {
            if let Some(why) = self.startup_failure(instance, reason.as_str(), facts) {
                instance.mark_failed(why);
                events.push(
                    HealthEvent::StatusTransition {
                        instance_name: instance.config.name.clone(),
                        from: InstanceStatus::Starting,
                        to: InstanceStatus::Failed,
                    },
                );
            }
            return CheckStep { events, restart: false };
        }
        let failures: u32 = instance.stats.health_check_failures + 1;
        instance.stats.health_check_failures = failures;
        events.push(
            HealthEvent::CheckFailed {
                instance_name: instance.config.name.clone(),
                consecutive_failures: failures,
                reason,
            },
        );
        let restart: bool = self.config.auto_restart && failures
            >= self.config.max_failures_before_restart;
        if restart {
            instance.stats.last_restart_at = Some(facts.now);
            if instance.stats.backoff_restarts < u32::MAX {
                instance.stats.backoff_restarts = instance.stats.backoff_restarts + 1;
            }
            events.push(
                HealthEvent::RestartTriggered {
                    instance_name: instance.config.name.clone(),
                    failure_count: failures,
                },
            );
        }
        assert(events@ =~= failure_events(self.config, *old(instance), reason));
        CheckStep { events, restart }
    }

    /// A restart that was asked for is over. One that failed makes the instance
    /// fail.
    pub fn restart_done(&self, instance: &mut TeiInstance, result: Result<(), String>) -> (e:
        HealthEvent)
        ensures
            match result {
                Ok(_) => *final(instance) == *old(instance) && e == (
                HealthEvent::RestartSucceeded { instance_name: old(instance).config.name }),
                Err(error) => {
                    &&& e == (HealthEvent::RestartFailed {
                        instance_name: old(instance).config.name,
                        error,
                    })
                    &&& exists|s: String|
                        s@ == "restart failed: "@ + error@ && *final(instance) == #[trigger] old(
                            instance,
                        ).after_failure(s)
                },
            },
    {
        match result {
            Ok(_) => HealthEvent::RestartSucceeded { instance_name: instance.config.name.clone() },
            Err(error) => {
                instance.mark_failed("restart failed: ".to_owned().concat(error.as_str()));
                HealthEvent::RestartFailed { instance_name: instance.config.name.clone(), error }
            },
        }
    }

    /// What a check that was made says of an instance, and what is to be done.
    pub fn check_single_instance(
        &self,
        instance: &mut TeiInstance,
        result: HealthCheckResult,
        facts: &ProcessFacts,
    ) -> (r: CheckStep)
        requires
            !result.healthy && old(instance).status != InstanceStatus::Starting ==> old(
                instance,
            ).stats.health_check_failures < u32::MAX,
        ensures
            !result.healthy && old(instance).status == InstanceStatus::Starting && !facts.running
                ==> final(instance).status == InstanceStatus::Failed,
            result.healthy ==> final(instance).stats.health_check_failures == 0,
            result.healthy ==> {
                &&& !r.restart
                &&& *final(instance) == after_success(self.config, *old(instance), *facts)
                &&& r.events@ == success_events(self.config, *old(instance), *facts)
            },
            !result.healthy && old(instance).status != InstanceStatus::Starting ==> {
                &&& *final(instance) == with_failure(self.config, *old(instance), facts.now)
                &&& exists|reason: String|
                    reason@ == (match result.reason {
                        Some(s) => s@,
                        None => ""@,
                    }) && r.events@ == #[trigger] failure_events(
                        self.config,
                        *old(instance),
                        reason,
                    )
                &&& r.restart == restarts_at(
                    self.config,
                    old(instance).stats.health_check_failures + 1,
                )
            },
            !result.healthy && old(instance).status == InstanceStatus::Starting ==> {
                let reason = match result.reason {
                    Some(s) => s@,
                    None => ""@,
                };
                &&& !r.restart
                &&& match start_fault(self.config, *old(instance), reason, *facts) {
                    None => *final(instance) == *old(instance) && r.events@.len() == 0,
                    Some(why) => {
                        &&& exists|s: String|
                            s@ == why && *final(instance) == #[trigger] old(
                                instance,
                            ).after_failure(s)
                        &&& r.events@ == seq![
                            HealthEvent::StatusTransition {
                                instance_name: old(instance).config.name,
                                from: InstanceStatus::Starting,
                                to: InstanceStatus::Failed,
                            },
                        ]
                    },
                }
            },
    {
        if result.healthy {
            CheckStep { events: self.handle_success(instance, facts), restart: false }
        } else {
            let reason = match result.reason {
                Some(s) => s,
                None => "".to_owned(),
            };
            let step = self.handle_failure(instance, reason, facts);
            assert(old(instance).status != InstanceStatus::Starting ==> step.events@
                == failure_events(self.config, *old(instance), reason));
            step
        }
    }
}

/// An instance after `n` failed checks in a row, at these times.
pub open spec fn after_failures(
    config: HealthMonitorConfig,
    i: TeiInstance,
    times: spec_fn(nat) -> UnixNanos,
    n: nat,
) -> TeiInstance
    decreases n,
{
    if n == 0 {
        i
    } else {
        with_failure(config, after_failures(config, i, times, (n - 1) as nat), times(n))
    }
}

/// Failures in a row are counted one by one, starting from a check that was
/// passed, and the restart comes with the last of as many as are allowed, not
/// before. Restarts since that check are counted too, and the time of the last one
/// is kept.
pub proof fn law_restart_comes_after_so_many_failures(
    config: HealthMonitorConfig,
    i: TeiInstance,
    facts: ProcessFacts,
    times: spec_fn(nat) -> UnixNanos,
    n: nat,
)
    requires
        i.status == InstanceStatus::Running,
        n < u32::MAX,
        config.auto_restart,
        config.max_failures_before_restart > 0,
    ensures
        ({
            let s = after_success(config, i, facts);
            let f = after_failures(config, s, times, n);
            &&& s.stats.health_check_failures == 0
            &&& s.stats.backoff_restarts == 0
            &&& f.stats.health_check_failures == n
            &&& f.status == InstanceStatus::Running
            &&& restarts_at(config, f.stats.health_check_failures + 1) <==> n + 1
                >= config.max_failures_before_restart
            &&& f.stats.backoff_restarts == (if n < config.max_failures_before_restart {
                0
            } else {
                n - config.max_failures_before_restart + 1
            })
            &&& f.stats.last_restart_at == (if n < config.max_failures_before_restart {
                i.stats.last_restart_at
            } else {
                Some(times(n))
            })
        }),
    decreases n,
{
    if n > 0 {
        law_restart_comes_after_so_many_failures(config, i, facts, times, (n - 1) as nat);
    }
}

/// Without automatic restarts no number of failures restarts an instance.
pub proof fn law_no_restart_when_disabled(config: HealthMonitorConfig, failures: int)
    requires
        !config.auto_restart,
    ensures
        !restarts_at(config, failures),
{
}

/// What the first healthy look at a starting instance makes of evidence that it
/// runs on the CPU, whoever looks: it fails with the evidence as the reason, or
/// it runs with the evidence as its last error, or the evidence does not matter.
pub proof fn law_running_on_the_cpu(
    config: HealthMonitorConfig,
    i: TeiInstance,
    facts: ProcessFacts,
    line: String,
)
    requires
        i.status == InstanceStatus::Starting,
        facts.gpu_fallback == Some(line),
    ensures
        ({
            let waited = once_ready(i, facts, config.gpu_fallback);
            let watched = after_success(config, i, facts);
            &&& waited.status == watched.status
            &&& waited.stats.last_error == watched.stats.last_error
            &&& match config.gpu_fallback {
                GpuFallback::Fail => watched.status == InstanceStatus::Failed
                    && watched.stats.last_error == Some(line),
                GpuFallback::Warn => watched.status == InstanceStatus::Running
                    && watched.stats.last_error == Some(line),
                GpuFallback::Off => watched.status == InstanceStatus::Running
                    && watched.stats.last_error == i.stats.last_error,
            }
        }),
{
}

/// An instance that is starting and whose process lives does not fail within its
/// startup timeout, nor after it while its log is being written.
pub proof fn law_starting_is_protected(
    config: HealthMonitorConfig,
    i: TeiInstance,
    reason: Seq<char>,
    facts: ProcessFacts,
)
    requires
        facts.running,
        i.stats.started_at matches Some(at) ==> (elapsed(at, facts.now) <= (
        match i.config.startup_timeout_secs {
            Some(s) => secs(s as int),
            None => config.startup_timeout as int,
        }) || still_loading(facts, config.startup_log_stall)),
    ensures
        start_fault(config, i, reason, facts) is None,
{
}

/// An instance that is starting fails at a check that it does not pass exactly when
/// its process is gone, however that ended, or when more than its startup timeout
/// has passed since it was started and its log has been silent for the stall
/// window. A log that was written in the future says nothing.
pub proof fn law_starts_fail_when_gone_or_stalled(
    config: HealthMonitorConfig,
    i: TeiInstance,
    reason: Seq<char>,
    facts: ProcessFacts,
)
    ensures
        !facts.running ==> start_fault(config, i, reason, facts) is Some,
        facts.running ==> (start_fault(config, i, reason, facts) is Some <==> {
            &&& i.stats.started_at matches Some(at) && facts.now > at && facts.now - at > (
            match i.config.startup_timeout_secs {
                Some(s) => s * 1_000_000_000,
                None => config.startup_timeout as int,
            })
            &&& facts.last_log_write matches Some(w) ==> w > facts.now || facts.now - w
                >= config.startup_log_stall
        }),
{
}

/// What is said of a start that failed: how the process ended, or what the check
/// said where that is not known; or the timeout and what the check said.
pub proof fn law_failed_starts_say_why(
    config: HealthMonitorConfig,
    i: TeiInstance,
    reason: Seq<char>,
    facts: ProcessFacts,
)
    ensures
        start_fault(config, i, reason, facts) matches Some(why) ==> why == (if facts.running {
            "did not become ready within "@ + decimal(
                (match i.config.startup_timeout_secs {
                    Some(s) => s as nat,
                    None => (config.startup_timeout as int / 1_000_000_000) as nat,
                }),
            ) + "s (last check: "@ + reason + ")"@
        } else {
            "exited during startup: "@ + (match facts.exit {
                Some(e) => e.text(),
                None => reason,
            })
        }),
{
    if let Some(s) = i.config.startup_timeout_secs {
        assert((s * 1_000_000_000) / 1_000_000_000 == s);
    }
}

/// A check that an instance passed clears its failures and its automatic restarts
/// and is noted; an instance that was starting runs from then on, unless it is
/// found on the CPU and must not be, and any other keeps its state. Its settings,
/// its process and what was counted of it stay.
pub proof fn law_passed_checks_clear_failures(
    config: HealthMonitorConfig,
    i: TeiInstance,
    facts: ProcessFacts,
)
    ensures
        ({
            let t = after_success(config, i, facts);
            &&& t.stats.health_check_failures == 0
            &&& t.stats.backoff_restarts == 0
            &&& t.stats.last_health_check == Some(facts.now)
            &&& t.config == i.config && t.process == i.process
            &&& t.stats.started_at == i.stats.started_at && t.stats.restarts == i.stats.restarts
            &&& t.stats.last_restart_at == i.stats.last_restart_at
            &&& i.status != InstanceStatus::Starting ==> t.status == i.status && t.stats.last_error
                == i.stats.last_error
            &&& i.status == InstanceStatus::Starting && facts.gpu_fallback is None ==> t.status
                == InstanceStatus::Running && t.stats.last_error == i.stats.last_error
            &&& i.status == InstanceStatus::Starting ==> (t.status == InstanceStatus::Failed <==>
                facts.gpu_fallback is Some && config.gpu_fallback == GpuFallback::Fail)
            &&& t.status == InstanceStatus::Failed && i.status == InstanceStatus::Starting
                ==> t.stats.last_error == facts.gpu_fallback
        }),
{
}

/// A check that an instance past starting failed counts one failure more and
/// changes nothing else, but for the bookkeeping of a restart, where there is one.
pub proof fn law_failed_checks_only_count(
    config: HealthMonitorConfig,
    i: TeiInstance,
    now: UnixNanos,
)
    requires
        i.stats.health_check_failures < u32::MAX,
    ensures
        ({
            let t = with_failure(config, i, now);
            let n = i.stats.health_check_failures + 1;
            let restart = config.auto_restart && n >= config.max_failures_before_restart;
            &&& t.stats.health_check_failures == n
            &&& t.status == i.status && t.config == i.config && t.process == i.process
            &&& t.stats.started_at == i.stats.started_at && t.stats.restarts == i.stats.restarts
            &&& t.stats.last_error == i.stats.last_error
            &&& t.stats.last_health_check == i.stats.last_health_check
            &&& t.stats.last_restart_at == (if restart {
                Some(now)
            } else {
                i.stats.last_restart_at
            })
            &&& !restart ==> t.stats.backoff_restarts == i.stats.backoff_restarts
            &&& restart && i.stats.backoff_restarts < u32::MAX ==> t.stats.backoff_restarts
                == i.stats.backoff_restarts + 1
            &&& restarts_at(config, n) == restart
        }),
{
}

/// What happens at a check tells what became of the instance: a change of state is
/// told exactly when there is one, with both states; a pass or a failure is told
/// once and last but for a restart; and a restart is told exactly when there is
/// one, with the count.
pub proof fn law_events_tell_what_became_of_the_instance(
    config: HealthMonitorConfig,
    i: TeiInstance,
    facts: ProcessFacts,
    reason: String,
)
    requires
        i.stats.health_check_failures < u32::MAX,
    ensures
        ({
            let passed = success_events(config, i, facts);
            let after = after_success(config, i, facts);
            let name = i.config.name;
            &&& (passed[0] is StatusTransition) <==> after.status != i.status
            &&& after.status != i.status ==> passed[0] == (HealthEvent::StatusTransition {
                instance_name: name,
                from: i.status,
                to: after.status,
            })
            &&& after.status != InstanceStatus::Failed || i.status != InstanceStatus::Starting
                ==> passed.last() == (HealthEvent::CheckSucceeded { instance_name: name })
            &&& passed.len() == (if after.status == i.status || after.status
                == InstanceStatus::Failed {
                1int
            } else {
                2int
            })
        }),
        ({
            let failed = failure_events(config, i, reason);
            let n = i.stats.health_check_failures + 1;
            let restart = config.auto_restart && n >= config.max_failures_before_restart;
            &&& failed[0] == (HealthEvent::CheckFailed {
                instance_name: i.config.name,
                consecutive_failures: n as u32,
                reason,
            })
            &&& failed.len() == (if restart {
                2int
            } else {
                1int
            })
            &&& restart ==> failed[1] == (HealthEvent::RestartTriggered {
                instance_name: i.config.name,
                failure_count: n as u32,
            })
        }),
{
}

/// The span from one time to another adds up over a time between them, and is
/// nothing backwards.
pub proof fn law_spans_of_time_add_up(a: UnixNanos, b: UnixNanos, c: UnixNanos)
    ensures
        a <= b ==> a + elapsed(a, b) == b,
        b <= a ==> elapsed(a, b) == 0,
        a <= b <= c ==> elapsed(a, b) + elapsed(b, c) == elapsed(a, c),
        secs(1) == 1_000_000_000,
{
}

/// Whoever waits for an instance and finds it healthy has it running, whatever it
/// was before, but for one that was starting, is on the CPU and must not be.
pub proof fn law_healthy_instances_run(i: TeiInstance, facts: ProcessFacts, policy: GpuFallback)
    ensures
        ({
            let t = once_ready(i, facts, policy);
            let fails = i.status == InstanceStatus::Starting && policy == GpuFallback::Fail
                && facts.gpu_fallback is Some;
            &&& fails_on_fallback(i, facts, policy) == fails
            &&& t.status == (if fails {
                InstanceStatus::Failed
            } else {
                InstanceStatus::Running
            })
            &&& t.stats.last_error == (if i.status == InstanceStatus::Starting && policy
                != GpuFallback::Off && facts.gpu_fallback is Some {
                facts.gpu_fallback
            } else {
                i.stats.last_error
            })
            &&& t.config == i.config && t.process == i.process
            &&& t.stats == (InstanceStats { last_error: t.stats.last_error, ..i.stats })
        }),
{
}

} // verus!
