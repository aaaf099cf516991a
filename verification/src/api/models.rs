//! Requests and responses of the HTTP API.

use vstd::prelude::*;

use crate::config::UnixNanos;
use crate::health::{elapsed, elapsed_nanos};
use crate::instance::{InstanceStatus, TeiInstance};

verus! {

/// That the manager is up.
#[derive(Debug)]
pub struct HealthResponse {
    pub status: String,
    pub timestamp: UnixNanos,
}

/// A new instance, as it is asked for.
#[derive(Debug, Clone)]
pub struct CreateInstanceRequest {
    pub name: String,
    pub model_id: String,
    /// Any free one of the manager's range when unset.
    pub port: Option<u16>,
    pub max_batch_tokens: Option<u32>,
    pub max_concurrent_requests: Option<u32>,
    pub pooling: Option<String>,
    /// Any GPU when unset.
    pub gpu_id: Option<u32>,
    pub prometheus_port: Option<u16>,
    /// The manager's own setting when unset.
    pub startup_timeout_secs: Option<u64>,
    pub extra_args: Option<Vec<String>>,
}

/// An instance, as it is shown.
#[derive(Debug)]
pub struct InstanceInfo {
    pub name: String,
    pub model_id: String,
    pub port: u16,
    pub status: InstanceStatus,
    pub pid: Option<u32>,
    pub created_at: Option<UnixNanos>,
    pub uptime_secs: Option<u64>,
    pub restarts: u32,
    pub health_check_failures: u32,
    pub last_health_check: Option<UnixNanos>,
    pub gpu_id: Option<u32>,
    pub prometheus_port: Option<u16>,
}

/// A part of a log: the lines from `start` up to `end` of `total_lines`.
#[derive(Debug)]
pub struct LogsResponse {
    pub lines: Vec<String>,
    pub start: usize,
    pub end: usize,
    pub total_lines: usize,
}

/// Whether a calendar can tell the time `t`.
pub open spec fn on_calendar(t: UnixNanos) -> bool {
    -4_000_000_000_000_000_000_000_000_000 <= t <= 4_000_000_000_000_000_000_000_000_000
}

/// Whether a calendar can tell when an instance was started, if it was.
pub open spec fn started_on_calendar(instance: TeiInstance) -> bool {
    match instance.stats.started_at {
        Some(t) => on_calendar(t),
        None => true,
    }
}

/// Whole seconds from `from` to `to`, as 64 bits without a sign hold them: a
/// negative number wraps around.
pub open spec fn seconds_between(from: UnixNanos, to: UnixNanos) -> int {
    if to >= from || (elapsed(to, from) / 1_000_000_000) == 0 {
        elapsed(from, to) / 1_000_000_000
    } else {
        0x1_0000_0000_0000_0000 - elapsed(to, from) / 1_000_000_000
    }
}

fn uptime(from: UnixNanos, to: UnixNanos) -> (n: u64)
    requires
        on_calendar(from),
        on_calendar(to),
    ensures
        n == seconds_between(from, to),
{
    if to >= from {
        (elapsed_nanos(from, to) / 1_000_000_000) as u64
    } else {
        let back: u64 = (elapsed_nanos(to, from) / 1_000_000_000) as u64;
        0u64.wrapping_sub(back)
    }
}

impl InstanceInfo {
    /// Whether this is what is shown at `now` of an instance whose process has the
    /// number `pid`.
    pub open spec fn shows(self, instance: TeiInstance, pid: Option<u32>, now: UnixNanos) -> bool {
        &&& self.name@ == instance.config.name@
        &&& self.model_id@ == instance.config.model_id@
        &&& self.port == instance.config.port
        &&& self.status == instance.status
        &&& self.pid == pid
        &&& self.created_at == instance.config.created_at
        &&& match instance.stats.started_at {
            Some(t) => self.uptime_secs matches Some(n) && n == seconds_between(t, now),
            None => self.uptime_secs is None,
        }
        &&& self.restarts == instance.stats.restarts
        &&& self.health_check_failures == instance.stats.health_check_failures
        &&& self.last_health_check == instance.stats.last_health_check
        &&& self.gpu_id == instance.config.gpu_id
        &&& self.prometheus_port == instance.config.prometheus_port
    }

    /// An instance whose process has the number `pid`, as it is shown at `now`.
    pub fn from_instance(instance: &TeiInstance, pid: Option<u32>, now: UnixNanos) -> (info: Self)
        requires
            on_calendar(now),
            started_on_calendar(*instance),
        ensures
            info.shows(*instance, pid, now),
            info.name@ == instance.config.name@ && info.model_id@ == instance.config.model_id@,
            info.port == instance.config.port && info.status == instance.status && info.pid == pid,
            info.created_at == instance.config.created_at && info.gpu_id == instance.config.gpu_id,
            info.prometheus_port == instance.config.prometheus_port,
            info.restarts == instance.stats.restarts,
            info.health_check_failures == instance.stats.health_check_failures,
            info.last_health_check == instance.stats.last_health_check,
            info.uptime_secs is Some <==> instance.stats.started_at is Some,
            instance.stats.started_at matches Some(t) ==> t <= now ==> (info.uptime_secs matches Some(
                n,
            ) && n * 1_000_000_000 <= now - t < (n + 1) * 1_000_000_000),
    {
        InstanceInfo {
            name: instance.config.name.clone(),
            model_id: instance.config.model_id.clone(),
            port: instance.config.port,
            status: instance.status,
            pid,
            created_at: instance.config.created_at,
            uptime_secs: match instance.stats.started_at {
                Some(t) => Some(uptime(t, now)),
                None => None,
            },
            restarts: instance.stats.restarts,
            health_check_failures: instance.stats.health_check_failures,
            last_health_check: instance.stats.last_health_check,
            gpu_id: instance.config.gpu_id,
            prometheus_port: instance.config.prometheus_port,
        }
    }
}

/// Whole seconds between two times are the most that fit between them.
pub proof fn law_whole_seconds_fit(from: UnixNanos, to: UnixNanos)
    requires
        from <= to,
    ensures
        seconds_between(from, to) * 1_000_000_000 <= to - from < (seconds_between(from, to) + 1)
            * 1_000_000_000,
{
}

} // verus!
