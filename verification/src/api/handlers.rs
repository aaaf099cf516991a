//! What each call of the HTTP API decides.

use vstd::prelude::*;

use super::models::{
    on_calendar, started_on_calendar, CreateInstanceRequest, HealthResponse, InstanceInfo,
    LogsResponse,
};
use crate::config::{has_separator, InstanceConfig, UnixNanos, MIN_PORT};
use crate::error::{StatusCode, TeiError};
use crate::gpu::GpuInfo;
use crate::instance::{fallback_log_dir, log_dir, log_file_name, InstanceStatus, TeiInstance};
use crate::text::{
    decimal, decimal_string, lines, lines_of, number_list, number_list_string, pieces_view,
    text_eq, text_of, texts,
};

verus! {

/// Seconds that a new instance may take until it is ready.
pub const READY_TIMEOUT_SECS: u64 = 300;

/// Milliseconds between two looks at whether an instance is ready.
pub const READY_POLL_MILLIS: u64 = 500;

/// `GET /health`: the manager is up.
pub fn health(now: UnixNanos) -> (r: HealthResponse)
    ensures
        r.status@ == "healthy"@,
        r.timestamp == now,
{
    HealthResponse { status: "healthy".to_owned(), timestamp: now }
}

/// What was found under a name, or that there is no such instance.
pub fn found<T>(name: &str, instance: Option<T>) -> (r: Result<T, TeiError>)
    ensures
        match instance {
            Some(i) => r == Ok::<T, TeiError>(i),
            None => r matches Err(TeiError::InstanceNotFound { name: n }) && n@ == name@,
        },
{
    match instance {
        Some(i) => Ok(i),
        None => Err(TeiError::InstanceNotFound { name: name.to_owned() }),
    }
}

/// `GET /instances/{name}`: the instance of this name, as it is shown.
pub fn get_instance(
    name: &str,
    instance: Option<&TeiInstance>,
    pid: Option<u32>,
    now: UnixNanos,
) -> (r: Result<InstanceInfo, TeiError>)
    requires
        on_calendar(now),
        instance matches Some(i) ==> started_on_calendar(*i),
    ensures
        match instance {
            Some(i) => r matches Ok(info) && info.shows(*i, pid, now),
            None => r matches Err(TeiError::InstanceNotFound { name: n }) && n@ == name@,
        },
{
    match found(name, instance) {
        Ok(i) => Ok(InstanceInfo::from_instance(i, pid, now)),
        Err(e) => Err(e),
    }
}

/// `GET /instances`: all instances, each with the number of its process, as they
/// are shown.
pub fn list_instances(instances: &Vec<(TeiInstance, Option<u32>)>, now: UnixNanos) -> (r: Vec<
    InstanceInfo,
>)
    requires
        on_calendar(now),
        forall|i: int|
            0 <= i < instances@.len() ==> started_on_calendar((#[trigger] instances@[i]).0),
    ensures
        r@.len() == instances@.len(),
        forall|i: int|
            0 <= i < instances@.len() ==> (#[trigger] r@[i]).shows(
                instances@[i].0,
                instances@[i].1,
                now,
            ),
{
    let mut shown: Vec<InstanceInfo> = Vec::new();
    let mut i: usize = 0;
    while i < instances.len()
        invariant
            i <= instances@.len(),
            on_calendar(now),
            forall|i: int|
                0 <= i < instances@.len() ==> started_on_calendar((#[trigger] instances@[i]).0),
            shown@.len() == i,
            forall|k: int|
                0 <= k < i ==> (#[trigger] shown@[k]).shows(
                    instances@[k].0,
                    instances@[k].1,
                    now,
                ),
        decreases instances@.len() - i,
    {
        shown.push(InstanceInfo::from_instance(&instances[i].0, instances[i].1, now));
        i = i + 1;
    }
    shown
}

/// The instances without those of this name.
pub open spec fn without(registry: Seq<InstanceConfig>, name: Seq<char>) -> Seq<InstanceConfig> {
    registry.filter(|c: InstanceConfig| c.name@ != name)
}

/// Nothing of that name is left.
proof fn lemma_without(registry: Seq<InstanceConfig>, name: Seq<char>)
    ensures
        !name_taken(without(registry, name), name),
        !name_taken(registry, name) ==> without(registry, name) == registry,
    decreases registry.len(),
{
    reveal(Seq::filter);
    if registry.len() > 0 {
        let init = registry.drop_last();
        lemma_without(init, name);
        let kept = without(init, name);
        let last = registry.last();
        let now = without(registry, name);
        assert forall|i: int| 0 <= i < now.len() implies (#[trigger] now[i]).name@ != name by {
            if i < kept.len() {
                assert(now[i] == kept[i]);
            }
        }
        if !name_taken(registry, name) {
            assert forall|i: int| 0 <= i < init.len() implies (#[trigger] init[i]).name@ != name by {
                assert(registry[i].name@ != name);
            }
            assert(registry[registry.len() - 1].name@ != name);
            assert(now =~= registry);
        }
    }
}

/// Deleting takes every instance of the name and no other: the others stay, as
/// often as they were there.
pub proof fn law_deleting_keeps_the_others(registry: Seq<InstanceConfig>, name: Seq<char>)
    ensures
        forall|i: int|
            0 <= i < registry.len() && (#[trigger] registry[i]).name@ != name ==> without(
                registry,
                name,
            ).contains(registry[i]),
        forall|i: int|
            0 <= i < without(registry, name).len() ==> (#[trigger] without(
                registry,
                name,
            )[i]).name@ != name && registry.contains(without(registry, name)[i]),
        forall|x: InstanceConfig|
            x.name@ != name ==> #[trigger] without(registry, name).to_multiset().count(x)
                == registry.to_multiset().count(x),
    decreases registry.len(),
{
    reveal(Seq::filter);
    broadcast use vstd::seq_lib::group_to_multiset_ensures;

    let now = without(registry, name);
    if registry.len() > 0 {
        let init = registry.drop_last();
        let last = registry.last();
        law_deleting_keeps_the_others(init, name);
        let kept = without(init, name);
        assert(registry =~= init.push(last));
        if last.name@ != name {
            assert(now =~= kept.push(last));
        } else {
            assert(now =~= kept);
        }
        assert forall|i: int| 0 <= i < registry.len() && (#[trigger] registry[i]).name@
            != name implies now.contains(registry[i]) by {
            if i < init.len() {
                assert(init[i] == registry[i]);
                let k = choose|k: int| 0 <= k < kept.len() && kept[k] == init[i];
                assert(now[k] == registry[i]);
            } else {
                assert(now[kept.len() as int] == last);
            }
        }
        assert forall|i: int| 0 <= i < now.len() implies (#[trigger] now[i]).name@ != name
            && registry.contains(now[i]) by {
            if i < kept.len() {
                assert(now[i] == kept[i]);
                let k = choose|k: int| 0 <= k < init.len() && init[k] == kept[i];
                assert(registry[k] == now[i]);
            } else {
                assert(registry[init.len() as int] == now[i]);
            }
        }
    }
}

/// `DELETE /instances/{name}`: the instance leaves the registry. Where there is
/// none of that name, the registry stays as it is.
pub fn delete_instance(name: &str, registry: &mut Vec<InstanceConfig>) -> (r: Result<
    StatusCode,
    TeiError,
>)
    ensures
        final(registry)@ == without(old(registry)@, name@),
        !name_taken(final(registry)@, name@),
        if name_taken(old(registry)@, name@) {
            r == Ok::<StatusCode, TeiError>(StatusCode::Success)
        } else {
            final(registry)@ == old(registry)@ && (r matches Err(
                TeiError::InstanceNotFound { name: n },
            ) && n@ == name@)
        },
        r is Ok <==> exists|i: int|
            0 <= i < old(registry)@.len() && (#[trigger] old(registry)@[i]).name@ == name@,
        forall|i: int|
            0 <= i < old(registry)@.len() && (#[trigger] old(registry)@[i]).name@ != name@ ==> final(registry)@.contains(old(registry)@[i]),
{
    let ghost before = registry@;
    proof {
        lemma_without(before, name@);
        law_deleting_keeps_the_others(before, name@);
    }
    if !name_in_use(registry, name) {
        return Err(TeiError::InstanceNotFound { name: name.to_owned() });
    }
    let mut i: usize = 0;
    let ghost mut seen: int = 0;
    proof {
        reveal(Seq::filter);
        assert(without(before.take(0), name@) =~= Seq::empty());
        assert(registry@ =~= before.skip(0));
    }
    while i < registry.len()
        invariant
            0 <= seen <= before.len(),
            i == without(before.take(seen), name@).len(),
            registry@ == without(before.take(seen), name@) + before.skip(seen),
        decreases registry@.len() - i,
    {
        assert(seen < before.len());
        assert(before.take(seen + 1).drop_last() =~= before.take(seen));
        assert(registry@[i as int] == before[seen]);
        let ghost kept = without(before.take(seen), name@);
        proof {
            reveal(Seq::filter);
        }
        if text_eq(registry[i].name.as_str(), name) {
            registry.remove(i);
            assert(registry@ =~= kept + before.skip(seen + 1));
        } else {
            i = i + 1;
            assert(registry@ =~= kept.push(before[seen]) + before.skip(seen + 1));
        }
        proof {
            seen = seen + 1;
        }
    }
    assert(before.take(seen) =~= before && before.skip(seen) =~= Seq::empty());
    Ok(StatusCode::Success)
}

/// Whether an instance runs or is about to.
pub open spec fn is_up(status: InstanceStatus) -> bool {
    status == InstanceStatus::Starting || status == InstanceStatus::Running
}

/// `POST /instances/{name}/start`: whether the instance may be started. One that
/// runs already, or is about to, may not.
pub fn start_instance(name: &str, instance: Option<&TeiInstance>) -> (r: Result<(), TeiError>)
    ensures
        match instance {
            None => r matches Err(TeiError::InstanceNotFound { name: n }) && n@ == name@,
            Some(i) => if is_up(i.status) {
                r matches Err(TeiError::AlreadyRunning { name: n }) && n@ == name@
            } else {
                r is Ok
            },
        },
        instance matches Some(i) ==> (r is Ok <==> i.status == InstanceStatus::Stopping || i.status
            == InstanceStatus::Stopped || i.status == InstanceStatus::Failed),
{
    match found(name, instance) {
        Ok(i) => {
            if i.status == InstanceStatus::Starting || i.status == InstanceStatus::Running {
                Err(TeiError::AlreadyRunning { name: name.to_owned() })
            } else {
                Ok(())
            }
        },
        Err(e) => Err(e),
    }
}

/// `POST /instances/{name}/stop`: whether the instance may be stopped. One that
/// is stopped already may not.
pub fn stop_instance(name: &str, instance: Option<&TeiInstance>) -> (r: Result<(), TeiError>)
    ensures
        match instance {
            None => r matches Err(TeiError::InstanceNotFound { name: n }) && n@ == name@,
            Some(i) => if i.status == InstanceStatus::Stopped {
                r matches Err(TeiError::NotRunning { name: n }) && n@ == name@
            } else {
                r is Ok
            },
        },
{
    match found(name, instance) {
        Ok(i) => {
            if i.status == InstanceStatus::Stopped {
                Err(TeiError::NotRunning { name: name.to_owned() })
            } else {
                Ok(())
            }
        },
        Err(e) => Err(e),
    }
}

/// `POST /instances/{name}/restart`: whether the instance may be restarted, which
/// any may.
pub fn restart_instance(name: &str, instance: Option<&TeiInstance>) -> (r: Result<(), TeiError>)
    ensures
        match instance {
            None => r matches Err(TeiError::InstanceNotFound { name: n }) && n@ == name@,
            Some(_) => r is Ok,
        },
{
    match found(name, instance) {
        Ok(_) => Ok(()),
        Err(e) => Err(e),
    }
}

/// The error when starting, stopping or restarting a process failed.
pub fn process_failed(reason: String) -> (e: TeiError)
    ensures
        e == (TeiError::Internal { message: reason }),
{
    TeiError::Internal { message: reason }
}

/// GPU numbers as the refusal of another one lists them.
pub open spec fn gpu_list(indices: Seq<u32>) -> Seq<char> {
    "Available GPUs: "@ + number_list(indices.map_values(|i: u32| i as nat))
}

fn gpu_list_string(indices: &Vec<u32>) -> (s: String)
    ensures
        s@ == gpu_list(indices@),
{
    let mut numbers: Vec<u64> = Vec::new();
    let mut i: usize = 0;
    while i < indices.len()
        invariant
            i <= indices@.len(),
            numbers@.len() == i,
            forall|k: int| 0 <= k < i ==> #[trigger] numbers@[k] == indices@[k],
        decreases indices@.len() - i,
    {
        numbers.push(indices[i] as u64);
        i = i + 1;
    }
    assert(numbers@.map_values(|n: u64| n as nat) =~= indices@.map_values(|i: u32| i as nat));
    "Available GPUs: ".to_owned().concat(number_list_string(&numbers).as_str())
}

/// Tokens of a batch where neither a request nor the free memory says how many.
pub const DEFAULT_BATCH_TOKENS: u32 = 16384;

/// How many tokens a batch may have where that is left open: so many for each GiB
/// of memory that is free, at least one, and the usual number when it is not known
/// how much is free.
pub open spec fn derived_tokens(free_mib: Option<u64>, tokens_per_gib: u32) -> int {
    match free_mib {
        None => DEFAULT_BATCH_TOKENS as int,
        Some(mib) => {
            let n = mib * tokens_per_gib / 1024;
            if n < 1 {
                1
            } else if n > u32::MAX {
                u32::MAX as int
            } else {
                n
            }
        },
    }
}

/// How many tokens a batch may have where that is left open.
pub fn auto_max_batch_tokens(free_mib: Option<u64>, tokens_per_gib: u32) -> (n: u32)
    ensures
        n == derived_tokens(free_mib, tokens_per_gib),
        free_mib is None ==> n == 16384,
        n >= 1,
{
    match free_mib {
        None => DEFAULT_BATCH_TOKENS,
        Some(mib) => {
            assert(0 <= mib * tokens_per_gib <= u64::MAX * u32::MAX) by (nonlinear_arith)
                requires
                    0 <= mib <= u64::MAX,
                    0 <= tokens_per_gib <= u32::MAX,
            ;
            let n: u128 = mib as u128 * tokens_per_gib as u128 / 1024;
            if n < 1 {
                1
            } else if n > 4294967295 {
                4294967295
            } else {
                n as u32
            }
        },
    }
}

/// Settle how many tokens a batch of an instance may have: 0 leaves it open.
pub fn settle_batch_tokens(
    config: InstanceConfig,
    free_mib: Option<u64>,
    tokens_per_gib: u32,
) -> (r: InstanceConfig)
    ensures
        r.max_batch_tokens == (if config.max_batch_tokens == 0 {
            derived_tokens(free_mib, tokens_per_gib)
        } else {
            config.max_batch_tokens as int
        }),
        r == (InstanceConfig { max_batch_tokens: r.max_batch_tokens, ..config }),
{
    if config.max_batch_tokens == 0 {
        InstanceConfig {
            max_batch_tokens: auto_max_batch_tokens(free_mib, tokens_per_gib),
            ..config
        }
    } else {
        config
    }
}

/// Whether the settings are those that a request asks for; port 0 stands for any
/// free one, and 0 tokens for as many as the free memory allows.
pub open spec fn asked_for(
    config: InstanceConfig,
    req: CreateInstanceRequest,
    free_mib: Option<u64>,
    tokens_per_gib: u32,
    now: UnixNanos,
) -> bool {
    &&& config.name == req.name
    &&& config.model_id == req.model_id
    &&& config.port == (match req.port {
        Some(p) => p,
        None => 0,
    })
    &&& config.max_batch_tokens == (match req.max_batch_tokens {
        Some(0) => derived_tokens(free_mib, tokens_per_gib),
        Some(n) => n as int,
        None => DEFAULT_BATCH_TOKENS as int,
    })
    &&& config.max_concurrent_requests == (match req.max_concurrent_requests {
        Some(n) => n,
        None => 512,
    })
    &&& config.pooling == req.pooling
    &&& config.gpu_id == req.gpu_id
    &&& config.prometheus_port == req.prometheus_port
    &&& config.startup_timeout_secs == req.startup_timeout_secs
    &&& config.extra_args@ == (match req.extra_args {
        Some(args) => args@,
        None => Seq::empty(),
    })
    &&& config.created_at == Some(now)
}

/// `POST /instances`: the settings of a new instance, unless it asks for a GPU
/// that is not there. `free_mib` is the free memory of the GPUs that it would use.
pub fn create_instance(
    req: CreateInstanceRequest,
    gpus: &GpuInfo,
    free_mib: Option<u64>,
    tokens_per_gib: u32,
    now: UnixNanos,
) -> (r: Result<InstanceConfig, TeiError>)
    ensures
        match req.gpu_id {
            Some(id) => if id < gpus.indices@.len() {
                r matches Ok(config) && asked_for(config, req, free_mib, tokens_per_gib, now)
            } else {
                r matches Err(TeiError::InvalidGpuId { id: i, reason }) && i == id && reason@
                    == gpu_list(gpus.indices@)
            },
            None => r matches Ok(config) && asked_for(config, req, free_mib, tokens_per_gib, now),
        },
{
    if let Some(id) = req.gpu_id {
        if !gpus.is_valid_gpu_id(id) {
            return Err(TeiError::InvalidGpuId { id, reason: gpu_list_string(&gpus.indices) });
        }
    }
    Ok(
        InstanceConfig {
            name: req.name,
            model_id: req.model_id,
            port: match req.port {
                Some(p) => p,
                None => 0,
            },
            max_batch_tokens: match req.max_batch_tokens {
                Some(0) => auto_max_batch_tokens(free_mib, tokens_per_gib),
                Some(n) => n,
                None => DEFAULT_BATCH_TOKENS,
            },
            max_concurrent_requests: match req.max_concurrent_requests {
                Some(n) => n,
                None => 512,
            },
            pooling: req.pooling,
            gpu_id: req.gpu_id,
            prometheus_port: req.prometheus_port,
            startup_timeout_secs: req.startup_timeout_secs,
            extra_args: match req.extra_args {
                Some(args) => args,
                None => Vec::new(),
            },
            created_at: Some(now),
        },
    )
}

/// Which instances there may be.
#[derive(Debug, Clone)]
pub struct Limits {
    /// How many; no limit when unset.
    pub max_instances: Option<usize>,
    /// The range `[port_start, port_end)` that ports are taken from.
    pub port_start: u16,
    pub port_end: u16,
}

/// Whether one of the instances has this name.
pub open spec fn name_taken(existing: Seq<InstanceConfig>, name: Seq<char>) -> bool {
    exists|i: int| 0 <= i < existing.len() && (#[trigger] existing[i]).name@ == name
}

/// Whether one of the instances uses this port.
pub open spec fn port_taken(existing: Seq<InstanceConfig>, port: u16) -> bool {
    exists|i: int| 0 <= i < existing.len() && (#[trigger] existing[i]).port == port
}

/// Whether a port can be given to a new instance: no instance uses it, nor
/// anyone else.
pub open spec fn port_free(existing: Seq<InstanceConfig>, busy: Seq<u16>, port: u16) -> bool {
    !port_taken(existing, port) && !busy.contains(port)
}

/// The first of the instances that uses this port.
fn port_user(existing: &Vec<InstanceConfig>, port: u16) -> (r: Option<usize>)
    ensures
        match r {
            Some(i) => i < existing@.len() && existing@[i as int].port == port && forall|k: int|
                0 <= k < i ==> (#[trigger] existing@[k]).port != port,
            None => !port_taken(existing@, port),
        },
{
    let mut i: usize = 0;
    while i < existing.len()
        invariant
            i <= existing@.len(),
            forall|k: int| 0 <= k < i ==> (#[trigger] existing@[k]).port != port,
        decreases existing@.len() - i,
    {
        if existing[i].port == port {
            return Some(i);
        }
        i = i + 1;
    }
    None
}

fn is_busy(busy: &Vec<u16>, port: u16) -> (r: bool)
    ensures
        r == busy@.contains(port),
{
    let mut i: usize = 0;
    while i < busy.len()
        invariant
            i <= busy@.len(),
            forall|k: int| 0 <= k < i ==> busy@[k] != port,
        decreases busy@.len() - i,
    {
        if busy[i] == port {
            assert(busy@[i as int] == port);
            return true;
        }
        i = i + 1;
    }
    false
}

/// Whether `port` is the lowest port of the range that is free, or `None` while
/// none is.
pub open spec fn is_lowest_free(
    port: Option<u16>,
    limits: Limits,
    existing: Seq<InstanceConfig>,
    busy: Seq<u16>,
) -> bool {
    match port {
        Some(p) => {
            &&& limits.port_start <= p < limits.port_end
            &&& port_free(existing, busy, p)
            &&& forall|q: u16| limits.port_start <= q < p ==> !#[trigger] port_free(existing, busy, q)
        },
        None => forall|q: u16|
            limits.port_start <= q < limits.port_end ==> !#[trigger] port_free(existing, busy, q),
    }
}

/// The lowest port of the range that is free.
pub fn allocate_port(limits: &Limits, existing: &Vec<InstanceConfig>, busy: &Vec<u16>) -> (r: Option<
    u16,
>)
    ensures
        is_lowest_free(r, *limits, existing@, busy@),
        r matches Some(p) ==> limits.port_start <= p < limits.port_end && !busy@.contains(p),
{
    let mut p: u16 = limits.port_start;
    while p < limits.port_end
        invariant
            limits.port_start <= p,
            p <= limits.port_end || p == limits.port_start,
            forall|q: u16|
                limits.port_start <= q < p ==> !(#[trigger] port_free(existing@, busy@, q)),
        decreases limits.port_end - p,
    {
        if port_user(existing, p).is_none() && !is_busy(busy, p) {
            return Some(p);
        }
        p = p + 1;
    }
    None
}

/// The lowest port that metrics are served on where that is left open.
pub const METRICS_PORT_START: u16 = 9100;

/// Whether an instance uses a port, for requests or for metrics.
pub open spec fn uses_port(config: InstanceConfig, port: u16) -> bool {
    config.port == port || config.prometheus_port == Some(port)
}

/// Whether an instance that takes requests on `own` can serve metrics on a port: no
/// instance uses it, nor anyone else.
pub open spec fn metrics_free(
    existing: Seq<InstanceConfig>,
    busy: Seq<u16>,
    own: u16,
    port: u16,
) -> bool {
    &&& port != own
    &&& !busy.contains(port)
    &&& forall|i: int| 0 <= i < existing.len() ==> !uses_port(#[trigger] existing[i], port)
}

/// Whether `port` is the lowest from [`METRICS_PORT_START`] on that metrics can be
/// served on, or `None` while there is none.
pub open spec fn is_lowest_metrics(
    port: Option<u16>,
    existing: Seq<InstanceConfig>,
    busy: Seq<u16>,
    own: u16,
) -> bool {
    match port {
        Some(p) => {
            &&& METRICS_PORT_START <= p
            &&& metrics_free(existing, busy, own, p)
            &&& forall|q: u16|
                METRICS_PORT_START <= q < p ==> !#[trigger] metrics_free(existing, busy, own, q)
        },
        None => forall|q: u16|
            METRICS_PORT_START <= q ==> !#[trigger] metrics_free(existing, busy, own, q),
    }
}

fn is_metrics_free(existing: &Vec<InstanceConfig>, busy: &Vec<u16>, own: u16, port: u16) -> (r: bool)
    ensures
        r == metrics_free(existing@, busy@, own, port),
{
    if port == own || is_busy(busy, port) {
        return false;
    }
    let mut i: usize = 0;
    while i < existing.len()
        invariant
            i <= existing@.len(),
            forall|k: int| 0 <= k < i ==> !uses_port(#[trigger] existing@[k], port),
        decreases existing@.len() - i,
    {
        let metrics: bool = match existing[i].prometheus_port {
            Some(p) => p == port,
            None => false,
        };
        if existing[i].port == port || metrics {
            assert(uses_port(existing@[i as int], port));
            return false;
        }
        i = i + 1;
    }
    true
}

/// The lowest port that metrics can be served on.
pub fn allocate_metrics_port(existing: &Vec<InstanceConfig>, busy: &Vec<u16>, own: u16) -> (r: Option<
    u16,
>)
    ensures
        is_lowest_metrics(r, existing@, busy@, own),
{
    let mut p: u16 = METRICS_PORT_START;
    loop
        invariant
            METRICS_PORT_START <= p,
            forall|q: u16|
                METRICS_PORT_START <= q < p ==> !#[trigger] metrics_free(existing@, busy@, own, q),
        decreases u16::MAX - p,
    {
        if is_metrics_free(existing, busy, own, p) {
            return Some(p);
        }
        if p == u16::MAX {
            return None;
        }
        p = p + 1;
    }
}

/// Where a new instance is placed, or why it is turned down.
pub enum Placement {
    NameEmpty,
    NameIsPath,
    PortTooLow,
    NameTaken,
    Full,
    PortTaken,
    NoPort,
    At(u16),
}

/// Where a new instance is placed, given the lowest free port: nowhere when its
/// name is empty or a path, it asks for a port below [`MIN_PORT`], its name is
/// taken, there are too many instances, its port is taken, or it leaves the port
/// open and none is free.
pub open spec fn placement(
    config: InstanceConfig,
    existing: Seq<InstanceConfig>,
    limits: Limits,
    port: Option<u16>,
) -> Placement {
    if config.name@.len() == 0 {
        Placement::NameEmpty
    } else if config.name@.contains('/') || config.name@.contains('\\') {
        Placement::NameIsPath
    } else if 0 < config.port < MIN_PORT {
        Placement::PortTooLow
    } else if name_taken(existing, config.name@) {
        Placement::NameTaken
    } else if limits.max_instances matches Some(max) && existing.len() >= max {
        Placement::Full
    } else if config.port != 0 {
        if port_taken(existing, config.port) {
            Placement::PortTaken
        } else {
            Placement::At(config.port)
        }
    } else {
        match port {
            Some(p) => Placement::At(p),
            None => Placement::NoPort,
        }
    }
}

/// Whether `r` gives an instance its place at `port`, and a port for its metrics
/// where that is left open.
pub open spec fn placed(
    r: Result<InstanceConfig, TeiError>,
    config: InstanceConfig,
    existing: Seq<InstanceConfig>,
    busy: Seq<u16>,
    port: u16,
) -> bool {
    match config.prometheus_port {
        Some(_) => r == Ok::<InstanceConfig, TeiError>((InstanceConfig { port, ..config })),
        None => match r {
            Ok(c) => c.prometheus_port is Some && is_lowest_metrics(
                c.prometheus_port,
                existing,
                busy,
                port,
            ) && c == (InstanceConfig { port, prometheus_port: c.prometheus_port, ..config }),
            Err(TeiError::PortAllocationFailed { reason }) => is_lowest_metrics(
                None,
                existing,
                busy,
                port,
            ) && reason@ == "no free port for metrics"@,
            Err(_) => false,
        },
    }
}

fn name_in_use(existing: &Vec<InstanceConfig>, name: &str) -> (r: bool)
    ensures
        r == name_taken(existing@, name@),
{
    let mut i: usize = 0;
    while i < existing.len()
        invariant
            i <= existing@.len(),
            forall|k: int| 0 <= k < i ==> (#[trigger] existing@[k]).name@ != name@,
        decreases existing@.len() - i,
    {
        if text_eq(existing[i].name.as_str(), name) {
            return true;
        }
        i = i + 1;
    }
    false
}

/// Settle where an instance that gets `port` serves its metrics.
fn with_metrics_port(
    config: InstanceConfig,
    existing: &Vec<InstanceConfig>,
    busy: &Vec<u16>,
    port: u16,
) -> (r: Result<InstanceConfig, TeiError>)
    ensures
        placed(r, config, existing@, busy@, port),
{
    if config.prometheus_port.is_some() {
        return Ok(InstanceConfig { port, ..config });
    }
    match allocate_metrics_port(existing, busy, port) {
        Some(metrics) => Ok(InstanceConfig { port, prometheus_port: Some(metrics), ..config }),
        None => Err(
            TeiError::PortAllocationFailed { reason: "no free port for metrics".to_owned() },
        ),
    }
}

/// Whether `r` is what placing an instance beside the existing ones gives.
pub open spec fn answers_placement(
    r: Result<InstanceConfig, TeiError>,
    config: InstanceConfig,
    existing: Seq<InstanceConfig>,
    limits: Limits,
    busy: Seq<u16>,
) -> bool {
    exists|port: Option<u16>|
        {
            &&& is_lowest_free(port, limits, existing, busy)
            &&& match #[trigger] placement(config, existing, limits, port) {
                Placement::NameEmpty => r matches Err(TeiError::InvalidInstanceName { name, reason })
                    && name@ == config.name@ && reason@ == "cannot be empty"@,
                Placement::NameIsPath => r matches Err(
                    TeiError::InvalidInstanceName { name, reason },
                ) && name@ == config.name@ && reason@ == "cannot contain path separators"@,
                Placement::PortTooLow => r matches Err(TeiError::InvalidPort { port, reason })
                    && port == config.port && reason@ == "must be >= 1024"@,
                Placement::NameTaken => r matches Err(TeiError::InstanceExists { name }) && name@
                    == config.name@,
                Placement::Full => r matches Err(TeiError::MaxInstancesReached { max })
                    && limits.max_instances == Some(max),
                Placement::PortTaken => r matches Err(TeiError::PortConflict { port, instance })
                    && port == config.port && exists|i: int|
                    0 <= i < existing.len() && (#[trigger] existing[i]).port == port
                        && existing[i].name@ == instance@,
                Placement::NoPort => r matches Err(TeiError::PortAllocationFailed { reason })
                    && reason@ == "no free port from "@ + decimal(limits.port_start as nat)
                    + " up to "@ + decimal(limits.port_end as nat),
                Placement::At(p) => placed(r, config, existing, busy, p),
            }
        }
}

/// Place a new instance beside the existing ones: give it the port it asks for,
/// or the lowest free one, and a port for its metrics. `busy` holds the ports that
/// someone else uses.
pub fn place_instance(
    config: InstanceConfig,
    existing: &Vec<InstanceConfig>,
    limits: &Limits,
    busy: &Vec<u16>,
) -> (r: Result<InstanceConfig, TeiError>)
    ensures
        answers_placement(r, config, existing@, *limits, busy@),
        r matches Ok(c) ==> {
            &&& c.port == config.port || config.port == 0
            &&& config.port == 0 ==> limits.port_start <= c.port < limits.port_end
            &&& c.name == config.name && c.model_id == config.model_id && c.gpu_id == config.gpu_id
            &&& config.prometheus_port is Some ==> c.prometheus_port == config.prometheus_port
        },
{
    let free = allocate_port(limits, existing, busy);
    let ghost place = placement(config, existing@, *limits, free);
    if config.name.as_str().is_empty() {
        assert(place is NameEmpty);
        return Err(
            TeiError::InvalidInstanceName {
                name: config.name,
                reason: "cannot be empty".to_owned(),
            },
        );
    }
    if has_separator(config.name.as_str()) {
        assert(place is NameIsPath);
        return Err(
            TeiError::InvalidInstanceName {
                name: config.name,
                reason: "cannot contain path separators".to_owned(),
            },
        );
    }
    if config.port != 0 && config.port < MIN_PORT {
        assert(place is PortTooLow);
        return Err(
            TeiError::InvalidPort { port: config.port, reason: "must be >= 1024".to_owned() },
        );
    }
    if name_in_use(existing, config.name.as_str()) {
        assert(place is NameTaken);
        return Err(TeiError::InstanceExists { name: config.name });
    }
    if let Some(max) = limits.max_instances {
        if existing.len() >= max {
            assert(place is Full);
            return Err(TeiError::MaxInstancesReached { max });
        }
    }
    if config.port != 0 {
        if let Some(i) = port_user(existing, config.port) {
            assert(existing@[i as int].port == config.port);
            assert(place is PortTaken);
            return Err(
                TeiError::PortConflict { port: config.port, instance: existing[i].name.clone() },
            );
        }
        assert(place == Placement::At(config.port));
        let port: u16 = config.port;
        return with_metrics_port(config, existing, busy, port);
    }
    match free {
        Some(port) => {
            assert(place == Placement::At(port));
            with_metrics_port(config, existing, busy, port)
        },
        None => {
            assert(place is NoPort);
            Err(
                TeiError::PortAllocationFailed {
                    reason: "no free port from ".to_owned().concat(
                        decimal_string(limits.port_start as u64).as_str(),
                    ).concat(" up to ").concat(decimal_string(limits.port_end as u64).as_str()),
                },
            )
        },
    }
}

/// `POST /instances` as a whole: the settings of a new instance, placed beside the
/// existing ones, unless it asks for a GPU that is not there or cannot be placed.
pub fn create_and_place(
    req: CreateInstanceRequest,
    gpus: &GpuInfo,
    free_mib: Option<u64>,
    tokens_per_gib: u32,
    now: UnixNanos,
    existing: &Vec<InstanceConfig>,
    limits: &Limits,
    busy: &Vec<u16>,
) -> (r: Result<InstanceConfig, TeiError>)
    ensures
        req.gpu_id matches Some(id) && id >= gpus.indices@.len() ==> (r matches Err(
            TeiError::InvalidGpuId { id: i, reason },
        ) && req.gpu_id == Some(i) && reason@ == gpu_list(gpus.indices@)),
        (req.gpu_id matches Some(id) ==> id < gpus.indices@.len()) ==> {
            &&& exists|config: InstanceConfig| #[trigger]
                asked_for(config, req, free_mib, tokens_per_gib, now) && answers_placement(
                    r,
                    config,
                    existing@,
                    *limits,
                    busy@,
                )
            &&& fit_for_a_place(req) && name_taken(existing@, req.name@) ==> (r matches Err(
                TeiError::InstanceExists { name },
            ) && name@ == req.name@)
        },
        r matches Ok(c) ==> {
            &&& c.name@ == req.name@ && c.model_id@ == req.model_id@ && c.gpu_id == req.gpu_id
            &&& req.port matches Some(p) ==> p != 0 ==> c.port == p
            &&& req.port is None || req.port == Some(0u16) ==> limits.port_start <= c.port
                < limits.port_end
            &&& req.prometheus_port is Some ==> c.prometheus_port == req.prometheus_port
        },
{
    match create_instance(req, gpus, free_mib, tokens_per_gib, now) {
        Ok(config) => place_instance(config, existing, limits, busy),
        Err(e) => Err(e),
    }
}

/// Whether the name and the port that a request asks for can be given at all.
pub open spec fn fit_for_a_place(req: CreateInstanceRequest) -> bool {
    &&& req.name@.len() > 0
    &&& !req.name@.contains('/') && !req.name@.contains('\\')
    &&& req.port matches Some(p) ==> p == 0 || p >= MIN_PORT
}

/// Whether the instances differ in name and port, each two of them.
pub open spec fn apart(instances: Seq<InstanceConfig>) -> bool {
    forall|i: int, j: int|
        0 <= i < j < instances.len() ==> (#[trigger] instances[i]).name@ != (
        #[trigger] instances[j]).name@ && instances[i].port != instances[j].port
}

/// Instances that differ in name and port still do after another was placed
/// beside them.
pub proof fn law_placed_instances_stay_apart(
    config: InstanceConfig,
    existing: Seq<InstanceConfig>,
    limits: Limits,
    busy: Seq<u16>,
    port: Option<u16>,
)
    requires
        apart(existing),
        is_lowest_free(port, limits, existing, busy),
        placement(config, existing, limits, port) is At,
    ensures
        apart(
            existing.push(
                (InstanceConfig {
                    port: placement(config, existing, limits, port)->At_0,
                    ..config
                }),
            ),
        ),
{
    let placed = InstanceConfig { port: placement(config, existing, limits, port)->At_0, ..config };
    let after = existing.push(placed);
    assert forall|i: int, j: int| 0 <= i < j < after.len() implies (#[trigger] after[i]).name@ != (
    #[trigger] after[j]).name@ && after[i].port != after[j].port by {
        if j == existing.len() {
            assert(existing[i].name@ != config.name@);
            assert(existing[i].port != placed.port);
        }
    }
}

/// Whoever is placed has a name that is no path and that no other has, a port of
/// its own from [`MIN_PORT`] on, and metrics on a port that no other uses, unless
/// it asked for one.
pub proof fn law_placed_instances_are_fit(
    config: InstanceConfig,
    existing: Seq<InstanceConfig>,
    limits: Limits,
    busy: Seq<u16>,
    port: Option<u16>,
    placed_as: InstanceConfig,
)
    requires
        MIN_PORT <= limits.port_start,
        is_lowest_free(port, limits, existing, busy),
        placement(config, existing, limits, port) matches Placement::At(p) && placed(
            Ok(placed_as),
            config,
            existing,
            busy,
            p,
        ),
    ensures
        placed_as.name@.len() > 0,
        !placed_as.name@.contains('/') && !placed_as.name@.contains('\\'),
        !name_taken(existing, placed_as.name@),
        MIN_PORT <= placed_as.port && !port_taken(existing, placed_as.port),
        config.prometheus_port is None ==> (placed_as.prometheus_port matches Some(m)
            && METRICS_PORT_START <= m && metrics_free(existing, busy, placed_as.port, m)),
{
}

/// Whoever is placed gets what it asks for: its port, unless that is left open, its
/// port for metrics, unless that is, and all its other settings. A port that is
/// left open is the lowest of the range that no instance has and nobody else uses.
pub proof fn law_placed_instances_get_what_they_ask_for(
    r: Result<InstanceConfig, TeiError>,
    config: InstanceConfig,
    existing: Seq<InstanceConfig>,
    limits: Limits,
    busy: Seq<u16>,
)
    requires
        answers_placement(r, config, existing, limits, busy),
    ensures
        r matches Ok(c) ==> {
            &&& config.port != 0 ==> c.port == config.port
            &&& config.port == 0 ==> {
                &&& limits.port_start <= c.port < limits.port_end
                &&& !busy.contains(c.port)
                &&& forall|q: u16|
                    limits.port_start <= q < c.port ==> #[trigger] busy.contains(q) || exists|i: int|
                        0 <= i < existing.len() && (#[trigger] existing[i]).port == q
            }
            &&& config.prometheus_port is Some ==> c.prometheus_port == config.prometheus_port
            &&& config.prometheus_port is None ==> (c.prometheus_port matches Some(m) && {
                &&& 9100 <= m && m != c.port && !busy.contains(m)
                &&& forall|i: int|
                    0 <= i < existing.len() ==> (#[trigger] existing[i]).port != m
                        && existing[i].prometheus_port != Some(m)
                &&& forall|q: u16|
                    9100 <= q < m && q != c.port ==> #[trigger] busy.contains(q) || exists|i: int|
                        0 <= i < existing.len() && ((#[trigger] existing[i]).port == q
                            || existing[i].prometheus_port == Some(q))
            })
            &&& c == (InstanceConfig {
                port: c.port,
                prometheus_port: c.prometheus_port,
                ..config
            })
        },
{
    if let Ok(c) = r {
        if config.port == 0 {
            assert forall|q: u16| limits.port_start <= q < c.port implies #[trigger] busy.contains(q)
                || exists|i: int| 0 <= i < existing.len() && (#[trigger] existing[i]).port == q by {
                assert(!port_free(existing, busy, q));
            }
        }
        if config.prometheus_port is None {
            let m = c.prometheus_port->0;
            assert(metrics_free(existing, busy, c.port, m));
            assert forall|i: int| 0 <= i < existing.len() implies (#[trigger] existing[i]).port != m
                && existing[i].prometheus_port != Some(m) by {
                assert(!uses_port(existing[i], m));
            }
            assert forall|q: u16| 9100 <= q < m && q != c.port implies #[trigger] busy.contains(q)
                || exists|i: int|
                0 <= i < existing.len() && ((#[trigger] existing[i]).port == q
                    || existing[i].prometheus_port == Some(q)) by {
                assert(!metrics_free(existing, busy, c.port, q));
            }
        }
    }
}

/// An instance is placed exactly when its name is one, is no path and is not taken,
/// the port that it asks for, if any, is at least 1024 and not taken, there is room
/// for one more, and there is a port for it and for its metrics where those are
/// left open.
pub proof fn law_instances_are_placed_when_there_is_a_place(
    r: Result<InstanceConfig, TeiError>,
    config: InstanceConfig,
    existing: Seq<InstanceConfig>,
    limits: Limits,
    busy: Seq<u16>,
)
    requires
        answers_placement(r, config, existing, limits, busy),
    ensures
        r is Ok ==> {
            &&& config.name@.len() > 0
            &&& !config.name@.contains('/') && !config.name@.contains('\\')
            &&& config.port == 0 || config.port >= 1024
            &&& limits.max_instances matches Some(max) ==> existing.len() < max
            &&& forall|i: int|
                0 <= i < existing.len() ==> (#[trigger] existing[i]).name@ != config.name@ && (
                config.port == 0 || existing[i].port != config.port)
        },
        config.name@.len() > 0 && !config.name@.contains('/') && !config.name@.contains('\\') && (
        config.port == 0 || config.port >= 1024) && (limits.max_instances matches Some(max)
            ==> existing.len() < max) && (forall|i: int|
            0 <= i < existing.len() ==> (#[trigger] existing[i]).name@ != config.name@ && (
            config.port == 0 || existing[i].port != config.port)) && (config.prometheus_port is Some
            || exists|q: u16|
            9100 <= q && q != config.port && (q < limits.port_start || q >= limits.port_end)
                && !(#[trigger] busy.contains(q)) && forall|i: int|
                0 <= i < existing.len() ==> (#[trigger] existing[i]).port != q
                    && existing[i].prometheus_port != Some(q)) && (config.port == 0 ==> exists|
            q: u16,
        |
            limits.port_start <= q < limits.port_end && !(#[trigger] busy.contains(q)) && forall|
                i: int,
            |
                0 <= i < existing.len() ==> (#[trigger] existing[i]).port != q) ==> r is Ok,
{
    if config.port == 0 && exists|q: u16|
        limits.port_start <= q < limits.port_end && !(#[trigger] busy.contains(q)) && forall|i: int|
            0 <= i < existing.len() ==> (#[trigger] existing[i]).port != q {
        let q = choose|q: u16|
            limits.port_start <= q < limits.port_end && !(#[trigger] busy.contains(q)) && forall|
                i: int,
            |
                0 <= i < existing.len() ==> (#[trigger] existing[i]).port != q;
        assert(port_free(existing, busy, q));
    }
    if exists|q: u16|
        9100 <= q && q != config.port && (q < limits.port_start || q >= limits.port_end) && !(
        #[trigger] busy.contains(q)) && forall|i: int|
            0 <= i < existing.len() ==> (#[trigger] existing[i]).port != q
                && existing[i].prometheus_port != Some(q) {
        let q = choose|q: u16|
            9100 <= q && q != config.port && (q < limits.port_start || q >= limits.port_end) && !(
            #[trigger] busy.contains(q)) && forall|i: int|
                0 <= i < existing.len() ==> (#[trigger] existing[i]).port != q
                    && existing[i].prometheus_port != Some(q);
        assert forall|port: Option<u16>|
            is_lowest_free(port, limits, existing, busy) && (#[trigger] placement(
                config,
                existing,
                limits,
                port,
            )) is At implies metrics_free(
            existing,
            busy,
            placement(config, existing, limits, port)->At_0,
            q,
        ) by {}
    }
}

/// Whoever is turned down is told why, the first of these that holds: the name is
/// empty or a path, the port is below 1024, the name is taken, there are too many,
/// the port is taken, or there is no port left.
pub proof fn law_each_refusal_has_its_reason(
    r: Result<InstanceConfig, TeiError>,
    config: InstanceConfig,
    existing: Seq<InstanceConfig>,
    limits: Limits,
    busy: Seq<u16>,
)
    requires
        answers_placement(r, config, existing, limits, busy),
    ensures
        ({
            let bad_name = config.name@.len() == 0 || config.name@.contains('/')
                || config.name@.contains('\\');
            let low = config.port != 0 && config.port < 1024;
            let same_name = exists|i: int|
                0 <= i < existing.len() && (#[trigger] existing[i]).name@ == config.name@;
            let full = limits.max_instances matches Some(max) && existing.len() >= max;
            let same_port = config.port != 0 && exists|i: int|
                0 <= i < existing.len() && (#[trigger] existing[i]).port == config.port;
            &&& (r matches Err(TeiError::InvalidInstanceName { .. })) <==> bad_name
            &&& (r matches Err(TeiError::InvalidPort { .. })) <==> !bad_name && low
            &&& (r matches Err(TeiError::InstanceExists { .. })) <==> !bad_name && !low && same_name
            &&& (r matches Err(TeiError::MaxInstancesReached { .. })) <==> !bad_name && !low
                && !same_name && full
            &&& (r matches Err(TeiError::PortConflict { .. })) <==> !bad_name && !low && !same_name
                && !full && same_port
            &&& (r is Ok || r matches Err(TeiError::PortAllocationFailed { .. })) <==> !bad_name
                && !low && !same_name && !full && !same_port
            &&& r matches Err(TeiError::InvalidInstanceName { name, reason }) ==> name@
                == config.name@ && reason@ == (if config.name@.len() == 0 {
                "cannot be empty"@
            } else {
                "cannot contain path separators"@
            })
            &&& r matches Err(TeiError::InvalidPort { port, reason }) ==> port == config.port
                && reason@ == "must be >= 1024"@
            &&& r matches Err(TeiError::InstanceExists { name }) ==> name@ == config.name@
            &&& r matches Err(TeiError::MaxInstancesReached { max }) ==> limits.max_instances
                == Some(max)
            &&& r matches Err(TeiError::PortConflict { port, instance }) ==> port == config.port
                && exists|i: int|
                0 <= i < existing.len() && (#[trigger] existing[i]).port == config.port
                    && existing[i].name@ == instance@
        }),
{
}

/// What a request leaves open is filled in, and the rest is kept: any free port,
/// 16384 tokens or as many as the free memory allows, 512 requests at a time, and
/// no further arguments.
pub proof fn law_requests_are_kept(
    config: InstanceConfig,
    req: CreateInstanceRequest,
    free_mib: Option<u64>,
    tokens_per_gib: u32,
    now: UnixNanos,
)
    requires
        asked_for(config, req, free_mib, tokens_per_gib, now),
    ensures
        config.name@ == req.name@ && config.model_id@ == req.model_id@,
        req.port matches Some(p) ==> config.port == p,
        req.port is None ==> config.port == 0,
        req.max_batch_tokens matches Some(n) ==> n > 0 ==> config.max_batch_tokens == n,
        req.max_batch_tokens is None ==> config.max_batch_tokens == 16384,
        req.max_batch_tokens == Some(0u32) && free_mib is None ==> config.max_batch_tokens == 16384,
        req.max_concurrent_requests matches Some(n) ==> config.max_concurrent_requests == n,
        req.max_concurrent_requests is None ==> config.max_concurrent_requests == 512,
        config.pooling == req.pooling && config.gpu_id == req.gpu_id,
        config.prometheus_port == req.prometheus_port,
        config.startup_timeout_secs == req.startup_timeout_secs,
        req.extra_args matches Some(args) ==> config.extra_args@ == args@,
        req.extra_args is None ==> config.extra_args@.len() == 0,
        config.created_at == Some(now),
{
}

/// The tokens that free memory allows are as many whole ones as fit, at least one
/// and at most as many as can be counted; more memory, or more tokens for each GiB,
/// never allow fewer.
pub proof fn law_tokens_follow_free_memory(mib: u64, more: u64, per_gib: u32, per_gib_more: u32)
    requires
        mib <= more,
        per_gib <= per_gib_more,
    ensures
        ({
            let n = derived_tokens(Some(mib), per_gib);
            &&& 1 <= n <= u32::MAX
            &&& 1 < n < u32::MAX ==> n * 1024 <= mib * per_gib < (n + 1) * 1024
            &&& n == 1 ==> mib * per_gib < 2 * 1024
            &&& n == u32::MAX ==> mib * per_gib >= u32::MAX * 1024
            &&& n <= derived_tokens(Some(more), per_gib_more)
        }),
        derived_tokens(Some(1024), per_gib) == (if per_gib == 0 {
            1
        } else {
            per_gib as int
        }),
{
    assert(mib * per_gib <= more * per_gib_more) by (nonlinear_arith)
        requires
            0 <= mib <= more,
            0 <= per_gib <= per_gib_more,
    ;
    assert(0 <= mib * per_gib) by (nonlinear_arith);
}

/// Which lines of a log are asked for. A negative number counts from the end.
#[derive(Debug, Clone)]
pub struct LogsQuery {
    pub start: Option<i32>,
    pub end: Option<i32>,
}

/// Where in `total` lines a number stands: from the end when negative, and never
/// outside.
pub open spec fn slice_index(i: i32, total: nat) -> nat {
    if i < 0 {
        if total + i < 0 {
            0
        } else {
            (total + i) as nat
        }
    } else if i > total {
        total
    } else {
        i as nat
    }
}

fn slice_at(i: i32, total: usize) -> (n: usize)
    ensures
        n == slice_index(i, total as nat),
{
    if i < 0 {
        let back: u32 = (-(i as i64)) as u32;
        if (back as u64) > (total as u64) {
            0
        } else {
            total - back as usize
        }
    } else if (i as u64) > (total as u64) {
        total
    } else {
        i as usize
    }
}

/// The first line asked for.
pub open spec fn slice_start(query: LogsQuery, total: nat) -> nat {
    match query.start {
        Some(i) => slice_index(i, total),
        None => 0,
    }
}

/// The line after the last one asked for.
pub open spec fn slice_end(query: LogsQuery, total: nat) -> nat {
    match query.end {
        Some(i) => slice_index(i, total),
        None => total,
    }
}

/// The lines asked for: those from the first up to the last, or none when that is
/// backwards.
pub open spec fn sliced(all: Seq<Seq<char>>, query: LogsQuery) -> Seq<Seq<char>> {
    let start = slice_start(query, all.len());
    let end = slice_end(query, all.len());
    if start < end {
        all.subrange(start as int, end as int)
    } else {
        Seq::empty()
    }
}

/// The lines of a log that are asked for.
pub fn slice_log(content: &str, query: &LogsQuery) -> (r: LogsResponse)
    ensures
        r.total_lines == lines(content@).len(),
        r.start == slice_start(*query, lines(content@).len()),
        r.end == slice_end(*query, lines(content@).len()),
        texts(r.lines@) == sliced(lines(content@), *query),
{
    let all = lines_of(content);
    let total: usize = all.len();
    assert(pieces_view(all@).len() == all@.len());
    let start: usize = match query.start {
        Some(i) => slice_at(i, total),
        None => 0,
    };
    let end: usize = match query.end {
        Some(i) => slice_at(i, total),
        None => total,
    };
    let mut picked: Vec<String> = Vec::new();
    let mut i: usize = start;
    while i < end
        invariant
            start <= i,
            i <= end || i == start,
            end <= total,
            total == all@.len(),
            pieces_view(all@) == lines(content@),
            texts(picked@) == (if start < i {
                lines(content@).subrange(start as int, i as int)
            } else {
                Seq::empty()
            }),
        decreases end - i,
    {
        let ghost before = texts(picked@);
        let line = &all[i];
        let text = text_of(line, 0, line.len());
        assert(text@ =~= pieces_view(all@)[i as int]);
        picked.push(text);
        i = i + 1;
        assert(texts(picked@) =~= before.push(text@));
        assert(texts(picked@) =~= lines(content@).subrange(start as int, i as int));
    }
    LogsResponse { lines: picked, start, end, total_lines: total }
}

/// Without numbers the whole log is asked for.
pub proof fn law_whole_log_by_default(all: Seq<Seq<char>>)
    ensures
        sliced(all, (LogsQuery { start: None, end: None })) == all,
{
    assert(sliced(all, (LogsQuery { start: None, end: None })) =~= all);
}

/// The log up to a line and the log from that line on make up the whole log,
/// wherever the line is and whichever way it is counted.
pub proof fn law_log_slices_meet(all: Seq<Seq<char>>, i: i32)
    ensures
        sliced(all, (LogsQuery { start: None, end: Some(i) })) + sliced(
            all,
            (LogsQuery { start: Some(i), end: None }),
        ) == all,
{
    assert(sliced(all, (LogsQuery { start: None, end: Some(i) })) + sliced(
        all,
        (LogsQuery { start: Some(i), end: None }),
    ) =~= all);
}

/// The line numbered `k` of a log, counted from 0, is given exactly when it is not
/// before the first asked for and before the last one; a number below 0 counts from
/// the end.
pub proof fn law_lines_asked_for_are_given(all: Seq<Seq<char>>, query: LogsQuery, k: int)
    requires
        0 <= k < all.len(),
    ensures
        ({
            let from = match query.start {
                Some(i) => if i < 0 {
                    all.len() + i
                } else {
                    i as int
                },
                None => 0,
            };
            let to = match query.end {
                Some(i) => if i < 0 {
                    all.len() + i
                } else {
                    i as int
                },
                None => all.len() as int,
            };
            let start = slice_start(query, all.len());
            let end = slice_end(query, all.len());
            &&& 0 <= start <= all.len() && 0 <= end <= all.len()
            &&& (start <= k < end) == (from <= k < to)
            &&& from <= k < to ==> sliced(all, query)[k - start] == all[k]
            &&& sliced(all, query).len() == (if start < end {
                end - start
            } else {
                0
            })
        }),
{
}

/// Counting from the end, as many lines are given as are asked for, or all.
pub proof fn law_last_lines(all: Seq<Seq<char>>, n: i32)
    requires
        0 < n,
    ensures
        sliced(all, (LogsQuery { start: Some((-n) as i32), end: None })) == all.skip(
            if all.len() < n {
                0
            } else {
                all.len() - n
            },
        ),
{
    assert(sliced(all, (LogsQuery { start: Some((-n) as i32), end: None })) =~= all.skip(
        if all.len() < n {
            0
        } else {
            all.len() - n
        },
    ));
}

/// Where the log of an instance is: the directory, which is another when the
/// usual one is not there, and the file's name.
pub fn log_location(set: Option<String>, usual_exists: bool, name: &str) -> (r: (String, String))
    ensures
        r.0@ == (if usual_exists {
            match set {
                Some(dir) => dir@,
                None => "/data/logs"@,
            }
        } else {
            "/tmp/tei-manager/logs"@
        }),
        r.1@ == name@ + ".log"@,
{
    let dir = if usual_exists {
        log_dir(set)
    } else {
        fallback_log_dir()
    };
    (dir, log_file_name(name))
}

/// What reading a log gave.
#[derive(Debug)]
pub enum LogRead {
    Missing,
    Unreadable(String),
    Content(String),
}

/// `GET /instances/{name}/logs`: the lines asked for of the instance's log.
pub fn get_logs(name: &str, read: LogRead, query: &LogsQuery) -> (r: Result<LogsResponse, TeiError>)
    ensures
        match read {
            LogRead::Missing => r matches Err(TeiError::InstanceNotFound { name: n }) && n@ == name@,
            LogRead::Unreadable(e) => r matches Err(TeiError::IoError { message }) && message@
                == "Failed to read log file: "@ + e@,
            LogRead::Content(content) => r matches Ok(logs) && logs.total_lines == lines(
                content@,
            ).len() && logs.start == slice_start(*query, lines(content@).len()) && logs.end
                == slice_end(*query, lines(content@).len()) && texts(logs.lines@) == sliced(
                lines(content@),
                *query,
            ),
        },
{
    match read {
        LogRead::Missing => Err(TeiError::InstanceNotFound { name: name.to_owned() }),
        LogRead::Unreadable(e) => Err(
            TeiError::IoError {
                message: "Failed to read log file: ".to_owned().concat(e.as_str()),
            },
        ),
        LogRead::Content(content) => Ok(slice_log(content.as_str(), query)),
    }
}

/// The GPUs that there are, as the refusal of another one lists them.
pub proof fn law_refused_gpus_are_told_which_there_are(indices: Seq<u32>)
    ensures
        gpu_list(indices) == "Available GPUs: "@ + number_list(
            Seq::new(indices.len(), |i: int| indices[i] as nat),
        ),
{
    assert(indices.map_values(|i: u32| i as nat) =~= Seq::new(
        indices.len(),
        |i: int| indices[i] as nat,
    ));
}

} // verus!
