//! Bookkeeping of the connections to backend instances: which there are, when
//! each was used last, and which have been idle for too long.

use dashmap::DashMap;
use vstd::prelude::*;

use super::status::{status, Code, Status};
use crate::text::{decimal, decimal_string, list_contains, texts};

verus! {

/// Seconds between looks for idle connections, unless set.
pub const DEFAULT_PRUNE_INTERVAL_SECS: u64 = 300;

/// Seconds after which a connection counts as idle, unless set.
pub const DEFAULT_MAX_IDLE_SECS: u64 = 600;

/// Nanoseconds in a second.
pub const NANOS: u64 = 1_000_000_000;

/// A moment on a clock that never goes back, in nanoseconds.
pub type Tick = u64;

/// When a connection was made, and when it was used last.
#[derive(Debug, Clone, Copy, PartialEq, Eq, Structural)]
pub struct ConnectionEntry {
    pub created_at: Tick,
    pub last_used: Tick,
}

impl ConnectionEntry {
    /// A connection made now.
    pub fn new(now: Tick) -> (e: Self)
        ensures
            e.created_at == now,
            e.last_used == now,
    {
        ConnectionEntry { created_at: now, last_used: now }
    }

    /// The connection is used now.
    pub fn touch(&mut self, now: Tick)
        ensures
            *final(self) == (ConnectionEntry { last_used: now, ..*old(self) }),
    {
        self.last_used = now;
    }
}

/// A concurrent hash map.
#[verifier::external_type_specification]
#[verifier::external_body]
#[verifier::reject_recursive_types(K)]
#[verifier::reject_recursive_types(V)]
#[verifier::reject_recursive_types(S)]
pub struct ExDashMap<K, V, S>(DashMap<K, V, S>);

/// What a map of connections holds.
pub uninterp spec fn connections_of(map: DashMap<String, ConnectionEntry>) -> Map<
    Seq<char>,
    ConnectionEntry,
>;

/// Nothing at all.
pub open spec fn no_connections() -> Map<Seq<char>, ConnectionEntry> {
    Map::empty()
}

/// `DashMap::new`: a map that holds nothing.
#[verifier::external_body]
fn new_map() -> (map: DashMap<String, ConnectionEntry>)
    ensures
        connections_of(map) == no_connections(),
{
    DashMap::new()
}

/// `DashMap::get`: a copy of what the map holds under a key.
#[verifier::external_body]
fn map_get(map: &DashMap<String, ConnectionEntry>, key: &str) -> (r: Option<ConnectionEntry>)
    ensures
        r == (if connections_of(*map).contains_key(key@) {
            Some(connections_of(*map)[key@])
        } else {
            None
        }),
{
    map.get(key).map(|entry| *entry)
}

/// `DashMap::insert`: the map holds the value under the key, in place of what
/// it held there before.
#[verifier::external_body]
fn map_insert(map: &mut DashMap<String, ConnectionEntry>, key: String, value: ConnectionEntry)
    ensures
        connections_of(*final(map)) == connections_of(*old(map)).insert(key@, value),
{
    map.insert(key, value);
}

/// `DashMap::remove`: the map holds nothing under the key; says whether it did.
#[verifier::external_body]
fn map_remove(map: &mut DashMap<String, ConnectionEntry>, key: &str) -> (removed: bool)
    ensures
        connections_of(*final(map)) == connections_of(*old(map)).remove(key@),
        removed == connections_of(*old(map)).contains_key(key@),
{
    map.remove(key).is_some()
}

/// `DashMap::clear`: the map holds nothing.
#[verifier::external_body]
fn map_clear(map: &mut DashMap<String, ConnectionEntry>)
    ensures
        connections_of(*final(map)) == no_connections(),
{
    map.clear();
}

/// `DashMap::iter`: all that the map holds, each key once, in no particular
/// order.
#[verifier::external_body]
fn map_entries(map: &DashMap<String, ConnectionEntry>) -> (r: Vec<(String, ConnectionEntry)>)
    ensures
        forall|i: int, j: int|
            0 <= i < j < r@.len() ==> (#[trigger] r@[i]).0@ != (#[trigger] r@[j]).0@,
        forall|i: int|
            0 <= i < r@.len() ==> connections_of(*map).contains_key((#[trigger] r@[i]).0@)
                && connections_of(*map)[r@[i].0@] == r@[i].1,
        forall|k: Seq<char>| #[trigger]
            connections_of(*map).contains_key(k) ==> exists|i: int|
                0 <= i < r@.len() && (#[trigger] r@[i]).0@ == k,
{
    map.iter().map(|entry| (entry.key().clone(), *entry.value())).collect()
}

/// Something that happened to an instance.
#[derive(Debug, Clone)]
pub enum InstanceEvent {
    Added(String),
    Started(String),
    Stopped(String),
    Removed(String),
}

/// A summary of the connections.
#[derive(Debug, Clone)]
pub struct PoolStats {
    pub active_connections: usize,
    /// Whole seconds since the oldest was made.
    pub oldest_connection_age_secs: Option<u64>,
    /// Whole seconds since the one idle for longest was used.
    pub max_idle_secs: u64,
    pub prune_interval_secs: u64,
    pub max_idle_threshold_secs: u64,
}

/// The connections to backend instances.
pub struct BackendPool {
    connections: DashMap<String, ConnectionEntry>,
    prune_interval: u128,
    max_idle_time: u128,
}

/// How long it is from `from` to `now`; nothing when that is backwards.
pub open spec fn since(from: Tick, now: Tick) -> int {
    if now <= from {
        0
    } else {
        now - from
    }
}

fn ticks_since(from: Tick, now: Tick) -> (d: u64)
    ensures
        d == since(from, now),
{
    if now <= from {
        0
    } else {
        now - from
    }
}

/// How many whole seconds so many nanoseconds are, as far as they can be counted.
pub open spec fn whole_secs(nanos: u128) -> int {
    if nanos as int / NANOS as int > u64::MAX {
        u64::MAX as int
    } else {
        nanos as int / NANOS as int
    }
}

fn as_secs(nanos: u128) -> (secs: u64)
    ensures
        secs == whole_secs(nanos),
{
    let secs: u128 = nanos / NANOS as u128;
    if secs > u64::MAX as u128 {
        u64::MAX
    } else {
        secs as u64
    }
}

/// Whether a connection has been idle for longer than so many nanoseconds.
pub open spec fn is_idle(e: ConnectionEntry, now: Tick, max_idle: u128) -> bool {
    since(e.last_used, now) > max_idle
}

/// Whether `after` is `before` without the keys for which `gone` holds.
pub open spec fn pruned(
    before: Map<Seq<char>, ConnectionEntry>,
    after: Map<Seq<char>, ConnectionEntry>,
    gone: spec_fn(Seq<char>) -> bool,
) -> bool {
    &&& forall|k: Seq<char>| #[trigger]
        after.contains_key(k) <==> before.contains_key(k) && !gone(k)
    &&& forall|k: Seq<char>| #[trigger] after.contains_key(k) ==> after[k] == before[k]
}

/// The keys of a listing.
pub open spec fn listed_keys(r: Seq<(String, ConnectionEntry)>) -> Seq<Seq<char>> {
    Seq::new(r.len(), |i: int| r[i].0@)
}

/// A listing that names each key once has as many entries as the map.
proof fn lemma_listing(m: Map<Seq<char>, ConnectionEntry>, r: Seq<(String, ConnectionEntry)>)
    requires
        forall|i: int, j: int|
            0 <= i < j < r.len() ==> (#[trigger] r[i]).0@ != (#[trigger] r[j]).0@,
        forall|i: int| 0 <= i < r.len() ==> m.contains_key((#[trigger] r[i]).0@),
        forall|k: Seq<char>| #[trigger]
            m.contains_key(k) ==> exists|i: int| 0 <= i < r.len() && (#[trigger] r[i]).0@ == k,
    ensures
        m.dom().finite(),
        m.len() == r.len(),
{
    let keys = listed_keys(r);
    assert forall|k: Seq<char>| m.dom().contains(k) <==> keys.to_set().contains(k) by {
        if m.contains_key(k) {
            let i = choose|i: int| 0 <= i < r.len() && (#[trigger] r[i]).0@ == k;
            assert(keys[i] == k);
        }
        if keys.to_set().contains(k) {
            let i = choose|i: int| 0 <= i < keys.len() && keys[i] == k;
            assert(r[i].0@ == k);
        }
    }
    assert(m.dom() =~= keys.to_set());
    assert forall|i: int, j: int| 0 <= i < keys.len() && 0 <= j < keys.len() && i != j implies keys[i]
        != keys[j] by {
        if i < j {
            assert(r[i].0@ != r[j].0@);
        } else {
            assert(r[j].0@ != r[i].0@);
        }
    }
    keys.unique_seq_to_set();
}

impl BackendPool {
    /// What the pool holds.
    pub closed spec fn view(&self) -> Map<Seq<char>, ConnectionEntry> {
        connections_of(self.connections)
    }

    /// Nanoseconds between looks for idle connections.
    pub closed spec fn interval(&self) -> u128 {
        self.prune_interval
    }

    /// Nanoseconds after which a connection counts as idle.
    pub closed spec fn max_idle(&self) -> u128 {
        self.max_idle_time
    }

    /// An empty pool with the usual times.
    pub fn new() -> (p: Self)
        ensures
            p.view() == no_connections(),
            p.interval() == DEFAULT_PRUNE_INTERVAL_SECS * NANOS,
            p.max_idle() == DEFAULT_MAX_IDLE_SECS * NANOS,
            p.interval() == 300_000_000_000,
            p.max_idle() == 600_000_000_000,
    {
        Self::with_pruning_config(
            DEFAULT_PRUNE_INTERVAL_SECS as u128 * NANOS as u128,
            DEFAULT_MAX_IDLE_SECS as u128 * NANOS as u128,
        )
    }

    /// An empty pool with these times, in nanoseconds.
    pub fn with_pruning_config(prune_interval: u128, max_idle_time: u128) -> (p: Self)
        ensures
            p.view() == no_connections(),
            p.interval() == prune_interval,
            p.max_idle() == max_idle_time,
    {
        BackendPool { connections: new_map(), prune_interval, max_idle_time }
    }

    /// Whether there is a connection to an instance; if so, it is used now.
    pub fn get_clients(&mut self, instance_name: &str, now: Tick) -> (found: bool)
        ensures
            found == old(self).view().contains_key(instance_name@),
            final(self).view() == (if found {
                old(self).view().insert(
                    instance_name@,
                    ConnectionEntry { last_used: now, ..old(self).view()[instance_name@] },
                )
            } else {
                old(self).view()
            }),
            final(self).interval() == old(self).interval(),
            final(self).max_idle() == old(self).max_idle(),
    {
        match map_get(&self.connections, instance_name) {
            Some(entry) => {
                let mut entry = entry;
                entry.touch(now);
                map_insert(&mut self.connections, instance_name.to_owned(), entry);
                true
            },
            None => false,
        }
    }

    /// Where to connect to an instance, given its port; `NotFound` when there is
    /// no such instance.
    pub fn endpoint(instance_name: &str, port: Option<u16>) -> (r: Result<String, Status>)
        ensures
            match port {
                Some(p) => r matches Ok(s) && s@ == "http://127.0.0.1:"@ + decimal(p as nat),
                None => r matches Err(s) && s@ == status(
                    Code::NotFound,
                    "Instance '"@ + instance_name@ + "' not found"@,
                ),
            },
    {
        match port {
            Some(p) => Ok(
                "http://127.0.0.1:".to_owned().concat(decimal_string(p as u64).as_str()),
            ),
            None => Err(
                Status::not_found(
                    "Instance '".to_owned().concat(instance_name).concat("' not found"),
                ),
            ),
        }
    }

    /// The status for a backend that could not be connected to.
    pub fn connect_failed(error: &str) -> (s: Status)
        ensures
            s@ == status(Code::Unavailable, "Failed to connect to backend: "@ + error@),
    {
        Status::unavailable("Failed to connect to backend: ".to_owned().concat(error))
    }

    /// The status for an address that is none.
    pub fn invalid_endpoint(error: &str) -> (s: Status)
        ensures
            s@ == status(Code::Internal, "Invalid endpoint: "@ + error@),
    {
        Status::internal("Invalid endpoint: ".to_owned().concat(error))
    }

    /// A connection to an instance was made.
    pub fn connected(&mut self, instance_name: &str, now: Tick)
        ensures
            final(self).view() == old(self).view().insert(
                instance_name@,
                ConnectionEntry { created_at: now, last_used: now },
            ),
            final(self).interval() == old(self).interval(),
            final(self).max_idle() == old(self).max_idle(),
    {
        map_insert(
            &mut self.connections,
            instance_name.to_owned(),
            ConnectionEntry::new(now),
        );
    }

    /// Whether there is a connection to an instance.
    pub fn holds(&self, instance_name: &str) -> (r: bool)
        ensures
            r == self.view().contains_key(instance_name@),
    {
        map_get(&self.connections, instance_name).is_some()
    }

    /// Drop the connection to an instance; says whether there was one.
    pub fn remove(&mut self, instance_name: &str) -> (removed: bool)
        ensures
            removed == old(self).view().contains_key(instance_name@),
            final(self).view() == old(self).view().remove(instance_name@),
            final(self).interval() == old(self).interval(),
            final(self).max_idle() == old(self).max_idle(),
    {
        map_remove(&mut self.connections, instance_name)
    }

    /// Something happened to an instance: the connection to one that stopped or
    /// is gone is dropped. Says whether there was one.
    pub fn handle_lifecycle_event(&mut self, event: &InstanceEvent) -> (removed: bool)
        ensures
            match *event {
                InstanceEvent::Removed(name) => removed == old(self).view().contains_key(name@)
                    && final(self).view() == old(self).view().remove(name@),
                InstanceEvent::Stopped(name) => removed == old(self).view().contains_key(name@)
                    && final(self).view() == old(self).view().remove(name@),
                _ => !removed && final(self).view() == old(self).view(),
            },
            final(self).interval() == old(self).interval(),
            final(self).max_idle() == old(self).max_idle(),
    {
        match event {
            InstanceEvent::Removed(name) => self.remove(name.as_str()),
            InstanceEvent::Stopped(name) => self.remove(name.as_str()),
            _ => false,
        }
    }

    /// Drop the connections that have been idle for too long, and those to
    /// instances that are not among `known`: how many there were.
    pub fn prune_idle_connections(&mut self, known: &Vec<String>, now: Tick) -> (n: usize)
        ensures
            pruned(
                old(self).view(),
                final(self).view(),
                |k: Seq<char>|
                    is_idle(old(self).view()[k], now, old(self).max_idle()) || !texts(
                        known@,
                    ).contains(k),
            ),
            forall|k: Seq<char>| #[trigger]
                final(self).view().contains_key(k) <==> old(self).view().contains_key(k)
                    && old(self).view()[k].last_used + old(self).max_idle() >= now && exists|i: int|
                    0 <= i < known@.len() && (#[trigger] known@[i])@ == k,
            forall|k: Seq<char>| #[trigger]
                final(self).view().contains_key(k) ==> final(self).view()[k] == old(self).view()[k],
            n + final(self).view().len() == old(self).view().len(),
            final(self).interval() == old(self).interval(),
            final(self).max_idle() == old(self).max_idle(),
    {
        let ghost before = self.view();
        let entries = map_entries(&self.connections);
        proof {
            lemma_listing(before, entries@);
        }
        let limit: u128 = self.max_idle_time;
        let mut n: usize = 0;
        let mut i: usize = 0;
        while i < entries.len()
            invariant
                i <= entries@.len(),
                n <= i,
                limit == old(self).max_idle(),
                self.max_idle() == old(self).max_idle(),
                self.interval() == old(self).interval(),
                before == old(self).view(),
                before.dom().finite(),
                forall|a: int, b: int|
                    0 <= a < b < entries@.len() ==> (#[trigger] entries@[a]).0@ != (
                    #[trigger] entries@[b]).0@,
                forall|a: int|
                    0 <= a < entries@.len() ==> before.contains_key((#[trigger] entries@[a]).0@)
                        && before[entries@[a].0@] == entries@[a].1,
                self.view().submap_of(before),
                self.view().dom().finite(),
                n + self.view().len() == before.len(),
                forall|a: int|
                    0 <= a < i ==> (self.view().contains_key((#[trigger] entries@[a]).0@)
                        <==> !is_idle(entries@[a].1, now, old(self).max_idle()) && texts(
                        known@,
                    ).contains(entries@[a].0@)),
                forall|a: int|
                    i <= a < entries@.len() ==> self.view().contains_key(
                        (#[trigger] entries@[a]).0@,
                    ),
            decreases entries@.len() - i,
        {
            let entry: ConnectionEntry = entries[i].1;
            let is_known: bool = list_contains(known, entries[i].0.as_str());
            proof {
                lemma_among(known@, entries@[i as int].0@);
            }
            if ticks_since(entry.last_used, now) as u128 > limit || !is_known {
                let ghost held = self.view();
                let removed: bool = map_remove(&mut self.connections, entries[i].0.as_str());
                assert(self.view() == held.remove(entries@[i as int].0@));
                assert(removed);
                n = n + 1;
            }
            i = i + 1;
        }
        proof {
            let gone = |k: Seq<char>|
                is_idle(old(self).view()[k], now, old(self).max_idle()) || !texts(known@).contains(k);
            assert forall|k: Seq<char>| #[trigger] self.view().contains_key(k) <==> before.contains_key(
                k,
            ) && !gone(k) by {
                if before.contains_key(k) {
                    let a = choose|a: int| 0 <= a < entries@.len() && (#[trigger] entries@[a]).0@ == k;
                    assert(before[entries@[a].0@] == entries@[a].1);
                }
            }
            assert forall|k: Seq<char>| #[trigger] self.view().contains_key(k) <==> before.contains_key(
                k,
            ) && before[k].last_used + old(self).max_idle() >= now && exists|i: int|
                0 <= i < known@.len() && (#[trigger] known@[i])@ == k by {
                lemma_among(known@, k);
                assert(self.view().contains_key(k) <==> before.contains_key(k) && !gone(k));
            }
        }
        n
    }

    /// Drop the connections to instances that are not among `known`: how many
    /// there were.
    pub fn prune_orphaned_connections(&mut self, known: &Vec<String>) -> (n: usize)
        ensures
            pruned(
                old(self).view(),
                final(self).view(),
                |k: Seq<char>|
                    !exists|i: int| 0 <= i < known@.len() && (#[trigger] known@[i])@ == k,
            ),
            forall|k: Seq<char>| #[trigger]
                final(self).view().contains_key(k) <==> old(self).view().contains_key(k) && exists|
                    i: int,
                |
                    0 <= i < known@.len() && (#[trigger] known@[i])@ == k,
            forall|k: Seq<char>| #[trigger]
                final(self).view().contains_key(k) ==> final(self).view()[k] == old(self).view()[k],
            n + final(self).view().len() == old(self).view().len(),
            final(self).interval() == old(self).interval(),
            final(self).max_idle() == old(self).max_idle(),
    {
        let ghost before = self.view();
        let entries = map_entries(&self.connections);
        proof {
            lemma_listing(before, entries@);
        }
        let mut n: usize = 0;
        let mut i: usize = 0;
        while i < entries.len()
            invariant
                i <= entries@.len(),
                n <= i,
                self.max_idle() == old(self).max_idle(),
                self.interval() == old(self).interval(),
                before == old(self).view(),
                before.dom().finite(),
                forall|a: int, b: int|
                    0 <= a < b < entries@.len() ==> (#[trigger] entries@[a]).0@ != (
                    #[trigger] entries@[b]).0@,
                forall|a: int|
                    0 <= a < entries@.len() ==> before.contains_key((#[trigger] entries@[a]).0@),
                self.view().submap_of(before),
                self.view().dom().finite(),
                n + self.view().len() == before.len(),
                forall|a: int|
                    0 <= a < i ==> (self.view().contains_key((#[trigger] entries@[a]).0@)
                        <==> exists|i: int|
                        0 <= i < known@.len() && (#[trigger] known@[i])@ == entries@[a].0@),
                forall|a: int|
                    i <= a < entries@.len() ==> self.view().contains_key(
                        (#[trigger] entries@[a]).0@,
                    ),
            decreases entries@.len() - i,
        {
            if !list_contains(known, entries[i].0.as_str()) {
                let ghost held = self.view();
                let removed: bool = map_remove(&mut self.connections, entries[i].0.as_str());
                assert(self.view() == held.remove(entries@[i as int].0@));
                assert(removed);
                n = n + 1;
            }
            i = i + 1;
        }
        proof {
            let gone = |k: Seq<char>|
                !exists|i: int| 0 <= i < known@.len() && (#[trigger] known@[i])@ == k;
            assert forall|k: Seq<char>| #[trigger] self.view().contains_key(k) <==> before.contains_key(
                k,
            ) && !gone(k) by {
                if before.contains_key(k) {
                    let a = choose|a: int| 0 <= a < entries@.len() && (#[trigger] entries@[a]).0@ == k;
                    assert(before.contains_key(entries@[a].0@));
                }
            }
        }
        n
    }

    /// A summary of the connections.
    pub fn stats(&self, now: Tick) -> (s: PoolStats)
        ensures
            s.active_connections == self.view().len(),
            match s.oldest_connection_age_secs {
                None => self.view().len() == 0,
                Some(age) => {
                    &&& exists|k: Seq<char>| #[trigger]
                        self.view().contains_key(k) && age == since(self.view()[k].created_at, now)
                            / NANOS as int
                    &&& forall|k: Seq<char>| #[trigger]
                        self.view().contains_key(k) ==> since(self.view()[k].created_at, now)
                            / NANOS as int <= age
                },
            },
            self.view().len() == 0 ==> s.max_idle_secs == 0,
            self.view().len() > 0 ==> exists|k: Seq<char>| #[trigger]
                self.view().contains_key(k) && s.max_idle_secs == since(
                    self.view()[k].last_used,
                    now,
                ) / NANOS as int,
            forall|k: Seq<char>| #[trigger]
                self.view().contains_key(k) ==> since(self.view()[k].last_used, now) / NANOS as int
                    <= s.max_idle_secs,
            s.prune_interval_secs == whole_secs(self.interval()),
            s.max_idle_threshold_secs == whole_secs(self.max_idle()),
    {
        let entries = map_entries(&self.connections);
        proof {
            lemma_listing(self.view(), entries@);
        }
        let mut oldest: Option<u64> = None;
        let mut idle: u64 = 0;
        let mut i: usize = 0;
        while i < entries.len()
            invariant
                i <= entries@.len(),
                forall|a: int|
                    0 <= a < entries@.len() ==> self.view().contains_key(
                        (#[trigger] entries@[a]).0@,
                    ) && self.view()[entries@[a].0@] == entries@[a].1,
                match oldest {
                    None => i == 0,
                    Some(age) => {
                        &&& exists|k: Seq<char>| #[trigger]
                            self.view().contains_key(k) && age == since(
                                self.view()[k].created_at,
                                now,
                            ) / NANOS as int
                        &&& forall|a: int|
                            0 <= a < i ==> since((#[trigger] entries@[a]).1.created_at, now)
                                / NANOS as int <= age
                    },
                },
                i == 0 ==> idle == 0,
                i > 0 ==> exists|k: Seq<char>| #[trigger]
                    self.view().contains_key(k) && idle == since(self.view()[k].last_used, now)
                        / NANOS as int,
                forall|a: int|
                    0 <= a < i ==> since((#[trigger] entries@[a]).1.last_used, now) / NANOS as int
                        <= idle,
            decreases entries@.len() - i,
        {
            let entry: ConnectionEntry = entries[i].1;
            let age: u64 = ticks_since(entry.created_at, now) / NANOS;
            let waited: u64 = ticks_since(entry.last_used, now) / NANOS;
            assert(self.view().contains_key(entries@[i as int].0@));
            oldest = match oldest {
                Some(o) => if o >= age {
                    Some(o)
                } else {
                    Some(age)
                },
                None => Some(age),
            };
            if i == 0 || waited > idle {
                idle = waited;
            }
            i = i + 1;
        }
        proof {
            assert forall|k: Seq<char>| #[trigger] self.view().contains_key(k) implies exists|a: int|
                0 <= a < entries@.len() && (#[trigger] entries@[a]).0@ == k && self.view()[k]
                    == entries@[a].1 by {
                let a = choose|a: int| 0 <= a < entries@.len() && (#[trigger] entries@[a]).0@ == k;
                assert(self.view()[entries@[a].0@] == entries@[a].1);
            }
        }
        PoolStats {
            active_connections: entries.len(),
            oldest_connection_age_secs: oldest,
            max_idle_secs: idle,
            prune_interval_secs: as_secs(self.prune_interval),
            max_idle_threshold_secs: as_secs(self.max_idle_time),
        }
    }

    /// Drop all connections.
    pub fn clear(&mut self)
        ensures
            final(self).view() == no_connections(),
            final(self).interval() == old(self).interval(),
            final(self).max_idle() == old(self).max_idle(),
    {
        map_clear(&mut self.connections);
    }
}

/// A text is among others when one of them is the same.
proof fn lemma_among(items: Seq<String>, s: Seq<char>)
    ensures
        texts(items).contains(s) == exists|i: int|
            0 <= i < items.len() && (#[trigger] items[i])@ == s,
{
    if texts(items).contains(s) {
        let i = choose|i: int| 0 <= i < items.len() && texts(items)[i] == s;
        assert(items[i]@ == s);
    }
    if exists|i: int| 0 <= i < items.len() && (#[trigger] items[i])@ == s {
        let i = choose|i: int| 0 <= i < items.len() && (#[trigger] items[i])@ == s;
        assert(texts(items)[i] == s);
    }
}

/// A connection that was used within the time allowed, to an instance that there
/// is, survives a look for idle ones.
pub proof fn law_used_connections_survive(
    before: Map<Seq<char>, ConnectionEntry>,
    after: Map<Seq<char>, ConnectionEntry>,
    now: Tick,
    max_idle: u128,
    known: Seq<Seq<char>>,
    name: Seq<char>,
)
    requires
        pruned(
            before,
            after,
            |k: Seq<char>| is_idle(before[k], now, max_idle) || !known.contains(k),
        ),
        before.contains_key(name),
        known.contains(name),
        now <= before[name].last_used + max_idle,
    ensures
        after.contains_key(name),
        after[name] == before[name],
{
    assert(!is_idle(before[name], now, max_idle));
    assert(after.contains_key(name));
}

/// A connection that was not used within the time allowed, or to an instance that
/// there is not, does not survive a look for idle ones; what survives was there.
pub proof fn law_idle_connections_are_dropped(
    before: Map<Seq<char>, ConnectionEntry>,
    after: Map<Seq<char>, ConnectionEntry>,
    now: Tick,
    max_idle: u128,
    known: Seq<Seq<char>>,
    name: Seq<char>,
)
    requires
        pruned(
            before,
            after,
            |k: Seq<char>| is_idle(before[k], now, max_idle) || !known.contains(k),
        ),
    ensures
        after.contains_key(name) <==> before.contains_key(name) && known.contains(name) && now
            <= before[name].last_used + max_idle,
        after.contains_key(name) ==> after[name] == before[name],
{
    let gone = |k: Seq<char>| is_idle(before[k], now, max_idle) || !known.contains(k);
    assert(after.contains_key(name) <==> before.contains_key(name) && !gone(name));
}

/// Time that has passed is the difference of two moments, and none passes
/// backwards; whole seconds are those that fit.
pub proof fn law_time_passes(from: Tick, now: Tick, nanos: u128)
    ensures
        from <= now ==> since(from, now) == now - from,
        now <= from ==> since(from, now) == 0,
        nanos < u64::MAX ==> whole_secs(nanos) * 1_000_000_000 <= nanos < (whole_secs(nanos) + 1)
            * 1_000_000_000,
{
}

} // verus!
