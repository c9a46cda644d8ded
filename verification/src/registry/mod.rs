//! The in-memory service registry.
//!
//! The registry knows the services, who owns which path prefix, when each
//! instance last reported metrics, and how many proxy attempts in a row failed
//! for it. `RegistryModel` is what all of that amounts to; each operation is
//! stated as a step from one model to the next.

pub mod health;
pub mod laws;
pub mod maintenance;

use crate::clock::{is_uuid, random_uuid, utc_now, Timestamp};
use crate::models::{
    InstanceModel, InstanceStatus, RegistrationRequest, ServiceDefinition, ServiceInstance,
    ServiceModel,
};
use crate::string_map::{is_listing, lists_by, Duplicate, StringMap};
use crate::table::Table;
use crate::text::{
    copy_texts, is_blank, joined3, list_holds, optional_text, same_text, text_starts_with, texts,
    trimmed,
};
use vstd::prelude::*;
use vstd::string::*;

verus! {

/// When an instance last reported metrics, and how often it has.
#[derive(Clone, Copy, Debug, PartialEq, Eq, Structural)]
pub struct MetricsHeartbeatState {
    pub last_seen_utc: Timestamp,
    pub sample_count: u64,
}

impl View for MetricsHeartbeatState {
    type V = MetricsHeartbeatState;

    open spec fn view(&self) -> MetricsHeartbeatState {
        *self
    }
}

/// Whether there have been enough reports to tell how regularly they come.
pub open spec fn has_baseline(state: MetricsHeartbeatState) -> bool {
    state.sample_count >= 5
}

/// One metrics report in the cadence of an instance.
#[derive(Clone, Copy, Debug, PartialEq, Eq, Structural)]
pub struct HeartbeatSample {
    /// How many reports there have been, this one included.
    pub sample_count: u64,
    /// The milliseconds since the report before, at least 1, or 0 for the first one.
    pub interval_ms: u128,
}

/// Result returned from a registration attempt.
#[derive(Clone, Debug)]
pub struct RegistrationResult {
    pub success: bool,
    pub instance_id: Option<String>,
    pub token: Option<String>,
    pub error_code: Option<String>,
    pub error_message: Option<String>,
}

/// What a registration result holds.
pub struct RegistrationOutcome {
    pub success: bool,
    pub instance_id: Option<Seq<char>>,
    pub token: Option<Seq<char>>,
    pub error_code: Option<Seq<char>>,
    pub error_message: Option<Seq<char>>,
}

impl View for RegistrationResult {
    type V = RegistrationOutcome;

    open spec fn view(&self) -> RegistrationOutcome {
        RegistrationOutcome {
            success: self.success,
            instance_id: optional_text(self.instance_id),
            token: optional_text(self.token),
            error_code: optional_text(self.error_code),
            error_message: optional_text(self.error_message),
        }
    }
}

/// What the registry knows.
pub struct RegistryModel {
    pub services: Map<Seq<char>, ServiceModel>,
    pub path_owners: Map<Seq<char>, Seq<char>>,
    pub heartbeats: Map<Seq<char>, MetricsHeartbeatState>,
    pub failures: Map<Seq<char>, u32>,
}

/// The key under which the health data of an instance are kept.
pub open spec fn health_key(service_id: Seq<char>, instance_id: Seq<char>) -> Seq<char> {
    service_id + ":"@ + instance_id
}

/// The first of the prefixes from `from` on that another service owns, or the
/// number of prefixes.
pub open spec fn first_collision(
    owners: Map<Seq<char>, Seq<char>>,
    prefixes: Seq<Seq<char>>,
    service_id: Seq<char>,
    from: int,
) -> int
    decreases prefixes.len() - from,
{
    if from >= prefixes.len() {
        prefixes.len() as int
    } else if owners.contains_key(prefixes[from]) && owners[prefixes[from]] != service_id {
        from
    } else {
        first_collision(owners, prefixes, service_id, from + 1)
    }
}

/// The owners of path prefixes after a service has claimed some.
pub open spec fn claimed(
    owners: Map<Seq<char>, Seq<char>>,
    prefixes: Seq<Seq<char>>,
    service_id: Seq<char>,
) -> Map<Seq<char>, Seq<char>> {
    owners.union_prefer_right(
        Map::new(|p: Seq<char>| prefixes.contains(p), |p: Seq<char>| service_id),
    )
}

/// The owner of the longest prefix of `path[..n]` that is owned.
pub open spec fn longest_owner(
    owners: Map<Seq<char>, Seq<char>>,
    path: Seq<char>,
    n: int,
) -> Option<Seq<char>>
    decreases n + 1,
{
    if n < 0 {
        None
    } else if owners.contains_key(path.take(n)) {
        Some(owners[path.take(n)])
    } else {
        longest_owner(owners, path, n - 1)
    }
}

/// The instance that a registration brings in.
pub open spec fn new_instance(
    request: RegistrationRequest,
    instance_id: Seq<char>,
    token: Seq<char>,
    now: Timestamp,
) -> InstanceModel {
    InstanceModel {
        instance_id,
        service_id: request.service_id@,
        token,
        scheme: request.instance.scheme@,
        host: request.instance.host@,
        port: request.instance.port,
        weight: request.instance.weight,
        status: InstanceStatus::Up,
        active_connections: 0,
        last_heartbeat_utc: now,
    }
}

/// The outcome of a refused registration.
pub open spec fn refused(code: Seq<char>, message: Seq<char>) -> RegistrationOutcome {
    RegistrationOutcome {
        success: false,
        instance_id: None,
        token: None,
        error_code: Some(code),
        error_message: Some(message),
    }
}

/// The id under which a request registers its instance: the one it asks for, or
/// a fresh one where that is blank.
pub open spec fn registered_id(request: RegistrationRequest, fresh_id: Seq<char>) -> Seq<char> {
    if trimmed(request.instance.instance_id@).len() == 0 {
        fresh_id
    } else {
        request.instance.instance_id@
    }
}

impl RegistryModel {
    /// Whether the registry knows an instance.
    pub open spec fn has_instance(self, service_id: Seq<char>, instance_id: Seq<char>) -> bool {
        self.services.contains_key(service_id)
            && self.services[service_id].instances.contains_key(instance_id)
    }

    /// An instance of a service.
    pub open spec fn instance(self, service_id: Seq<char>, instance_id: Seq<char>) -> InstanceModel {
        self.services[service_id].instances[instance_id]
    }

    /// The registry with an instance put in place of the one of that id.
    pub open spec fn with_instance(
        self,
        service_id: Seq<char>,
        instance_id: Seq<char>,
        instance: InstanceModel,
    ) -> RegistryModel {
        RegistryModel {
            services: self.services.insert(
                service_id,
                ServiceModel {
                    instances: self.services[service_id].instances.insert(instance_id, instance),
                    ..self.services[service_id]
                },
            ),
            ..self
        }
    }

    /// Services and instances are found under their own ids.
    pub open spec fn consistent(self) -> bool {
        &&& forall|s: Seq<char>| #[trigger]
            self.services.contains_key(s) ==> self.services[s].service_id == s
        &&& forall|s: Seq<char>, i: Seq<char>| #[trigger]
            self.has_instance(s, i) ==> self.instance(s, i).service_id == s && self.instance(
                s,
                i,
            ).instance_id == i
    }

    /// Being found under their own ids is a matter of the services alone.
    proof fn consistent_by_services(self, other: RegistryModel)
        requires
            self.consistent(),
            self.services == other.services,
        ensures
            other.consistent(),
    {
        assert forall|s: Seq<char>, i: Seq<char>| #[trigger]
            other.has_instance(s, i) implies other.instance(s, i).service_id == s && other.instance(
            s,
            i,
        ).instance_id == i by {
            assert(self.has_instance(s, i));
        }
    }

    /// The definition of the service that a request registers for: the known one,
    /// or a new one without instances.
    pub open spec fn target_service(self, request: RegistrationRequest) -> ServiceModel {
        if self.services.contains_key(request.service_id@) {
            self.services[request.service_id@]
        } else {
            ServiceModel {
                service_id: request.service_id@,
                fingerprint: request.fingerprint@,
                path_prefixes: texts(request.path_prefixes@),
                instances: Map::empty(),
            }
        }
    }

    /// A registration, given the id and the token that it may have to draw and
    /// the time at which it is made.
    ///
    /// A prefix that another service owns refuses it and changes nothing. A wrong
    /// fingerprint refuses it after the prefixes have been claimed.
    pub open spec fn registered(
        self,
        request: RegistrationRequest,
        fresh_id: Seq<char>,
        token: Seq<char>,
        now: Timestamp,
    ) -> (RegistryModel, RegistrationOutcome) {
        let prefixes = texts(request.path_prefixes@);
        let service_id = request.service_id@;
        let at = first_collision(self.path_owners, prefixes, service_id, 0);
        let service = self.target_service(request);
        let owned = RegistryModel {
            path_owners: claimed(self.path_owners, prefixes, service_id),
            ..self
        };
        if at < prefixes.len() {
            (
                self,
                refused(
                    "ROUTE_COLLISION"@,
                    "Path prefix '"@ + prefixes[at] + "' already owned by service '"@
                        + self.path_owners[prefixes[at]] + "'"@,
                ),
            )
        } else if service.fingerprint != request.fingerprint@ {
            (owned, refused("FINGERPRINT_INVALID"@, "Fingerprint mismatch"@))
        } else {
            let id = registered_id(request, fresh_id);
            (
                RegistryModel {
                    services: self.services.insert(
                        service_id,
                        ServiceModel {
                            instances: service.instances.insert(
                                id,
                                new_instance(request, id, token, now),
                            ),
                            ..service
                        },
                    ),
                    ..owned
                },
                RegistrationOutcome {
                    success: true,
                    instance_id: Some(id),
                    token: Some(token),
                    error_code: None,
                    error_message: None,
                },
            )
        }
    }

    /// The registry without one instance and its health data.
    pub open spec fn deregistered(self, service_id: Seq<char>, instance_id: Seq<char>) -> RegistryModel {
        if self.has_instance(service_id, instance_id) {
            RegistryModel {
                services: self.services.insert(
                    service_id,
                    ServiceModel {
                        instances: self.services[service_id].instances.remove(instance_id),
                        ..self.services[service_id]
                    },
                ),
                heartbeats: self.heartbeats.remove(health_key(service_id, instance_id)),
                failures: self.failures.remove(health_key(service_id, instance_id)),
                ..self
            }
        } else {
            self
        }
    }

    /// The registry after an instance has been heard of.
    pub open spec fn heard(
        self,
        service_id: Seq<char>,
        instance_id: Seq<char>,
        now: Timestamp,
    ) -> RegistryModel {
        if self.has_instance(service_id, instance_id) {
            self.with_instance(
                service_id,
                instance_id,
                InstanceModel { last_heartbeat_utc: now, ..self.instance(service_id, instance_id) },
            )
        } else {
            self
        }
    }

    /// The cadence of an instance after one more metrics report.
    pub open spec fn next_heartbeat(self, key: Seq<char>, now: Timestamp) -> MetricsHeartbeatState {
        MetricsHeartbeatState {
            last_seen_utc: now,
            sample_count: if self.heartbeats.contains_key(key) {
                (self.heartbeats[key].sample_count + 1) as u64
            } else {
                1
            },
        }
    }

    /// The registry after a metrics report of an instance.
    pub open spec fn metrics_heard(
        self,
        service_id: Seq<char>,
        instance_id: Seq<char>,
        now: Timestamp,
    ) -> RegistryModel {
        let key = health_key(service_id, instance_id);
        if self.has_instance(service_id, instance_id) {
            RegistryModel {
                heartbeats: self.heartbeats.insert(key, self.next_heartbeat(key, now)),
                ..self.heard(service_id, instance_id, now)
            }
        } else {
            self
        }
    }

    /// The sample that a metrics report makes.
    pub open spec fn sample(
        self,
        service_id: Seq<char>,
        instance_id: Seq<char>,
        now: Timestamp,
    ) -> Option<HeartbeatSample> {
        let key = health_key(service_id, instance_id);
        if !self.has_instance(service_id, instance_id) {
            None
        } else {
            Some(
                HeartbeatSample {
                    sample_count: self.next_heartbeat(key, now).sample_count,
                    interval_ms: if self.heartbeats.contains_key(key) {
                        let elapsed = now.ms_since(self.heartbeats[key].last_seen_utc);
                        if elapsed < 1 {
                            1
                        } else {
                            elapsed as u128
                        }
                    } else {
                        0
                    },
                },
            )
        }
    }

    /// The registry after the status of an instance has been set. Coming up counts
    /// as being heard of; going up or down ends the run of proxy failures.
    pub open spec fn status_set(
        self,
        service_id: Seq<char>,
        instance_id: Seq<char>,
        status: InstanceStatus,
        now: Timestamp,
    ) -> RegistryModel {
        if self.has_instance(service_id, instance_id) {
            let instance = self.instance(service_id, instance_id);
            RegistryModel {
                failures: if status == InstanceStatus::Degraded {
                    self.failures
                } else {
                    self.failures.remove(health_key(service_id, instance_id))
                },
                ..self.with_instance(
                    service_id,
                    instance_id,
                    InstanceModel {
                        status,
                        last_heartbeat_utc: if status == InstanceStatus::Up {
                            now
                        } else {
                            instance.last_heartbeat_utc
                        },
                        ..instance
                    },
                )
            }
        } else {
            self
        }
    }

    /// How many proxy attempts in a row failed for an instance.
    pub open spec fn failure_count(self, service_id: Seq<char>, instance_id: Seq<char>) -> u32 {
        let key = health_key(service_id, instance_id);
        if self.failures.contains_key(key) {
            self.failures[key]
        } else {
            0
        }
    }

    /// Whether one more proxy failure takes an instance down: it reaches the
    /// threshold, of at least 1, and the instance is known and not down yet.
    pub open spec fn failure_takes_down(
        self,
        service_id: Seq<char>,
        instance_id: Seq<char>,
        threshold: u32,
    ) -> bool {
        let limit: int = if threshold == 0 { 1 } else { threshold as int };
        &&& self.failure_count(service_id, instance_id) + 1 >= limit
        &&& self.has_instance(service_id, instance_id)
        &&& self.instance(service_id, instance_id).status != InstanceStatus::Down
    }

    /// The registry after a proxy failure.
    pub open spec fn proxy_failed(
        self,
        service_id: Seq<char>,
        instance_id: Seq<char>,
        threshold: u32,
    ) -> RegistryModel {
        let counted = RegistryModel {
            failures: self.failures.insert(
                health_key(service_id, instance_id),
                (self.failure_count(service_id, instance_id) + 1) as u32,
            ),
            ..self
        };
        if self.failure_takes_down(service_id, instance_id, threshold) {
            counted.with_instance(
                service_id,
                instance_id,
                InstanceModel {
                    status: InstanceStatus::Down,
                    ..self.instance(service_id, instance_id)
                },
            )
        } else {
            counted
        }
    }

    /// The registry after a successful proxy attempt.
    pub open spec fn proxy_succeeded(
        self,
        service_id: Seq<char>,
        instance_id: Seq<char>,
        now: Timestamp,
    ) -> RegistryModel {
        let cleared = RegistryModel {
            failures: self.failures.remove(health_key(service_id, instance_id)),
            ..self
        };
        if self.has_instance(service_id, instance_id) && self.instance(
            service_id,
            instance_id,
        ).status != InstanceStatus::Up {
            cleared.with_instance(
                service_id,
                instance_id,
                InstanceModel {
                    status: InstanceStatus::Up,
                    last_heartbeat_utc: now,
                    ..self.instance(service_id, instance_id)
                },
            )
        } else {
            cleared
        }
    }

    /// The status that the metrics reports of an instance speak for: down where
    /// there are none or the last is older than the timeout, else degraded where
    /// there are enough of them to tell and they come irregularly.
    pub open spec fn metrics_status(
        self,
        service_id: Seq<char>,
        instance_id: Seq<char>,
        now: Timestamp,
        timeout_ns: u128,
        irregular: Set<Seq<char>>,
    ) -> InstanceStatus {
        let key = health_key(service_id, instance_id);
        if !self.heartbeats.contains_key(key) {
            InstanceStatus::Down
        } else if now.ms_since(self.heartbeats[key].last_seen_utc) > timeout_ns as int / 1_000_000 {
            InstanceStatus::Down
        } else if irregular.contains(key) && has_baseline(self.heartbeats[key]) {
            InstanceStatus::Degraded
        } else {
            InstanceStatus::Up
        }
    }

    /// The instances of a service with the statuses that their reports speak for.
    pub open spec fn evaluated_service(
        self,
        service_id: Seq<char>,
        now: Timestamp,
        timeout_ns: u128,
        irregular: Set<Seq<char>>,
    ) -> ServiceModel {
        let service = self.services[service_id];
        ServiceModel {
            instances: Map::new(
                |i: Seq<char>| service.instances.contains_key(i),
                |i: Seq<char>|
                    InstanceModel {
                        status: self.metrics_status(service_id, i, now, timeout_ns, irregular),
                        ..service.instances[i]
                    },
            ),
            ..service
        }
    }

    /// The registry with every status as the metrics reports speak for.
    pub open spec fn evaluated(
        self,
        now: Timestamp,
        timeout_ns: u128,
        irregular: Set<Seq<char>>,
    ) -> RegistryModel {
        RegistryModel {
            services: Map::new(
                |s: Seq<char>| self.services.contains_key(s),
                |s: Seq<char>| self.evaluated_service(s, now, timeout_ns, irregular),
            ),
            ..self
        }
    }

    /// Whether an instance is down and was last heard of longer ago than the timeout.
    pub open spec fn is_stale(
        self,
        service_id: Seq<char>,
        instance_id: Seq<char>,
        now: Timestamp,
        timeout_ns: u128,
    ) -> bool {
        &&& self.has_instance(service_id, instance_id)
        &&& self.instance(service_id, instance_id).status == InstanceStatus::Down
        &&& now.ns_since(self.instance(service_id, instance_id).last_heartbeat_utc) > timeout_ns
    }

    /// The stale instances, each as the ids of its service and its own.
    pub open spec fn stale(self, now: Timestamp, timeout_ns: u128) -> Set<(Seq<char>, Seq<char>)> {
        Set::new(|p: (Seq<char>, Seq<char>)| self.is_stale(p.0, p.1, now, timeout_ns))
    }

    /// The registry without some instances and their health data.
    pub open spec fn without(self, gone: Set<(Seq<char>, Seq<char>)>) -> RegistryModel {
        RegistryModel {
            services: Map::new(
                |s: Seq<char>| self.services.contains_key(s),
                |s: Seq<char>|
                    ServiceModel {
                        instances: Map::new(
                            |i: Seq<char>|
                                self.services[s].instances.contains_key(i) && !gone.contains((s, i)),
                            |i: Seq<char>| self.services[s].instances[i],
                        ),
                        ..self.services[s]
                    },
            ),
            heartbeats: Map::new(
                |k: Seq<char>| self.heartbeats.contains_key(k) && !is_key_of(k, gone),
                |k: Seq<char>| self.heartbeats[k],
            ),
            failures: Map::new(
                |k: Seq<char>| self.failures.contains_key(k) && !is_key_of(k, gone),
                |k: Seq<char>| self.failures[k],
            ),
            ..self
        }
    }

    /// The registry without its stale instances and their health data.
    pub open spec fn swept(self, now: Timestamp, timeout_ns: u128) -> RegistryModel {
        self.without(self.stale(now, timeout_ns))
    }

    /// Taking one more instance out is deregistering it.
    proof fn without_one_more(
        self,
        gone: Set<(Seq<char>, Seq<char>)>,
        service_id: Seq<char>,
        instance_id: Seq<char>,
    )
        requires
            self.has_instance(service_id, instance_id),
        ensures
            self.without(gone.insert((service_id, instance_id))) == self.without(gone).deregistered(
                service_id,
                instance_id,
            ),
    {
        let pair = (service_id, instance_id);
        let more = gone.insert(pair);
        let left = self.without(more);
        let right = self.without(gone).deregistered(service_id, instance_id);
        if gone.contains(pair) {
            assert(more =~= gone);
        } else {
            assert forall|k: Seq<char>|
                is_key_of(k, more) == (is_key_of(k, gone) || k == health_key(
                    service_id,
                    instance_id,
                )) by {
                if is_key_of(k, gone) {
                    let p = choose|p: (Seq<char>, Seq<char>)| #[trigger]
                        gone.contains(p) && k == health_key(p.0, p.1);
                    assert(more.contains(p));
                }
                if k == health_key(service_id, instance_id) {
                    assert(more.contains(pair));
                }
            }
            assert forall|s: Seq<char>| self.services.contains_key(s) implies left.services[s]
                == right.services[s] by {
                assert(left.services[s].instances =~= right.services[s].instances);
            }
            assert(left.services =~= right.services);
            assert(left.heartbeats =~= right.heartbeats);
            assert(left.failures =~= right.failures);
        }
    }
}

/// Whether a health key is that of one of some instances.
pub open spec fn is_key_of(key: Seq<char>, instances: Set<(Seq<char>, Seq<char>)>) -> bool {
    exists|p: (Seq<char>, Seq<char>)| #[trigger] instances.contains(p) && key == health_key(p.0, p.1)
}

/// The views of a list of pairs of strings.
pub open spec fn text_pairs(list: Seq<(String, String)>) -> Seq<(Seq<char>, Seq<char>)> {
    list.map_values(|p: (String, String)| (p.0@, p.1@))
}

/// The in-memory service registry.
pub struct ServiceRegistry {
    services: Table<ServiceDefinition>,
    path_owners: Table<String>,
    metrics_heartbeat: Table<MetricsHeartbeatState>,
    proxy_failure_counts: Table<u32>,
}

impl View for ServiceRegistry {
    type V = RegistryModel;

    closed spec fn view(&self) -> RegistryModel {
        RegistryModel {
            services: self.services@,
            path_owners: self.path_owners@,
            heartbeats: self.metrics_heartbeat@,
            failures: self.proxy_failure_counts@,
        }
    }
}

/// Writes the key under which the health data of an instance are kept.
pub fn metrics_key(service_id: &str, instance_id: &str) -> (key: String)
    ensures
        key@ == health_key(service_id@, instance_id@),
{
    joined3(service_id, ":", instance_id)
}

impl Default for ServiceRegistry {
    fn default() -> (registry: Self)
        ensures
            registry.wf(),
            registry@.services == Map::<Seq<char>, ServiceModel>::empty(),
            registry@.path_owners == Map::<Seq<char>, Seq<char>>::empty(),
            registry@.heartbeats == Map::<Seq<char>, MetricsHeartbeatState>::empty(),
            registry@.failures == Map::<Seq<char>, u32>::empty(),
    {
        ServiceRegistry::new()
    }
}

impl ServiceRegistry {
    /// The tables are in order, and services and instances are found under their own ids.
    pub closed spec fn wf(&self) -> bool {
        &&& self.services.wf()
        &&& self.path_owners.wf()
        &&& self.metrics_heartbeat.wf()
        &&& self.proxy_failure_counts.wf()
        &&& self@.consistent()
    }

    /// In a well-formed registry services and instances are found under their own ids.
    pub proof fn wf_is_consistent(&self)
        requires
            self.wf(),
        ensures
            self@.consistent(),
    {
    }

    /// Creates an empty in-memory service registry.
    pub fn new() -> (registry: Self)
        ensures
            registry.wf(),
            registry@.services == Map::<Seq<char>, ServiceModel>::empty(),
            registry@.path_owners == Map::<Seq<char>, Seq<char>>::empty(),
            registry@.heartbeats == Map::<Seq<char>, MetricsHeartbeatState>::empty(),
            registry@.failures == Map::<Seq<char>, u32>::empty(),
    {
        ServiceRegistry {
            services: Table::new(),
            path_owners: Table::new(),
            metrics_heartbeat: Table::new(),
            proxy_failure_counts: Table::new(),
        }
    }

    /// The first of the prefixes that another service owns, with its owner.
    fn find_collision(&self, prefixes: &Vec<String>, service_id: &str) -> (at: Option<(usize, String)>)
        requires
            self.wf(),
        ensures
            match at {
                Some((i, owner)) => i < prefixes@.len() && i == first_collision(
                    self@.path_owners,
                    texts(prefixes@),
                    service_id@,
                    0,
                ) && owner@ == self@.path_owners[texts(prefixes@)[i as int]],
                None => first_collision(self@.path_owners, texts(prefixes@), service_id@, 0)
                    == prefixes@.len(),
            },
    {
        let mut i: usize = 0;
        while i < prefixes.len()
            invariant
                self.wf(),
                i <= prefixes@.len(),
                first_collision(self@.path_owners, texts(prefixes@), service_id@, 0)
                    == first_collision(self@.path_owners, texts(prefixes@), service_id@, i as int),
            decreases prefixes@.len() - i,
        {
            proof {
                assert(texts(prefixes@)[i as int] == prefixes@[i as int]@);
            }
            if let Some(owner) = self.path_owners.get(prefixes[i].as_str()) {
                if !same_text(owner.as_str(), service_id) {
                    return Some((i, owner.clone()));
                }
            }
            i += 1;
        }
        None
    }

    /// Makes a service the owner of path prefixes.
    fn claim(&mut self, prefixes: &Vec<String>, service_id: &str)
        requires
            old(self).wf(),
        ensures
            final(self).wf(),
            final(self)@ == (RegistryModel {
                path_owners: claimed(old(self)@.path_owners, texts(prefixes@), service_id@),
                ..old(self)@
            }),
    {
        let ghost before = self@;
        let ghost p = texts(prefixes@);
        let mut i: usize = 0;
        proof {
            assert(claimed(before.path_owners, p.take(0), service_id@) =~= before.path_owners);
        }
        while i < prefixes.len()
            invariant
                i <= prefixes@.len(),
                p == texts(prefixes@),
                before.consistent(),
                self.wf(),
                self@ == (RegistryModel {
                    path_owners: claimed(before.path_owners, p.take(i as int), service_id@),
                    ..before
                }),
            decreases prefixes@.len() - i,
        {
            self.path_owners.insert(prefixes[i].clone(), service_id.to_owned());
            i += 1;
            proof {
                let done = p.take(i as int);
                assert(done =~= p.take(i - 1).push(p[i - 1]));
                assert(done[i - 1] == p[i - 1]);
                assert forall|q: Seq<char>|
                    done.contains(q) == (p.take(i - 1).contains(q) || q == p[i - 1]) by {
                    if p.take(i - 1).contains(q) {
                        let j = p.take(i - 1).index_of(q);
                        assert(done[j] == q);
                    }
                }
                assert(claimed(before.path_owners, done, service_id@) =~= claimed(
                    before.path_owners,
                    p.take(i - 1),
                    service_id@,
                ).insert(p[i - 1], service_id@));
                before.consistent_by_services(self@);
            }
        }
        proof {
            assert(p.take(p.len() as int) =~= p);
        }
    }

    /// Registers a service instance and reserves declared route prefixes.
    ///
    /// `fresh_id` becomes the id of the instance where the request gives none,
    /// `token` the token that is issued, and `now` the time of registration.
    pub fn register_at(
        &mut self,
        request: RegistrationRequest,
        fresh_id: String,
        token: String,
        now: Timestamp,
    ) -> (result: RegistrationResult)
        requires
            old(self).wf(),
        ensures
            final(self).wf(),
            (final(self)@, result@) == old(self)@.registered(request, fresh_id@, token@, now),
    {
        let ghost before = self@;
        let ghost prefixes = texts(request.path_prefixes@);
        if let Some((i, owner)) = self.find_collision(
            &request.path_prefixes,
            request.service_id.as_str(),
        ) {
            let mut message = joined3(
                "Path prefix '",
                request.path_prefixes[i].as_str(),
                "' already owned by service '",
            );
            message.append(owner.as_str());
            message.append("'");
            return RegistrationResult {
                success: false,
                instance_id: None,
                token: None,
                error_code: Some("ROUTE_COLLISION".to_owned()),
                error_message: Some(message),
            };
        }
        self.claim(&request.path_prefixes, request.service_id.as_str());
        let mut service = match self.services.get(request.service_id.as_str()) {
            Some(known) => known.duplicate(),
            None => ServiceDefinition {
                service_id: request.service_id.clone(),
                fingerprint: request.fingerprint.clone(),
                path_prefixes: copy_texts(&request.path_prefixes),
                instances: StringMap::new(),
            },
        };
        if service.fingerprint != request.fingerprint {
            return RegistrationResult {
                success: false,
                instance_id: None,
                token: None,
                error_code: Some("FINGERPRINT_INVALID".to_owned()),
                error_message: Some("Fingerprint mismatch".to_owned()),
            };
        }
        let instance_id = if is_blank(request.instance.instance_id.as_str()) {
            fresh_id
        } else {
            request.instance.instance_id.clone()
        };
        let instance = ServiceInstance {
            instance_id: instance_id.clone(),
            service_id: request.service_id.clone(),
            token: token.clone(),
            scheme: request.instance.scheme.clone(),
            host: request.instance.host.clone(),
            port: request.instance.port,
            weight: request.instance.weight,
            status: InstanceStatus::Up,
            active_connections: 0,
            last_heartbeat_utc: now,
        };
        let ghost target = before.target_service(request);
        proof {
            assert(service@ == target);
        }
        service.instances.insert(instance_id.clone(), instance);
        self.services.insert(request.service_id.clone(), service);
        proof {
            let after = before.registered(request, fresh_id@, token@, now).0;
            assert(self@.services =~= after.services);
            assert forall|s: Seq<char>, i: Seq<char>| #[trigger]
                self@.has_instance(s, i) implies self@.instance(s, i).service_id == s
                && self@.instance(s, i).instance_id == i by {
                if s != request.service_id@ {
                    assert(before.has_instance(s, i));
                } else if i != instance_id@ {
                    assert(before.has_instance(s, i));
                }
            }
        }
        RegistrationResult {
            success: true,
            instance_id: Some(instance_id),
            token: Some(token),
            error_code: None,
            error_message: None,
        }
    }

    /// Registers a service instance and reserves declared route prefixes. The
    /// token, and the id where the request gives none, are drawn at random.
    pub fn register(&mut self, request: RegistrationRequest) -> (result: RegistrationResult)
        requires
            old(self).wf(),
        ensures
            final(self).wf(),
            exists|fresh_id: Seq<char>, token: Seq<char>, now: Timestamp|
                is_uuid(fresh_id, '4') && is_uuid(token, '4') && (final(self)@, result@)
                    == #[trigger] old(self)@.registered(request, fresh_id, token, now),
    {
        let fresh_id = random_uuid();
        let token = random_uuid();
        let now = utc_now();
        self.register_at(request, fresh_id, token, now)
    }
}

impl ServiceRegistry {
    /// Puts an instance in place of the known one of the same ids.
    fn put_instance(&mut self, instance: ServiceInstance)
        requires
            old(self).wf(),
            old(self)@.has_instance(instance.service_id@, instance.instance_id@),
        ensures
            final(self).wf(),
            final(self)@ == old(self)@.with_instance(
                instance.service_id@,
                instance.instance_id@,
                instance@,
            ),
    {
        let ghost before = self@;
        let service_id = instance.service_id.clone();
        let instance_id = instance.instance_id.clone();
        if let Some(service) = self.services.get(service_id.as_str()) {
            let mut service = service.duplicate();
            service.instances.insert(instance_id, instance);
            self.services.insert(service_id, service);
            proof {
                assert(self@.services =~= before.with_instance(
                    instance.service_id@,
                    instance.instance_id@,
                    instance@,
                ).services);
                assert forall|s: Seq<char>, i: Seq<char>| #[trigger]
                    self@.has_instance(s, i) implies self@.instance(s, i).service_id == s
                    && self@.instance(s, i).instance_id == i by {
                    assert(before.has_instance(s, i));
                }
            }
        }
    }

    /// A copy of an instance, if it is known.
    fn find_instance(&self, service_id: &str, instance_id: &str) -> (instance: Option<ServiceInstance>)
        requires
            self.wf(),
        ensures
            instance is Some == self@.has_instance(service_id@, instance_id@),
            instance matches Some(i) ==> i@ == self@.instance(service_id@, instance_id@),
    {
        match self.services.get(service_id) {
            Some(service) => match service.instances.get(instance_id) {
                Some(instance) => Some(instance.duplicate()),
                None => None,
            },
            None => None,
        }
    }

    /// Removes an instance from a service definition.
    pub fn deregister(&mut self, service_id: &str, instance_id: &str) -> (removed: bool)
        requires
            old(self).wf(),
        ensures
            final(self).wf(),
            removed == old(self)@.has_instance(service_id@, instance_id@),
            final(self)@ == old(self)@.deregistered(service_id@, instance_id@),
    {
        let ghost before = self@;
        if let Some(service) = self.services.get(service_id) {
            let mut service = service.duplicate();
            if service.instances.remove(instance_id).is_some() {
                self.services.insert(service_id.to_owned(), service);
                let key = metrics_key(service_id, instance_id);
                self.metrics_heartbeat.remove(key.as_str());
                self.proxy_failure_counts.remove(key.as_str());
                proof {
                    assert(self@.services =~= before.deregistered(service_id@, instance_id@).services);
                    assert forall|s: Seq<char>, i: Seq<char>| #[trigger]
                        self@.has_instance(s, i) implies self@.instance(s, i).service_id == s
                        && self@.instance(s, i).instance_id == i by {
                        assert(before.has_instance(s, i));
                    }
                }
                return true;
            }
        }
        false
    }

    /// Records that an instance is alive. Returns whether it is registered.
    pub fn heartbeat_at(&mut self, service_id: &str, instance_id: &str, now: Timestamp) -> (known: bool)
        requires
            old(self).wf(),
        ensures
            final(self).wf(),
            known == old(self)@.has_instance(service_id@, instance_id@),
            final(self)@ == old(self)@.heard(service_id@, instance_id@, now),
    {
        match self.find_instance(service_id, instance_id) {
            Some(mut instance) => {
                instance.last_heartbeat_utc = now;
                self.put_instance(instance);
                true
            },
            None => false,
        }
    }

    /// Records that an instance is alive at the current time. Returns whether it is registered.
    pub fn heartbeat(&mut self, service_id: &str, instance_id: &str) -> (known: bool)
        requires
            old(self).wf(),
        ensures
            final(self).wf(),
            known == old(self)@.has_instance(service_id@, instance_id@),
            exists|now: Timestamp|
                final(self)@ == #[trigger] old(self)@.heard(service_id@, instance_id@, now),
    {
        let now = utc_now();
        self.heartbeat_at(service_id, instance_id, now)
    }

    /// Records one metrics heartbeat sample emitted by an instance.
    ///
    /// This sample stream is used to derive liveness and heartbeat regularity.
    /// An instance that is not registered gives no sample.
    pub fn record_metrics_heartbeat_at(
        &mut self,
        service_id: &str,
        instance_id: &str,
        now: Timestamp,
    ) -> (sample: Option<HeartbeatSample>)
        requires
            old(self).wf(),
            old(self)@.heartbeats.contains_key(health_key(service_id@, instance_id@))
                ==> old(self)@.heartbeats[health_key(service_id@, instance_id@)].sample_count
                < u64::MAX,
        ensures
            final(self).wf(),
            final(self)@ == old(self)@.metrics_heard(service_id@, instance_id@, now),
            sample == old(self)@.sample(service_id@, instance_id@, now),
    {
        let ghost before = self@;
        if !self.heartbeat_at(service_id, instance_id, now) {
            return None;
        }
        let key = metrics_key(service_id, instance_id);
        let known = match self.metrics_heartbeat.get(key.as_str()) {
            Some(state) => Some(*state),
            None => None,
        };
        let (sample_count, interval_ms): (u64, u128) = match known {
            Some(state) => {
                let elapsed: u128 = now.millis_since(state.last_seen_utc);
                (
                    state.sample_count + 1,
                    if elapsed < 1 {
                        1
                    } else {
                        elapsed
                    },
                )
            },
            None => (1, 0),
        };
        let ghost heard = self@;
        self.metrics_heartbeat.insert(
            key,
            MetricsHeartbeatState { last_seen_utc: now, sample_count },
        );
        proof {
            heard.consistent_by_services(self@);
        }
        Some(HeartbeatSample { sample_count, interval_ms })
    }

    /// Records one metrics heartbeat sample emitted by an instance at the current time.
    pub fn record_metrics_heartbeat(&mut self, service_id: &str, instance_id: &str) -> (sample: Option<
        HeartbeatSample,
    >)
        requires
            old(self).wf(),
            old(self)@.heartbeats.contains_key(health_key(service_id@, instance_id@))
                ==> old(self)@.heartbeats[health_key(service_id@, instance_id@)].sample_count
                < u64::MAX,
        ensures
            final(self).wf(),
            exists|now: Timestamp|
                final(self)@ == #[trigger] old(self)@.metrics_heard(service_id@, instance_id@, now)
                    && sample == old(self)@.sample(service_id@, instance_id@, now),
    {
        let now = utc_now();
        self.record_metrics_heartbeat_at(service_id, instance_id, now)
    }

    /// The metrics cadence of an instance, where it has reported.
    pub fn metrics_heartbeat(&self, service_id: &str, instance_id: &str) -> (state: Option<
        MetricsHeartbeatState,
    >)
        requires
            self.wf(),
        ensures
            state is Some == self@.heartbeats.contains_key(health_key(service_id@, instance_id@)),
            state matches Some(s) ==> s == self@.heartbeats[health_key(service_id@, instance_id@)],
    {
        match self.metrics_heartbeat.get(metrics_key(service_id, instance_id).as_str()) {
            Some(state) => Some(*state),
            None => None,
        }
    }

    /// The status that the metrics reports of one instance speak for. `irregular`
    /// tells whether their intervals vary or gape too much; with fewer than five
    /// reports that counts for nothing.
    pub fn evaluate_instance_metrics_health(
        now: Timestamp,
        timeout_ns: u128,
        heartbeat: Option<MetricsHeartbeatState>,
        irregular: bool,
    ) -> (status: InstanceStatus)
        ensures
            status == (match heartbeat {
                None => InstanceStatus::Down,
                Some(state) => if now.ms_since(state.last_seen_utc) > timeout_ns as int / 1_000_000 {
                    InstanceStatus::Down
                } else if irregular && has_baseline(state) {
                    InstanceStatus::Degraded
                } else {
                    InstanceStatus::Up
                },
            }),
    {
        match heartbeat {
            None => InstanceStatus::Down,
            Some(state) => {
                if now.millis_since(state.last_seen_utc) > timeout_ns / 1_000_000 {
                    InstanceStatus::Down
                } else if irregular && state.sample_count >= 5 {
                    InstanceStatus::Degraded
                } else {
                    InstanceStatus::Up
                }
            },
        }
    }

    /// The instances of a service with the statuses that their reports speak for.
    fn evaluate_service(
        &self,
        service: &ServiceDefinition,
        now: Timestamp,
        timeout_ns: u128,
        irregular: &Vec<String>,
    ) -> (evaluated: ServiceDefinition)
        requires
            self.wf(),
            self@.services.contains_key(service.service_id@),
            self@.services[service.service_id@] == service@,
        ensures
            evaluated@ == self@.evaluated_service(
                service.service_id@,
                now,
                timeout_ns,
                texts(irregular@).to_set(),
            ),
    {
        let ghost verdicts = texts(irregular@).to_set();
        let ghost s = service.service_id@;
        let mut instances: StringMap<ServiceInstance> = StringMap::new();
        let n = service.instances.len();
        let ghost order = service.instances.order();
        let mut i: usize = 0;
        while i < n
            invariant
                self.wf(),
                self@.services.contains_key(s),
                self@.services[s] == service@,
                i <= n == order.len(),
                order == service.instances.order(),
                order.to_set() == service.instances@.dom(),
                verdicts == texts(irregular@).to_set(),
                s == service.service_id@,
                forall|k: Seq<char>| #[trigger]
                    instances@.contains_key(k) <==> order.take(i as int).contains(k),
                forall|k: Seq<char>| #[trigger]
                    instances@.contains_key(k) ==> instances@[k] == (InstanceModel {
                        status: self@.metrics_status(s, k, now, timeout_ns, verdicts),
                        ..service.instances@[k]
                    }),
            decreases n - i,
        {
            let mut instance = service.instances.value_at(i).duplicate();
            proof {
                assert(order.to_set().contains(order[i as int]));
                assert(self@.has_instance(s, order[i as int]));
            }
            let key = metrics_key(instance.service_id.as_str(), instance.instance_id.as_str());
            let heartbeat = match self.metrics_heartbeat.get(key.as_str()) {
                Some(state) => Some(*state),
                None => None,
            };
            let verdict = list_holds(irregular, key.as_str());
            instance.status = Self::evaluate_instance_metrics_health(
                now,
                timeout_ns,
                heartbeat,
                verdict,
            );
            instances.insert(service.instances.key_at(i).clone(), instance);
            i += 1;
            proof {
                let done = order.take(i as int);
                assert(done =~= order.take(i - 1).push(order[i - 1]));
                assert forall|k: Seq<char>|
                    done.contains(k) == (order.take(i - 1).contains(k) || k == order[i - 1]) by {
                    if order.take(i - 1).contains(k) {
                        let j = order.take(i - 1).index_of(k);
                        assert(done[j] == k);
                    }
                    assert(done[i - 1] == order[i - 1]);
                }
            }
        }
        proof {
            assert(order.take(n as int) =~= order);
            assert forall|k: Seq<char>| instances@.contains_key(k) == service.instances@.contains_key(
                k,
            ) by {
                assert(order.to_set().contains(k) == order.contains(k));
            }
            assert(instances@ =~= self@.evaluated_service(s, now, timeout_ns, verdicts).instances);
        }
        ServiceDefinition {
            service_id: service.service_id.clone(),
            fingerprint: service.fingerprint.clone(),
            path_prefixes: copy_texts(&service.path_prefixes),
            instances,
        }
    }

    /// Recomputes instance health from metrics, heartbeat recency and regularity.
    ///
    /// - `Down` when heartbeat stops beyond timeout
    /// - `Degraded` when heartbeat becomes irregular (high jitter)
    /// - `Up` when cadence is recent and stable
    ///
    /// `irregular` lists the health keys of the instances whose cadence has been
    /// judged irregular.
    pub fn evaluate_metrics_health_at(
        &mut self,
        now: Timestamp,
        timeout_ns: u128,
        irregular: &Vec<String>,
    )
        requires
            old(self).wf(),
        ensures
            final(self).wf(),
            final(self)@ == old(self)@.evaluated(now, timeout_ns, texts(irregular@).to_set()),
    {
        let ghost before = self@;
        let ghost verdicts = texts(irregular@).to_set();
        let n = self.services.len();
        let ghost order = self.services.order();
        let mut i: usize = 0;
        while i < n
            invariant
                self.wf(),
                before.consistent(),
                verdicts == texts(irregular@).to_set(),
                order == self.services.order(),
                i <= n == order.len(),
                order.no_duplicates(),
                order.to_set() == before.services.dom(),
                self@.path_owners == before.path_owners,
                self@.heartbeats == before.heartbeats,
                self@.failures == before.failures,
                self@.services.dom() == before.services.dom(),
                forall|j: int|
                    0 <= j < i ==> self@.services[#[trigger] order[j]] == before.evaluated_service(
                        order[j],
                        now,
                        timeout_ns,
                        verdicts,
                    ),
                forall|j: int|
                    i <= j < n ==> self@.services[#[trigger] order[j]] == before.services[order[j]],
            decreases n - i,
        {
            let ghost now_model = self@;
            let ghost k = order[i as int];
            let service = self.services.value_at(i).duplicate();
            proof {
                assert(order.to_set().contains(k));
                assert(self@.services.contains_key(k));
                assert(now_model.services[k] == before.services[k]);
            }
            let evaluated = self.evaluate_service(&service, now, timeout_ns, irregular);
            proof {
                assert forall|x: Seq<char>| now_model.metrics_status(k, x, now, timeout_ns, verdicts)
                    == before.metrics_status(k, x, now, timeout_ns, verdicts) by {}
                assert(evaluated@.instances =~= before.evaluated_service(
                    k,
                    now,
                    timeout_ns,
                    verdicts,
                ).instances);
                assert(evaluated@ == before.evaluated_service(k, now, timeout_ns, verdicts));
            }
            self.services.insert(service.service_id, evaluated);
            i += 1;
            proof {
                assert(self@.services.dom() =~= before.services.dom());
                assert forall|a: Seq<char>, b: Seq<char>| #[trigger]
                    self@.has_instance(a, b) implies self@.instance(a, b).service_id == a
                    && self@.instance(a, b).instance_id == b by {
                    assert(now_model.has_instance(a, b));
                }
            }
        }
        proof {
            let after = before.evaluated(now, timeout_ns, verdicts);
            assert forall|s: Seq<char>| #[trigger] self@.services.contains_key(s) implies self@.services[s]
                == after.services[s] by {
                assert(order.to_set().contains(s));
                let j = order.index_of(s);
                assert(order[j] == s);
            }
            assert(self@.services =~= after.services);
        }
    }

    /// Recomputes instance health at the current time.
    pub fn evaluate_metrics_health(&mut self, timeout_ns: u128, irregular: &Vec<String>)
        requires
            old(self).wf(),
        ensures
            final(self).wf(),
            exists|now: Timestamp|
                final(self)@ == #[trigger] old(self)@.evaluated(
                    now,
                    timeout_ns,
                    texts(irregular@).to_set(),
                ),
    {
        let now = utc_now();
        self.evaluate_metrics_health_at(now, timeout_ns, irregular)
    }
}

/// A prefix that is owned and begins the path bounds the search from below.
proof fn longest_owner_from(
    owners: Map<Seq<char>, Seq<char>>,
    path: Seq<char>,
    n: int,
    m: int,
)
    requires
        -1 <= m <= n <= path.len(),
        m >= 0 ==> owners.contains_key(path.take(m)),
        forall|j: int| m < j <= n ==> !owners.contains_key(#[trigger] path.take(j)),
    ensures
        m >= 0 ==> longest_owner(owners, path, n) == Some(owners[path.take(m)]),
        m < 0 ==> longest_owner(owners, path, n) is None,
    decreases n - m,
{
    if m < n {
        assert(!owners.contains_key(path.take(n)));
        longest_owner_from(owners, path, n - 1, m);
    }
}

impl ServiceRegistry {
    /// Returns a snapshot of all known services: each once, in no particular order.
    pub fn get_all_services(&self) -> (services: Vec<ServiceDefinition>)
        requires
            self.wf(),
        ensures
            is_listing(services@.map_values(|s: ServiceDefinition| s@), self@.services),
    {
        let mut services: Vec<ServiceDefinition> = Vec::new();
        let n = self.services.len();
        let ghost order = self.services.order();
        let mut i: usize = 0;
        while i < n
            invariant
                self.wf(),
                order == self.services.order(),
                i <= n == order.len(),
                services@.len() == i,
                forall|j: int|
                    0 <= j < i ==> (#[trigger] services@[j])@ == self@.services[order[j]],
            decreases n - i,
        {
            services.push(self.services.value_at(i).duplicate());
            i += 1;
        }
        proof {
            let views = services@.map_values(|s: ServiceDefinition| s@);
            assert(views =~= order.map_values(|k: Seq<char>| self@.services[k]));
            assert(lists_by(views, self@.services, order));
        }
        services
    }

    /// Returns a specific service snapshot if present.
    pub fn get_service(&self, service_id: &str) -> (service: Option<ServiceDefinition>)
        requires
            self.wf(),
        ensures
            service is Some == self@.services.contains_key(service_id@),
            service matches Some(s) ==> s@ == self@.services[service_id@],
    {
        match self.services.get(service_id) {
            Some(service) => Some(service.duplicate()),
            None => None,
        }
    }

    /// Validates a token for an exact service instance pair.
    pub fn validate_instance_token(&self, service_id: &str, instance_id: &str, token: &str) -> (valid:
        bool)
        requires
            self.wf(),
        ensures
            valid == (self@.has_instance(service_id@, instance_id@) && self@.instance(
                service_id@,
                instance_id@,
            ).token == token@),
    {
        match self.services.get(service_id) {
            Some(service) => match service.instances.get(instance_id) {
                Some(instance) => same_text(instance.token.as_str(), token),
                None => false,
            },
            None => false,
        }
    }

    /// Validates a token against any instance of the given service.
    pub fn validate_any_instance_token(&self, service_id: &str, token: &str) -> (valid: bool)
        requires
            self.wf(),
        ensures
            valid == exists|i: Seq<char>| #[trigger]
                self@.has_instance(service_id@, i) && self@.instance(service_id@, i).token == token@,
    {
        if let Some(service) = self.services.get(service_id) {
            let n = service.instances.len();
            let ghost order = service.instances.order();
            let mut k: usize = 0;
            while k < n
                invariant
                    self.wf(),
                    self@.services.contains_key(service_id@),
                    service@ == self@.services[service_id@],
                    order == service.instances.order(),
                    order.to_set() == service.instances@.dom(),
                    k <= n == order.len(),
                    forall|j: int|
                        0 <= j < k ==> service.instances@[#[trigger] order[j]].token != token@,
                decreases n - k,
            {
                proof {
                    assert(order.to_set().contains(order[k as int]));
                    assert(self@.has_instance(service_id@, order[k as int]));
                }
                if same_text(service.instances.value_at(k).token.as_str(), token) {
                    return true;
                }
                k += 1;
            }
            proof {
                assert forall|i: Seq<char>| #[trigger]
                    self@.has_instance(service_id@, i) implies self@.instance(service_id@, i).token
                    != token@ by {
                    assert(order.to_set().contains(i));
                    let j = order.index_of(i);
                    assert(order[j] == i);
                }
            }
        }
        false
    }

    /// Binds a path prefix to a service identifier for proxy resolution.
    pub fn bind_path_prefix(&mut self, path_prefix: String, service_id: String)
        requires
            old(self).wf(),
        ensures
            final(self).wf(),
            final(self)@ == (RegistryModel {
                path_owners: old(self)@.path_owners.insert(path_prefix@, service_id@),
                ..old(self)@
            }),
    {
        self.path_owners.insert(path_prefix, service_id);
        proof {
            old(self)@.consistent_by_services(self@);
        }
    }

    /// Resolves the best-matching service by the longest owned path prefix.
    pub fn resolve_service_by_path(&self, path: &str) -> (service_id: Option<String>)
        requires
            self.wf(),
        ensures
            optional_text(service_id) == longest_owner(self@.path_owners, path@, path@.len() as int),
    {
        let ghost owners = self@.path_owners;
        let ghost order = self.path_owners.order();
        let n = self.path_owners.len();
        let mut best: Option<usize> = None;
        let mut i: usize = 0;
        while i < n
            invariant
                self.wf(),
                owners == self@.path_owners,
                order == self.path_owners.order(),
                order.to_set() == owners.dom(),
                i <= n == order.len(),
                best matches Some(b) ==> b < i && order[b as int].is_prefix_of(path@),
                forall|j: int|
                    0 <= j < i && (#[trigger] order[j]).is_prefix_of(path@) ==> best is Some
                        && order[j].len() <= order[best->0 as int].len(),
            decreases n - i,
        {
            let key = self.path_owners.key_at(i);
            if text_starts_with(path, key.as_str()) {
                match best {
                    None => {
                        best = Some(i);
                    },
                    Some(b) => {
                        let known = self.path_owners.key_at(b);
                        if key.as_str().unicode_len() >= known.as_str().unicode_len() {
                            best = Some(i);
                        }
                    },
                }
            }
            i += 1;
        }
        proof {
            assert forall|j: int| 0 <= j <= path@.len() && owners.contains_key(
                #[trigger] path@.take(j),
            ) implies best is Some && j <= order[best->0 as int].len() by {
                assert(order.to_set().contains(path@.take(j)));
                let k = order.index_of(path@.take(j));
                assert(order[k] == path@.take(j));
                assert(order[k].is_prefix_of(path@));
            }
            match best {
                Some(b) => {
                    let key = order[b as int];
                    assert(order.to_set().contains(key));
                    assert(key == path@.take(key.len() as int));
                    longest_owner_from(owners, path@, path@.len() as int, key.len() as int);
                },
                None => {
                    longest_owner_from(owners, path@, path@.len() as int, -1);
                },
            }
        }
        match best {
            Some(b) => Some(self.path_owners.value_at(b).clone()),
            None => None,
        }
    }

    /// Updates an instance health status, refreshing heartbeat when moving to `Up`.
    pub fn update_instance_status_at(
        &mut self,
        service_id: &str,
        instance_id: &str,
        status: InstanceStatus,
        now: Timestamp,
    )
        requires
            old(self).wf(),
        ensures
            final(self).wf(),
            final(self)@ == old(self)@.status_set(service_id@, instance_id@, status, now),
    {
        let ghost before = self@;
        if let Some(mut instance) = self.find_instance(service_id, instance_id) {
            instance.status = status;
            if status == InstanceStatus::Up {
                instance.last_heartbeat_utc = now;
            }
            self.put_instance(instance);
            let ghost placed = self@;
            if status == InstanceStatus::Up || status == InstanceStatus::Down {
                // An explicit transition ends the run of proxy failures.
                self.proxy_failure_counts.remove(metrics_key(service_id, instance_id).as_str());
            }
            proof {
                placed.consistent_by_services(self@);
            }
        }
    }

    /// Updates an instance health status at the current time.
    pub fn update_instance_status(
        &mut self,
        service_id: &str,
        instance_id: &str,
        status: InstanceStatus,
    )
        requires
            old(self).wf(),
        ensures
            final(self).wf(),
            exists|now: Timestamp|
                final(self)@ == #[trigger] old(self)@.status_set(
                    service_id@,
                    instance_id@,
                    status,
                    now,
                ),
    {
        let now = utc_now();
        self.update_instance_status_at(service_id, instance_id, status, now)
    }

    /// Returns the current consecutive proxy failure count for an instance.
    pub fn proxy_failure_count(&self, service_id: &str, instance_id: &str) -> (count: u32)
        requires
            self.wf(),
        ensures
            count == self@.failure_count(service_id@, instance_id@),
    {
        match self.proxy_failure_counts.get(metrics_key(service_id, instance_id).as_str()) {
            Some(count) => *count,
            None => 0,
        }
    }

    /// Records a proxy failure for an instance when connection-health is disabled.
    ///
    /// Increments the consecutive failure counter and marks the instance `Down`
    /// once `threshold` consecutive unreachable attempts are observed.
    /// Returns `true` if this call transitioned the instance to `Down`.
    pub fn record_proxy_failure(&mut self, service_id: &str, instance_id: &str, threshold: u32) -> (down:
        bool)
        requires
            old(self).wf(),
            old(self)@.failure_count(service_id@, instance_id@) < u32::MAX,
        ensures
            final(self).wf(),
            down == old(self)@.failure_takes_down(service_id@, instance_id@, threshold),
            final(self)@ == old(self)@.proxy_failed(service_id@, instance_id@, threshold),
    {
        let ghost before = self@;
        let limit: u32 = if threshold == 0 {
            1
        } else {
            threshold
        };
        let count: u32 = self.proxy_failure_count(service_id, instance_id) + 1;
        self.proxy_failure_counts.insert(metrics_key(service_id, instance_id), count);
        proof {
            before.consistent_by_services(self@);
            assert(self@.has_instance(service_id@, instance_id@) == before.has_instance(
                service_id@,
                instance_id@,
            ));
        }
        if count >= limit {
            if let Some(mut instance) = self.find_instance(service_id, instance_id) {
                if instance.status != InstanceStatus::Down {
                    instance.status = InstanceStatus::Down;
                    self.put_instance(instance);
                    return true;
                }
            }
        }
        false
    }

    /// Records a successful proxy attempt, resetting the consecutive failure counter
    /// and ensuring the instance is `Up`.
    pub fn record_proxy_success_at(&mut self, service_id: &str, instance_id: &str, now: Timestamp)
        requires
            old(self).wf(),
        ensures
            final(self).wf(),
            final(self)@ == old(self)@.proxy_succeeded(service_id@, instance_id@, now),
    {
        let ghost before = self@;
        self.proxy_failure_counts.remove(metrics_key(service_id, instance_id).as_str());
        proof {
            before.consistent_by_services(self@);
            assert(self@.has_instance(service_id@, instance_id@) == before.has_instance(
                service_id@,
                instance_id@,
            ));
        }
        if let Some(mut instance) = self.find_instance(service_id, instance_id) {
            if instance.status != InstanceStatus::Up {
                instance.status = InstanceStatus::Up;
                instance.last_heartbeat_utc = now;
                self.put_instance(instance);
            }
        }
    }

    /// Records a successful proxy attempt at the current time.
    pub fn record_proxy_success(&mut self, service_id: &str, instance_id: &str)
        requires
            old(self).wf(),
        ensures
            final(self).wf(),
            exists|now: Timestamp|
                final(self)@ == #[trigger] old(self)@.proxy_succeeded(service_id@, instance_id@, now),
    {
        let now = utc_now();
        self.record_proxy_success_at(service_id, instance_id, now)
    }
}

impl ServiceRegistry {
    /// The stale instances among those of one service.
    fn stale_of_service(
        &self,
        service: &ServiceDefinition,
        now: Timestamp,
        timeout_ns: u128,
        found: &mut Vec<(String, String)>,
    )
        requires
            self.wf(),
            self@.services.contains_key(service.service_id@),
            self@.services[service.service_id@] == service@,
        ensures
            forall|p: (Seq<char>, Seq<char>)| #[trigger]
                text_pairs(final(found)@).contains(p) <==> text_pairs(old(found)@).contains(p)
                    || (p.0 == service.service_id@ && self@.is_stale(p.0, p.1, now, timeout_ns)),
    {
        let ghost s = service.service_id@;
        let ghost start = text_pairs(found@);
        let n = service.instances.len();
        let ghost order = service.instances.order();
        let mut i: usize = 0;
        while i < n
            invariant
                self.wf(),
                self@.services.contains_key(s),
                self@.services[s] == service@,
                s == service.service_id@,
                order == service.instances.order(),
                order.to_set() == service.instances@.dom(),
                i <= n == order.len(),
                forall|p: (Seq<char>, Seq<char>)| #[trigger]
                    text_pairs(found@).contains(p) <==> start.contains(p) || (p.0 == s
                        && order.take(i as int).contains(p.1) && self@.is_stale(
                        p.0,
                        p.1,
                        now,
                        timeout_ns,
                    )),
            decreases n - i,
        {
            let ghost k = order[i as int];
            let ghost before = text_pairs(found@);
            let instance = service.instances.value_at(i);
            proof {
                assert(order.to_set().contains(k));
                assert(self@.has_instance(s, k));
            }
            let ghost mut added = false;
            if instance.status == InstanceStatus::Down && now.nanos_since(instance.last_heartbeat_utc)
                > timeout_ns {
                found.push((instance.service_id.clone(), instance.instance_id.clone()));
                proof {
                    added = true;
                    assert(text_pairs(found@) =~= before.push((s, k)));
                }
            }
            proof {
                assert(added == self@.is_stale(s, k, now, timeout_ns));
                let now_found = text_pairs(found@);
                let done = order.take(i + 1);
                assert(done =~= order.take(i as int).push(k));
                assert forall|p: (Seq<char>, Seq<char>)| #[trigger]
                    now_found.contains(p) <==> start.contains(p) || (p.0 == s && done.contains(p.1)
                        && self@.is_stale(p.0, p.1, now, timeout_ns)) by {
                    assert(now_found.contains(p) == (before.contains(p) || (added && p == (s, k)))) by {
                        if added {
                            if before.contains(p) {
                                let j = before.index_of(p);
                                assert(now_found[j] == p);
                            }
                            assert(now_found[before.len() as int] == (s, k));
                        }
                    }
                    assert(done.contains(p.1) == (order.take(i as int).contains(p.1) || p.1 == k)) by {
                        if order.take(i as int).contains(p.1) {
                            let j = order.take(i as int).index_of(p.1);
                            assert(done[j] == p.1);
                        }
                        assert(done[i as int] == k);
                    }
                }
            }
            i += 1;
        }
        proof {
            assert(order.take(n as int) =~= order);
            assert forall|p: (Seq<char>, Seq<char>)| #[trigger]
                text_pairs(found@).contains(p) <==> start.contains(p) || (p.0 == s && self@.is_stale(
                    p.0,
                    p.1,
                    now,
                    timeout_ns,
                )) by {
                if p.0 == s && self@.is_stale(p.0, p.1, now, timeout_ns) {
                    assert(order.to_set().contains(p.1));
                }
            }
        }
    }

    /// The stale instances of all services.
    fn find_stale(&self, now: Timestamp, timeout_ns: u128) -> (found: Vec<(String, String)>)
        requires
            self.wf(),
        ensures
            text_pairs(found@).to_set() == self@.stale(now, timeout_ns),
    {
        let mut found: Vec<(String, String)> = Vec::new();
        let n = self.services.len();
        let ghost order = self.services.order();
        let mut i: usize = 0;
        while i < n
            invariant
                self.wf(),
                order == self.services.order(),
                order.to_set() == self@.services.dom(),
                i <= n == order.len(),
                forall|p: (Seq<char>, Seq<char>)| #[trigger]
                    text_pairs(found@).contains(p) <==> order.take(i as int).contains(p.0)
                        && self@.is_stale(p.0, p.1, now, timeout_ns),
            decreases n - i,
        {
            let ghost k = order[i as int];
            proof {
                assert(order.to_set().contains(k));
                assert(self@.services.contains_key(k));
            }
            let service = self.services.value_at(i);
            self.stale_of_service(service, now, timeout_ns, &mut found);
            i += 1;
            proof {
                let done = order.take(i as int);
                assert(done =~= order.take(i - 1).push(k));
                assert forall|x: Seq<char>|
                    done.contains(x) == (order.take(i - 1).contains(x) || x == k) by {
                    if order.take(i - 1).contains(x) {
                        let j = order.take(i - 1).index_of(x);
                        assert(done[j] == x);
                    }
                    assert(done[i - 1] == k);
                }
            }
        }
        proof {
            assert(order.take(n as int) =~= order);
            assert forall|p: (Seq<char>, Seq<char>)| #[trigger]
                text_pairs(found@).to_set().contains(p) == self@.stale(now, timeout_ns).contains(p) by {
                if self@.is_stale(p.0, p.1, now, timeout_ns) {
                    assert(order.to_set().contains(p.0));
                }
            }
            assert(text_pairs(found@).to_set() =~= self@.stale(now, timeout_ns));
        }
        found
    }

    /// Removes down instances that exceeded the configured timeout.
    pub fn remove_stale_instances_at(&mut self, now: Timestamp, timeout_ns: u128)
        requires
            old(self).wf(),
        ensures
            final(self).wf(),
            final(self)@ == old(self)@.swept(now, timeout_ns),
    {
        let ghost before = self@;
        let found = self.find_stale(now, timeout_ns);
        let ghost pairs = text_pairs(found@);
        let mut i: usize = 0;
        proof {
            let none = pairs.take(0).to_set();
            assert(none =~= Set::<(Seq<char>, Seq<char>)>::empty());
            let same = before.without(none);
            assert forall|s: Seq<char>| before.services.contains_key(s) implies same.services[s]
                == before.services[s] by {
                assert(same.services[s].instances =~= before.services[s].instances);
            }
            assert(same.services =~= before.services);
            assert(same.heartbeats =~= before.heartbeats);
            assert(same.failures =~= before.failures);
        }
        while i < found.len()
            invariant
                self.wf(),
                i <= found@.len(),
                pairs == text_pairs(found@),
                pairs.to_set() == before.stale(now, timeout_ns),
                self@ == before.without(pairs.take(i as int).to_set()),
            decreases found@.len() - i,
        {
            proof {
                let p = pairs[i as int];
                assert(pairs.to_set().contains(p));
                assert(before.is_stale(p.0, p.1, now, timeout_ns));
                before.without_one_more(pairs.take(i as int).to_set(), p.0, p.1);
                let done = pairs.take(i + 1);
                assert(done =~= pairs.take(i as int).push(p));
                assert(done.to_set() =~= pairs.take(i as int).to_set().insert(p)) by {
                    assert forall|q: (Seq<char>, Seq<char>)|
                        done.contains(q) == (pairs.take(i as int).contains(q) || q == p) by {
                        if pairs.take(i as int).contains(q) {
                            let j = pairs.take(i as int).index_of(q);
                            assert(done[j] == q);
                        }
                        assert(done[i as int] == p);
                    }
                }
            }
            self.deregister(found[i].0.as_str(), found[i].1.as_str());
            i += 1;
        }
        proof {
            assert(pairs.take(pairs.len() as int) =~= pairs);
        }
    }

    /// Removes down instances that exceeded the configured timeout by the current time.
    pub fn remove_stale_instances(&mut self, timeout_ns: u128)
        requires
            old(self).wf(),
        ensures
            final(self).wf(),
            exists|now: Timestamp|
                final(self)@ == #[trigger] old(self)@.swept(now, timeout_ns),
    {
        let now = utc_now();
        self.remove_stale_instances_at(now, timeout_ns)
    }
}

/// Nothing of a registration result is lost in its model.
pub proof fn result_models_hold_every_field(result: RegistrationResult)
    ensures
        result@.success == result.success,
        result@.instance_id is Some == result.instance_id is Some,
        result.instance_id matches Some(id) ==> result@.instance_id == Some(id@),
        result@.token is Some == result.token is Some,
        result.token matches Some(token) ==> result@.token == Some(token@),
        result@.error_code is Some == result.error_code is Some,
        result.error_code matches Some(code) ==> result@.error_code == Some(code@),
        result@.error_message is Some == result.error_message is Some,
        result.error_message matches Some(message) ==> result@.error_message == Some(message@),
{
}

} // verus!
