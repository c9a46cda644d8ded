//! What holds across the operations of the registry.

use crate::clock::Timestamp;
use crate::config::GatewayConfig;
use crate::models::{InstanceModel, InstanceStatus, RegistrationRequest};
use crate::registry::maintenance::maintained;
use crate::registry::{
    first_collision, health_key, is_key_of, longest_owner, registered_id, RegistryModel,
};
use crate::text::{is_space, texts};
use crate::text_laws::blank_is_white_space;
use vstd::prelude::*;

verus! {

proof fn first_collision_is_first(
    owners: Map<Seq<char>, Seq<char>>,
    prefixes: Seq<Seq<char>>,
    service_id: Seq<char>,
    from: int,
)
    requires
        0 <= from <= prefixes.len(),
    ensures
        from <= first_collision(owners, prefixes, service_id, from) <= prefixes.len(),
        ({
            let at = first_collision(owners, prefixes, service_id, from);
            at < prefixes.len() ==> owners.contains_key(prefixes[at]) && owners[prefixes[at]]
                != service_id
        }),
        forall|j: int|
            from <= j < first_collision(owners, prefixes, service_id, from) && owners.contains_key(
                #[trigger] prefixes[j],
            ) ==> owners[prefixes[j]] == service_id,
    decreases prefixes.len() - from,
{
    if from < prefixes.len() {
        first_collision_is_first(owners, prefixes, service_id, from + 1);
    }
}

/// A registration is refused for a collision exactly when another service owns
/// one of its prefixes, and then it leaves the registry as it was.
pub proof fn collision_refuses_and_changes_nothing(
    registry: RegistryModel,
    request: RegistrationRequest,
    fresh_id: Seq<char>,
    token: Seq<char>,
    now: Timestamp,
)
    ensures
        ({
            let (after, outcome) = registry.registered(request, fresh_id, token, now);
            let collides = exists|j: int|
                0 <= j < request.path_prefixes@.len() && registry.path_owners.contains_key(
                    (#[trigger] request.path_prefixes@[j])@,
                ) && registry.path_owners[request.path_prefixes@[j]@] != request.service_id@;
            &&& collides <==> outcome.error_code == Some("ROUTE_COLLISION"@)
            &&& collides ==> after == registry && !outcome.success
        }),
{
    let prefixes = texts(request.path_prefixes@);
    reveal_strlit("ROUTE_COLLISION");
    reveal_strlit("FINGERPRINT_INVALID");
    assert("ROUTE_COLLISION"@.len() != "FINGERPRINT_INVALID"@.len());
    let at = first_collision(registry.path_owners, prefixes, request.service_id@, 0);
    first_collision_is_first(registry.path_owners, prefixes, request.service_id@, 0);
    assert(forall|j: int|
        0 <= j < prefixes.len() ==> #[trigger] prefixes[j] == request.path_prefixes@[j]@);
    if at < prefixes.len() {
        assert(prefixes[at] == request.path_prefixes@[at]@);
    }
    assert forall|j: int|
        0 <= j < request.path_prefixes@.len() && registry.path_owners.contains_key(
            (#[trigger] request.path_prefixes@[j])@,
        ) && registry.path_owners[request.path_prefixes@[j]@] != request.service_id@ implies at
        < prefixes.len() by {
        assert(prefixes[j] == request.path_prefixes@[j]@);
    }
}

/// No registration takes a path prefix away from the service that owns it.
pub proof fn registration_takes_no_prefix_away(
    registry: RegistryModel,
    request: RegistrationRequest,
    fresh_id: Seq<char>,
    token: Seq<char>,
    now: Timestamp,
    prefix: Seq<char>,
)
    requires
        registry.path_owners.contains_key(prefix),
    ensures
        ({
            let after = registry.registered(request, fresh_id, token, now).0;
            after.path_owners.contains_key(prefix) && after.path_owners[prefix]
                == registry.path_owners[prefix]
        }),
{
    let prefixes = texts(request.path_prefixes@);
    first_collision_is_first(registry.path_owners, prefixes, request.service_id@, 0);
    if prefixes.contains(prefix) {
        let j = prefixes.index_of(prefix);
        assert(prefixes[j] == prefix);
    }
}

/// A registration leaves the other services as they were.
pub proof fn registration_leaves_other_services(
    registry: RegistryModel,
    request: RegistrationRequest,
    fresh_id: Seq<char>,
    token: Seq<char>,
    now: Timestamp,
    other: Seq<char>,
)
    requires
        other != request.service_id@,
    ensures
        ({
            let after = registry.registered(request, fresh_id, token, now).0;
            &&& after.services.contains_key(other) == registry.services.contains_key(other)
            &&& registry.services.contains_key(other) ==> after.services[other]
                == registry.services[other]
            &&& after.heartbeats == registry.heartbeats
            &&& after.failures == registry.failures
        }),
{
}

/// A successful registration makes the instance known and up, under the id and
/// the token that it reports, and makes its service the owner of all the
/// prefixes that it declared: each of them resolves to the service.
pub proof fn registration_makes_instance_reachable(
    registry: RegistryModel,
    request: RegistrationRequest,
    fresh_id: Seq<char>,
    token: Seq<char>,
    now: Timestamp,
)
    requires
        registry.registered(request, fresh_id, token, now).1.success,
    ensures
        ({
            let (after, outcome) = registry.registered(request, fresh_id, token, now);
            let id = registered_id(request, fresh_id);
            &&& outcome.instance_id == Some(id)
            &&& outcome.token == Some(token)
            &&& after.has_instance(request.service_id@, id)
            &&& after.instance(request.service_id@, id).token == token
            &&& after.instance(request.service_id@, id).status == InstanceStatus::Up
            &&& forall|j: int|
                0 <= j < request.path_prefixes@.len() ==> longest_owner(
                    after.path_owners,
                    (#[trigger] request.path_prefixes@[j])@,
                    request.path_prefixes@[j]@.len() as int,
                ) == Some(request.service_id@)
        }),
{
    let prefixes = texts(request.path_prefixes@);
    let after = registry.registered(request, fresh_id, token, now).0;
    assert forall|j: int| 0 <= j < request.path_prefixes@.len() implies longest_owner(
        after.path_owners,
        (#[trigger] request.path_prefixes@[j])@,
        request.path_prefixes@[j]@.len() as int,
    ) == Some(request.service_id@) by {
        let p = request.path_prefixes@[j]@;
        assert(prefixes[j] == p);
        assert(prefixes.contains(p));
        assert(p.take(p.len() as int) =~= p);
    }
}

/// A wrong fingerprint leaves the services as they were.
pub proof fn wrong_fingerprint_leaves_services(
    registry: RegistryModel,
    request: RegistrationRequest,
    fresh_id: Seq<char>,
    token: Seq<char>,
    now: Timestamp,
)
    requires
        registry.services.contains_key(request.service_id@),
        registry.services[request.service_id@].fingerprint != request.fingerprint@,
    ensures
        !registry.registered(request, fresh_id, token, now).1.success,
        registry.registered(request, fresh_id, token, now).0.services == registry.services,
{
}

/// Deregistering undoes a registration: a known service has the instances that
/// it had before, without the one that was registered.
pub proof fn deregistering_undoes_registration(
    registry: RegistryModel,
    request: RegistrationRequest,
    fresh_id: Seq<char>,
    token: Seq<char>,
    now: Timestamp,
)
    requires
        registry.registered(request, fresh_id, token, now).1.success,
        registry.services.contains_key(request.service_id@),
        !registry.has_instance(request.service_id@, registered_id(request, fresh_id)),
    ensures
        ({
            let id = registered_id(request, fresh_id);
            let after = registry.registered(request, fresh_id, token, now).0.deregistered(
                request.service_id@,
                id,
            );
            &&& after.services == registry.services
            &&& !after.has_instance(request.service_id@, id)
        }),
{
    let id = registered_id(request, fresh_id);
    let service = registry.services[request.service_id@];
    let after = registry.registered(request, fresh_id, token, now).0.deregistered(
        request.service_id@,
        id,
    );
    assert(after.services[request.service_id@].instances =~= service.instances);
    assert(after.services =~= registry.services);
}

/// An instance that has been deregistered is not known any more, so no token is
/// valid for it, and it has no health data.
pub proof fn deregistered_instance_is_gone(
    registry: RegistryModel,
    service_id: Seq<char>,
    instance_id: Seq<char>,
)
    ensures
        ({
            let after = registry.deregistered(service_id, instance_id);
            &&& !after.has_instance(service_id, instance_id)
            &&& registry.has_instance(service_id, instance_id)
                ==> !after.heartbeats.contains_key(health_key(service_id, instance_id))
                && after.failure_count(service_id, instance_id) == 0
        }),
{
}

/// A path resolves to the owner of an owned prefix of it, and no owned prefix of
/// it is longer. It resolves to nothing exactly when no prefix of it is owned.
pub proof fn resolution_takes_longest_prefix(
    owners: Map<Seq<char>, Seq<char>>,
    path: Seq<char>,
)
    ensures
        ({
            let found = longest_owner(owners, path, path.len() as int);
            &&& found is None <==> forall|p: Seq<char>|
                p.is_prefix_of(path) ==> !#[trigger] owners.contains_key(p)
            &&& found matches Some(owner) ==> exists|p: Seq<char>|
                #![trigger owners.contains_key(p)]
                p.is_prefix_of(path) && owners.contains_key(p) && owners[p] == owner && (forall|
                    q: Seq<char>,
                |
                    q.is_prefix_of(path) && #[trigger] owners.contains_key(q) ==> q.len() <= p.len())
        }),
{
    longest_owner_down_to(owners, path, path.len() as int);
    let found = longest_owner(owners, path, path.len() as int);
    match found {
        Some(owner) => {
            let m = choose|m: int|
                0 <= m <= path.len() && owners.contains_key(#[trigger] path.take(m))
                    && owners[path.take(m)] == owner && forall|k: int|
                    m < k <= path.len() ==> !owners.contains_key(#[trigger] path.take(k));
            let p = path.take(m);
            assert(p.is_prefix_of(path));
            assert forall|q: Seq<char>|
                q.is_prefix_of(path) && #[trigger] owners.contains_key(q) implies q.len()
                <= p.len() by {
                assert(q =~= path.take(q.len() as int));
            }
        },
        None => {
            assert forall|p: Seq<char>| p.is_prefix_of(path) implies !#[trigger] owners.contains_key(
                p,
            ) by {
                assert(p =~= path.take(p.len() as int));
            }
        },
    }
}

proof fn longest_owner_down_to(owners: Map<Seq<char>, Seq<char>>, path: Seq<char>, n: int)
    requires
        -1 <= n <= path.len(),
    ensures
        longest_owner(owners, path, n) is None ==> forall|k: int|
            0 <= k <= n ==> !owners.contains_key(#[trigger] path.take(k)),
        longest_owner(owners, path, n) matches Some(owner) ==> exists|m: int|
            0 <= m <= n && owners.contains_key(#[trigger] path.take(m)) && owners[path.take(m)] == owner
                && forall|k: int| m < k <= n ==> !owners.contains_key(#[trigger] path.take(k)),
    decreases n + 1,
{
    if n >= 0 && !owners.contains_key(path.take(n)) {
        longest_owner_down_to(owners, path, n - 1);
        if longest_owner(owners, path, n) is Some {
            let owner = longest_owner(owners, path, n)->0;
            let m = choose|m: int|
                0 <= m <= n - 1 && owners.contains_key(#[trigger] path.take(m))
                    && owners[path.take(m)] == owner && forall|k: int|
                    m < k <= n - 1 ==> !owners.contains_key(#[trigger] path.take(k));
            assert(forall|k: int| m < k <= n ==> !owners.contains_key(#[trigger] path.take(k)));
        }
    } else if n >= 0 {
        assert(owners.contains_key(path.take(n)));
    }
}

/// The registry after `n` proxy failures in a row.
pub open spec fn failed_times(
    registry: RegistryModel,
    service_id: Seq<char>,
    instance_id: Seq<char>,
    threshold: u32,
    n: nat,
) -> RegistryModel
    decreases n,
{
    if n == 0 {
        registry
    } else {
        failed_times(registry, service_id, instance_id, threshold, (n - 1) as nat).proxy_failed(
            service_id,
            instance_id,
            threshold,
        )
    }
}

/// An instance that is not down, and has no failures behind it, goes down with
/// the failure that makes up the threshold, and not before.
pub proof fn threshold_failures_take_instance_down(
    registry: RegistryModel,
    service_id: Seq<char>,
    instance_id: Seq<char>,
    threshold: u32,
    n: nat,
)
    requires
        registry.has_instance(service_id, instance_id),
        registry.instance(service_id, instance_id).status != InstanceStatus::Down,
        registry.failure_count(service_id, instance_id) == 0,
        n <= u32::MAX,
    ensures
        ({
            let after = failed_times(registry, service_id, instance_id, threshold, n);
            let limit: int = if threshold == 0 { 1 } else { threshold as int };
            &&& after.has_instance(service_id, instance_id)
            &&& after.failure_count(service_id, instance_id) == n
            &&& (after.instance(service_id, instance_id).status == InstanceStatus::Down) == (n
                >= limit)
        }),
    decreases n,
{
    if n > 0 {
        threshold_failures_take_instance_down(
            registry,
            service_id,
            instance_id,
            threshold,
            (n - 1) as nat,
        );
    }
}

/// A successful proxy attempt brings a known instance up and ends its run of failures.
pub proof fn success_brings_instance_up(
    registry: RegistryModel,
    service_id: Seq<char>,
    instance_id: Seq<char>,
    now: Timestamp,
)
    ensures
        ({
            let after = registry.proxy_succeeded(service_id, instance_id, now);
            &&& after.failure_count(service_id, instance_id) == 0
            &&& after.has_instance(service_id, instance_id) == registry.has_instance(
                service_id,
                instance_id,
            )
            &&& registry.has_instance(service_id, instance_id) ==> after.instance(
                service_id,
                instance_id,
            ).status == InstanceStatus::Up
        }),
{
}

/// A sweep removes an instance exactly when it is down and was last heard of
/// longer ago than the timeout; what stays is unchanged, and so are the owners.
pub proof fn sweep_removes_exactly_the_stale(
    registry: RegistryModel,
    now: Timestamp,
    timeout_ns: u128,
    service_id: Seq<char>,
    instance_id: Seq<char>,
)
    requires
        registry.has_instance(service_id, instance_id),
    ensures
        ({
            let after = registry.swept(now, timeout_ns);
            let instance = registry.instance(service_id, instance_id);
            &&& after.has_instance(service_id, instance_id) == !(instance.status
                == InstanceStatus::Down && now.ns_since(instance.last_heartbeat_utc) > timeout_ns)
            &&& after.has_instance(service_id, instance_id) ==> after.instance(
                service_id,
                instance_id,
            ) == instance
            &&& after.services.contains_key(service_id)
            &&& after.path_owners == registry.path_owners
        }),
{
}

/// An instance that has never reported metrics is down after an evaluation, and
/// one that has just reported regularly is up.
pub proof fn evaluation_follows_reports(
    registry: RegistryModel,
    service_id: Seq<char>,
    instance_id: Seq<char>,
    now: Timestamp,
    timeout_ns: u128,
    irregular: Set<Seq<char>>,
)
    requires
        registry.has_instance(service_id, instance_id),
    ensures
        !registry.heartbeats.contains_key(health_key(service_id, instance_id))
            ==> registry.evaluated(now, timeout_ns, irregular).instance(service_id, instance_id).status
            == InstanceStatus::Down,
        !irregular.contains(health_key(service_id, instance_id)) ==> registry.metrics_heard(
            service_id,
            instance_id,
            now,
        ).evaluated(now, timeout_ns, irregular).instance(service_id, instance_id).status
            == InstanceStatus::Up,
{
}

/// An instance that has reported fewer than five times is never degraded by an
/// evaluation, however its reports come.
pub proof fn few_reports_never_degrade(
    registry: RegistryModel,
    service_id: Seq<char>,
    instance_id: Seq<char>,
    now: Timestamp,
    timeout_ns: u128,
    irregular: Set<Seq<char>>,
)
    requires
        registry.has_instance(service_id, instance_id),
        ({
            let key = health_key(service_id, instance_id);
            registry.heartbeats.contains_key(key) ==> registry.heartbeats[key].sample_count < 5
        }),
    ensures
        registry.evaluated(now, timeout_ns, irregular).instance(service_id, instance_id).status
            != InstanceStatus::Degraded,
{
}

/// Registering an instance again replaces its token: the old one is valid no more,
/// unless the new one is the same.
pub proof fn registering_again_replaces_the_token(
    registry: RegistryModel,
    request: RegistrationRequest,
    fresh_id: Seq<char>,
    token: Seq<char>,
    now: Timestamp,
    old_token: Seq<char>,
)
    requires
        registry.registered(request, fresh_id, token, now).1.success,
        old_token != token,
    ensures
        ({
            let after = registry.registered(request, fresh_id, token, now).0;
            let id = registered_id(request, fresh_id);
            after.instance(request.service_id@, id).token != old_token
        }),
{
}

/// Where the proxy is in charge of health, upkeep changes no status: an instance
/// that proxy attempts have brought up, or taken down, stays so.
pub proof fn upkeep_respects_the_proxy(
    registry: RegistryModel,
    config: GatewayConfig,
    irregular: Set<Seq<char>>,
    evaluated_at: Timestamp,
    swept_at: Timestamp,
    service_id: Seq<char>,
    instance_id: Seq<char>,
)
    requires
        !config.service_bus.connection_health_enabled,
        maintained(registry, config, irregular, evaluated_at, swept_at).has_instance(
            service_id,
            instance_id,
        ),
    ensures
        maintained(registry, config, irregular, evaluated_at, swept_at).instance(
            service_id,
            instance_id,
        ) == registry.instance(service_id, instance_id),
{
}

/// Setting a status up or down ends the run of proxy failures of an instance;
/// setting it degraded does not.
pub proof fn status_changes_and_failure_runs(
    registry: RegistryModel,
    service_id: Seq<char>,
    instance_id: Seq<char>,
    status: InstanceStatus,
    now: Timestamp,
)
    requires
        registry.has_instance(service_id, instance_id),
    ensures
        ({
            let after = registry.status_set(service_id, instance_id, status, now);
            &&& after.instance(service_id, instance_id).status == status
            &&& after.failure_count(service_id, instance_id) == (if status
                == InstanceStatus::Degraded {
                registry.failure_count(service_id, instance_id)
            } else {
                0
            })
        }),
{
}

/// A successful registration makes the instance known as the request describes it:
/// with its scheme, host, port and weight, up, without connections, heard of at the
/// time of registration, and under its own ids.
pub proof fn registered_instance_is_as_requested(
    registry: RegistryModel,
    request: RegistrationRequest,
    fresh_id: Seq<char>,
    token: Seq<char>,
    now: Timestamp,
)
    requires
        registry.registered(request, fresh_id, token, now).1.success,
    ensures
        ({
            let (after, outcome) = registry.registered(request, fresh_id, token, now);
            let known = after.services[request.service_id@].instances;
            let id = outcome.instance_id->0;
            &&& outcome.instance_id is Some
            &&& after.services.contains_key(request.service_id@)
            &&& known.contains_key(id)
            &&& known[id].scheme == request.instance.scheme@
            &&& known[id].host == request.instance.host@
            &&& known[id].port == request.instance.port
            &&& known[id].weight == request.instance.weight
            &&& known[id].last_heartbeat_utc == now
            &&& known[id].status == InstanceStatus::Up
            &&& known[id].active_connections == 0
            &&& known[id].instance_id == id
            &&& known[id].service_id == request.service_id@
            &&& outcome.token == Some(known[id].token)
            &&& known[id].token == token
            &&& outcome.error_code is None
            &&& outcome.error_message is None
        }),
{
}

/// An instance is registered under the id that it asks for, and under the fresh one
/// exactly where it asks for nothing but white space.
pub proof fn asked_for_id_is_used(
    registry: RegistryModel,
    request: RegistrationRequest,
    fresh_id: Seq<char>,
    token: Seq<char>,
    now: Timestamp,
)
    requires
        registry.registered(request, fresh_id, token, now).1.success,
    ensures
        ({
            let asked = request.instance.instance_id@;
            let blank = forall|i: int| 0 <= i < asked.len() ==> is_space(#[trigger] asked[i]);
            registry.registered(request, fresh_id, token, now).1.instance_id == Some(
                if blank {
                    fresh_id
                } else {
                    asked
                },
            )
        }),
{
    blank_is_white_space(request.instance.instance_id@);
}

/// A registration succeeds exactly when no other service owns one of its prefixes and
/// the service, where it is known, has the fingerprint that the request shows.
pub proof fn registration_succeeds_exactly_when_due(
    registry: RegistryModel,
    request: RegistrationRequest,
    fresh_id: Seq<char>,
    token: Seq<char>,
    now: Timestamp,
)
    ensures
        ({
            let id = request.service_id@;
            let taken = exists|j: int|
                0 <= j < request.path_prefixes@.len() && registry.path_owners.contains_key(
                    (#[trigger] request.path_prefixes@[j])@,
                ) && registry.path_owners[request.path_prefixes@[j]@] != id;
            let known_otherwise = registry.services.contains_key(id)
                && registry.services[id].fingerprint != request.fingerprint@;
            let outcome = registry.registered(request, fresh_id, token, now).1;
            &&& outcome.success == (!taken && !known_otherwise)
            &&& !outcome.success ==> outcome.instance_id is None && outcome.token is None
            &&& !taken && known_otherwise ==> outcome.error_code == Some("FINGERPRINT_INVALID"@)
                && outcome.error_message == Some("Fingerprint mismatch"@)
        }),
{
    collision_refuses_and_changes_nothing(registry, request, fresh_id, token, now);
    let prefixes = texts(request.path_prefixes@);
    first_collision_is_first(registry.path_owners, prefixes, request.service_id@, 0);
    let at = first_collision(registry.path_owners, prefixes, request.service_id@, 0);
    if at < prefixes.len() {
        assert(prefixes[at] == request.path_prefixes@[at]@);
    }
    assert forall|j: int|
        0 <= j < request.path_prefixes@.len() && registry.path_owners.contains_key(
            (#[trigger] request.path_prefixes@[j])@,
        ) && registry.path_owners[request.path_prefixes@[j]@] != request.service_id@ implies at
        < prefixes.len() by {
        assert(prefixes[j] == request.path_prefixes@[j]@);
    }
}

/// A refused collision is reported with the first prefix that collides and with its
/// owner.
pub proof fn collision_names_the_owner(
    registry: RegistryModel,
    request: RegistrationRequest,
    fresh_id: Seq<char>,
    token: Seq<char>,
    now: Timestamp,
    at: int,
)
    requires
        0 <= at < request.path_prefixes@.len(),
        registry.path_owners.contains_key(request.path_prefixes@[at]@),
        registry.path_owners[request.path_prefixes@[at]@] != request.service_id@,
        forall|j: int|
            0 <= j < at && registry.path_owners.contains_key(
                (#[trigger] request.path_prefixes@[j])@,
            ) ==> registry.path_owners[request.path_prefixes@[j]@] == request.service_id@,
    ensures
        ({
            let prefix = request.path_prefixes@[at]@;
            registry.registered(request, fresh_id, token, now).1.error_message == Some(
                "Path prefix '"@ + prefix + "' already owned by service '"@
                    + registry.path_owners[prefix] + "'"@,
            )
        }),
{
    let prefixes = texts(request.path_prefixes@);
    first_collision_is_first(registry.path_owners, prefixes, request.service_id@, 0);
    let first = first_collision(registry.path_owners, prefixes, request.service_id@, 0);
    assert(prefixes[at] == request.path_prefixes@[at]@);
    assert(first <= at);
    assert(prefixes[first] == request.path_prefixes@[first]@);
}

/// What a successful registration does to the rest: the service owns the prefixes
/// that it declared and every other prefix keeps its owner; its other instances stay
/// as they were; a service that is new has the fingerprint and the prefixes of the
/// request, a known one keeps its own.
pub proof fn registration_changes_only_what_it_declares(
    registry: RegistryModel,
    request: RegistrationRequest,
    fresh_id: Seq<char>,
    token: Seq<char>,
    now: Timestamp,
    prefix: Seq<char>,
    other: Seq<char>,
)
    requires
        registry.registered(request, fresh_id, token, now).1.success,
        Some(other) != registry.registered(request, fresh_id, token, now).1.instance_id,
    ensures
        ({
            let id = request.service_id@;
            let before = registry.services[id];
            let after = registry.registered(request, fresh_id, token, now).0;
            let declared = exists|j: int|
                0 <= j < request.path_prefixes@.len() && (#[trigger] request.path_prefixes@[j])@
                    == prefix;
            &&& declared ==> after.path_owners.contains_key(prefix) && after.path_owners[prefix] == id
            &&& !declared ==> after.path_owners.contains_key(prefix)
                == registry.path_owners.contains_key(prefix)
            &&& !declared && registry.path_owners.contains_key(prefix)
                ==> after.path_owners[prefix] == registry.path_owners[prefix]
            &&& after.heartbeats == registry.heartbeats
            &&& after.failures == registry.failures
            &&& if registry.services.contains_key(id) {
                &&& after.services[id].instances.contains_key(other)
                    == before.instances.contains_key(other)
                &&& before.instances.contains_key(other) ==> after.services[id].instances[other]
                    == before.instances[other]
                &&& after.services[id].path_prefixes == before.path_prefixes
                &&& after.services[id].fingerprint == before.fingerprint
                &&& after.services[id].service_id == before.service_id
            } else {
                &&& !after.services[id].instances.contains_key(other)
                &&& after.services[id].path_prefixes.len() == request.path_prefixes@.len()
                &&& forall|j: int|
                    0 <= j < request.path_prefixes@.len() ==> #[trigger] after.services[id].path_prefixes[j]
                        == request.path_prefixes@[j]@
                &&& after.services[id].fingerprint == request.fingerprint@
                &&& after.services[id].service_id == id
            }
        }),
{
    let prefixes = texts(request.path_prefixes@);
    assert forall|j: int| 0 <= j < prefixes.len() implies #[trigger] prefixes[j]
        == request.path_prefixes@[j]@ by {}
    if prefixes.contains(prefix) {
        let j = prefixes.index_of(prefix);
        assert(request.path_prefixes@[j]@ == prefix);
    }
    assert forall|j: int|
        0 <= j < request.path_prefixes@.len() && (#[trigger] request.path_prefixes@[j])@
            == prefix implies prefixes.contains(prefix) by {
        assert(prefixes[j] == prefix);
    }
}

/// Deregistering takes one instance out and nothing else: other instances, the
/// definition of the service, the owners of prefixes, and health data under other keys
/// stay.
pub proof fn deregistering_keeps_the_rest(
    registry: RegistryModel,
    service_id: Seq<char>,
    instance_id: Seq<char>,
    other_service: Seq<char>,
    other_instance: Seq<char>,
    key: Seq<char>,
)
    requires
        other_service != service_id || other_instance != instance_id,
        key != service_id + ":"@ + instance_id,
    ensures
        ({
            let after = registry.deregistered(service_id, instance_id);
            &&& after.services.dom() == registry.services.dom()
            &&& after.has_instance(other_service, other_instance) == registry.has_instance(
                other_service,
                other_instance,
            )
            &&& registry.has_instance(other_service, other_instance) ==> after.instance(
                other_service,
                other_instance,
            ) == registry.instance(other_service, other_instance)
            &&& registry.services.contains_key(other_service)
                ==> after.services[other_service].fingerprint
                == registry.services[other_service].fingerprint
                && after.services[other_service].path_prefixes
                == registry.services[other_service].path_prefixes
            &&& after.path_owners == registry.path_owners
            &&& after.heartbeats.contains_key(key) == registry.heartbeats.contains_key(key)
            &&& after.heartbeats[key] == registry.heartbeats[key]
            &&& after.failures.contains_key(key) == registry.failures.contains_key(key)
            &&& after.failures[key] == registry.failures[key]
        }),
{
    let after = registry.deregistered(service_id, instance_id);
    assert(after.services.dom() =~= registry.services.dom());
}

/// Whether an instance is the same but for its status and the time at which it was
/// last heard of.
pub open spec fn same_endpoint(a: InstanceModel, b: InstanceModel) -> bool {
    &&& a.instance_id == b.instance_id
    &&& a.service_id == b.service_id
    &&& a.token == b.token
    &&& a.scheme == b.scheme
    &&& a.host == b.host
    &&& a.port == b.port
    &&& a.weight == b.weight
    &&& a.active_connections == b.active_connections
}

/// Whether two registries know the same services, owners and instances, and differ in
/// no instance but, perhaps, one, of which they differ in the status and the time
/// alone.
pub open spec fn differ_in_health_of(
    a: RegistryModel,
    b: RegistryModel,
    service_id: Seq<char>,
    instance_id: Seq<char>,
) -> bool {
    &&& a.path_owners == b.path_owners
    &&& a.services.dom() == b.services.dom()
    &&& forall|s: Seq<char>| #[trigger]
        b.services.contains_key(s) ==> a.services[s].fingerprint == b.services[s].fingerprint
            && a.services[s].path_prefixes == b.services[s].path_prefixes
            && a.services[s].service_id == b.services[s].service_id
    &&& forall|s: Seq<char>, i: Seq<char>|
        #![trigger a.has_instance(s, i)]
        #![trigger b.has_instance(s, i)]
        a.has_instance(s, i) == b.has_instance(s, i) && (b.has_instance(s, i) ==> if s == service_id
            && i == instance_id {
            same_endpoint(a.instance(s, i), b.instance(s, i))
        } else {
            a.instance(s, i) == b.instance(s, i)
        })
}

/// A heartbeat makes a known instance heard of at that time and changes nothing else.
pub proof fn heartbeat_only_renews(
    registry: RegistryModel,
    service_id: Seq<char>,
    instance_id: Seq<char>,
    now: Timestamp,
)
    ensures
        ({
            let after = registry.heard(service_id, instance_id, now);
            &&& differ_in_health_of(after, registry, service_id, instance_id)
            &&& after.heartbeats == registry.heartbeats
            &&& after.failures == registry.failures
            &&& registry.has_instance(service_id, instance_id) ==> after.instance(
                service_id,
                instance_id,
            ).last_heartbeat_utc == now && after.instance(service_id, instance_id).status
                == registry.instance(service_id, instance_id).status
            &&& !registry.has_instance(service_id, instance_id) ==> after == registry
                && registry.metrics_heard(service_id, instance_id, now) == registry
                && registry.sample(service_id, instance_id, now) is None
        }),
{
    assert(registry.heard(service_id, instance_id, now).services.dom() =~= registry.services.dom());
}

/// A metrics report is a heartbeat that also counts: there is one report more, seen
/// at that time, and the sample tells how many there are and how many milliseconds
/// have passed since the one before, at least one.
pub proof fn metrics_reports_are_counted(
    registry: RegistryModel,
    service_id: Seq<char>,
    instance_id: Seq<char>,
    now: Timestamp,
    other: Seq<char>,
)
    requires
        registry.has_instance(service_id, instance_id),
        registry.heartbeats.contains_key(service_id + ":"@ + instance_id)
            ==> registry.heartbeats[service_id + ":"@ + instance_id].sample_count < u64::MAX,
        other != service_id + ":"@ + instance_id,
    ensures
        ({
            let key = service_id + ":"@ + instance_id;
            let after = registry.metrics_heard(service_id, instance_id, now);
            let sample = registry.sample(service_id, instance_id, now);
            let known = registry.heartbeats.contains_key(key);
            let count: int = if known {
                registry.heartbeats[key].sample_count as int
            } else {
                0
            };
            let passed = now.ns() - registry.heartbeats[key].last_seen_utc.ns();
            &&& after.services == registry.heard(service_id, instance_id, now).services
            &&& after.path_owners == registry.path_owners
            &&& after.failures == registry.failures
            &&& after.heartbeats.contains_key(key)
            &&& after.heartbeats[key].sample_count == count + 1
            &&& after.heartbeats[key].last_seen_utc == now
            &&& after.heartbeats.contains_key(other) == registry.heartbeats.contains_key(other)
            &&& after.heartbeats[other] == registry.heartbeats[other]
            &&& sample is Some
            &&& (sample->0).sample_count == count + 1
            &&& !known ==> (sample->0).interval_ms == 0
            &&& known && passed < 2_000_000 ==> (sample->0).interval_ms == 1
            &&& known && passed >= 1_000_000 ==> (sample->0).interval_ms * 1_000_000 <= passed
                && passed < ((sample->0).interval_ms + 1) * 1_000_000
        }),
{
    let key = service_id + ":"@ + instance_id;
    if registry.heartbeats.contains_key(key) {
        let elapsed = now.ms_since(registry.heartbeats[key].last_seen_utc);
        assert(0 <= elapsed < 0x1_0000_0000_0000_0000_0000_0000) by {
            let passed = now.ns_since(registry.heartbeats[key].last_seen_utc);
            assert(0 <= passed);
            assert(passed <= 0x2_0000_0000_0000_0000 * 1_000_000_000);
        }
    }
}

/// Setting a status changes the status, and the time at which the instance was last
/// heard of where it comes up; nothing else of it, and no other instance.
pub proof fn setting_a_status_changes_only_health(
    registry: RegistryModel,
    service_id: Seq<char>,
    instance_id: Seq<char>,
    status: InstanceStatus,
    now: Timestamp,
    other: Seq<char>,
)
    requires
        other != service_id + ":"@ + instance_id,
    ensures
        ({
            let after = registry.status_set(service_id, instance_id, status, now);
            &&& differ_in_health_of(after, registry, service_id, instance_id)
            &&& after.heartbeats == registry.heartbeats
            &&& after.failures.contains_key(other) == registry.failures.contains_key(other)
            &&& after.failures[other] == registry.failures[other]
            &&& registry.has_instance(service_id, instance_id) ==> after.instance(
                service_id,
                instance_id,
            ).last_heartbeat_utc == (if status == InstanceStatus::Up {
                now
            } else {
                registry.instance(service_id, instance_id).last_heartbeat_utc
            })
            &&& !registry.has_instance(service_id, instance_id) ==> after == registry
        }),
{
    let after = registry.status_set(service_id, instance_id, status, now);
    assert(after.services.dom() =~= registry.services.dom());
}

/// A proxy failure counts once, and may take its instance down; it changes nothing
/// else of it, no other instance, and no other count.
pub proof fn proxy_failure_changes_only_health(
    registry: RegistryModel,
    service_id: Seq<char>,
    instance_id: Seq<char>,
    threshold: u32,
    other: Seq<char>,
)
    requires
        registry.failure_count(service_id, instance_id) < u32::MAX,
        other != service_id + ":"@ + instance_id,
    ensures
        ({
            let after = registry.proxy_failed(service_id, instance_id, threshold);
            let count = registry.failure_count(service_id, instance_id) + 1;
            let down = registry.failure_takes_down(service_id, instance_id, threshold);
            &&& differ_in_health_of(after, registry, service_id, instance_id)
            &&& after.heartbeats == registry.heartbeats
            &&& after.failure_count(service_id, instance_id) == count
            &&& after.failures.contains_key(other) == registry.failures.contains_key(other)
            &&& after.failures[other] == registry.failures[other]
            &&& registry.has_instance(service_id, instance_id) ==> {
                let was = registry.instance(service_id, instance_id);
                let is = after.instance(service_id, instance_id);
                &&& is.last_heartbeat_utc == was.last_heartbeat_utc
                &&& down == (was.status != InstanceStatus::Down && is.status
                    == InstanceStatus::Down)
                &&& is.status == (if count >= threshold || threshold == 0 {
                    InstanceStatus::Down
                } else {
                    was.status
                })
            }
            &&& !registry.has_instance(service_id, instance_id) ==> !down
        }),
{
    let after = registry.proxy_failed(service_id, instance_id, threshold);
    assert(after.services.dom() =~= registry.services.dom());
}

/// A proxy success ends the run of failures of its instance, and brings it up; one
/// that was up already stays as it was.
pub proof fn proxy_success_changes_only_health(
    registry: RegistryModel,
    service_id: Seq<char>,
    instance_id: Seq<char>,
    now: Timestamp,
    other: Seq<char>,
)
    requires
        other != service_id + ":"@ + instance_id,
    ensures
        ({
            let after = registry.proxy_succeeded(service_id, instance_id, now);
            &&& differ_in_health_of(after, registry, service_id, instance_id)
            &&& after.heartbeats == registry.heartbeats
            &&& !after.failures.contains_key(service_id + ":"@ + instance_id)
            &&& after.failures.contains_key(other) == registry.failures.contains_key(other)
            &&& after.failures[other] == registry.failures[other]
            &&& registry.has_instance(service_id, instance_id) ==> {
                let was = registry.instance(service_id, instance_id);
                after.instance(service_id, instance_id).last_heartbeat_utc == (if was.status
                    == InstanceStatus::Up {
                    was.last_heartbeat_utc
                } else {
                    now
                })
            }
        }),
{
    let after = registry.proxy_succeeded(service_id, instance_id, now);
    assert(after.services.dom() =~= registry.services.dom());
}

/// What an evaluation makes of an instance that has reported: it is down exactly when
/// more whole milliseconds than the timeout have passed since the last report, and
/// else degraded exactly when it is irregular with five reports or more. Nothing else
/// changes.
pub proof fn evaluation_judges_by_reports(
    registry: RegistryModel,
    service_id: Seq<char>,
    instance_id: Seq<char>,
    now: Timestamp,
    timeout_ms: u64,
    irregular: Set<Seq<char>>,
)
    requires
        registry.has_instance(service_id, instance_id),
        registry.heartbeats.contains_key(service_id + ":"@ + instance_id),
    ensures
        ({
            let key = service_id + ":"@ + instance_id;
            let after = registry.evaluated(now, (timeout_ms * 1_000_000) as u128, irregular);
            let report = registry.heartbeats[key];
            let status = after.instance(service_id, instance_id).status;
            let late = now.ns() - report.last_seen_utc.ns() >= (timeout_ms + 1) * 1_000_000;
            &&& (status == InstanceStatus::Down) == late
            &&& (status == InstanceStatus::Degraded) == (!late && irregular.contains(key)
                && report.sample_count >= 5)
            &&& after.has_instance(service_id, instance_id)
            &&& same_endpoint(
                after.instance(service_id, instance_id),
                registry.instance(service_id, instance_id),
            )
            &&& after.instance(service_id, instance_id).last_heartbeat_utc == registry.instance(
                service_id,
                instance_id,
            ).last_heartbeat_utc
        }),
{
    let key = service_id + ":"@ + instance_id;
    let since = now.ns() - registry.heartbeats[key].last_seen_utc.ns();
    assert(timeout_ms * 1_000_000 <= 0xffff_ffff_ffff_ffff * 1_000_000);
    assert((timeout_ms * 1_000_000) as u128 as int / 1_000_000 == timeout_ms);
}

/// An evaluation adds and removes nothing, and changes neither owners nor health data.
pub proof fn evaluation_keeps_the_rest(
    registry: RegistryModel,
    service_id: Seq<char>,
    instance_id: Seq<char>,
    now: Timestamp,
    timeout_ns: u128,
    irregular: Set<Seq<char>>,
)
    ensures
        ({
            let after = registry.evaluated(now, timeout_ns, irregular);
            &&& after.services.contains_key(service_id) == registry.services.contains_key(service_id)
            &&& after.has_instance(service_id, instance_id) == registry.has_instance(
                service_id,
                instance_id,
            )
            &&& registry.services.contains_key(service_id)
                ==> after.services[service_id].path_prefixes
                == registry.services[service_id].path_prefixes
                && after.services[service_id].fingerprint
                == registry.services[service_id].fingerprint
            &&& after.path_owners == registry.path_owners
            &&& after.heartbeats == registry.heartbeats
            &&& after.failures == registry.failures
        }),
{
}

/// A sweep forgets the health data of an instance exactly where it removes one with
/// that key.
pub proof fn sweep_forgets_health_data_of_the_stale(
    registry: RegistryModel,
    now: Timestamp,
    timeout_ns: u128,
    key: Seq<char>,
)
    ensures
        ({
            let after = registry.swept(now, timeout_ns);
            let gone = exists|s: Seq<char>, i: Seq<char>| #[trigger]
                registry.has_instance(s, i) && !after.has_instance(s, i) && key == s + ":"@ + i;
            &&& after.heartbeats.contains_key(key) == (registry.heartbeats.contains_key(key) && !gone)
            &&& after.heartbeats.contains_key(key) ==> after.heartbeats[key]
                == registry.heartbeats[key]
            &&& after.failures.contains_key(key) == (registry.failures.contains_key(key) && !gone)
            &&& after.failures.contains_key(key) ==> after.failures[key] == registry.failures[key]
        }),
{
    let stale = registry.stale(now, timeout_ns);
    let after = registry.swept(now, timeout_ns);
    if is_key_of(key, stale) {
        let p = choose|p: (Seq<char>, Seq<char>)| #[trigger]
            stale.contains(p) && key == health_key(p.0, p.1);
        assert(registry.has_instance(p.0, p.1) && !after.has_instance(p.0, p.1));
    }
    assert forall|s: Seq<char>, i: Seq<char>| #[trigger]
        registry.has_instance(s, i) && !after.has_instance(s, i) && key == s + ":"@
            + i implies is_key_of(key, stale) by {
        assert(stale.contains((s, i)));
    }
}

/// An upkeep round sweeps with the configured timeout, and evaluates reports with it
/// before exactly where the service bus is in charge and monitoring is on.
pub proof fn upkeep_takes_the_configured_timeout(
    registry: RegistryModel,
    config: GatewayConfig,
    irregular: Set<Seq<char>>,
    evaluated_at: Timestamp,
    swept_at: Timestamp,
    service_id: Seq<char>,
    instance_id: Seq<char>,
)
    requires
        registry.has_instance(service_id, instance_id),
    ensures
        ({
            let seconds = config.registry.heartbeat_timeout_seconds;
            let after = maintained(registry, config, irregular, evaluated_at, swept_at);
            let was = registry.instance(service_id, instance_id);
            let silent = swept_at.ns() - was.last_heartbeat_utc.ns() > seconds * 1_000_000_000;
            if config.service_bus.connection_health_enabled && config.service_bus.monitoring_enabled {
                let status = registry.evaluated(
                    evaluated_at,
                    (seconds * 1_000_000_000) as u128,
                    irregular,
                ).instance(service_id, instance_id).status;
                &&& after.has_instance(service_id, instance_id) == !(status == InstanceStatus::Down
                    && silent)
                &&& after.has_instance(service_id, instance_id) ==> after.instance(
                    service_id,
                    instance_id,
                ).status == status
            } else {
                &&& after.has_instance(service_id, instance_id) == !(was.status
                    == InstanceStatus::Down && silent)
                &&& after.has_instance(service_id, instance_id) ==> after.instance(
                    service_id,
                    instance_id,
                ) == was
            }
        }),
{
    let seconds = config.registry.heartbeat_timeout_seconds;
    assert(seconds * 1_000_000_000 <= 0xffff_ffff_ffff_ffff * 1_000_000_000);
    let timeout = (seconds * 1_000_000_000) as u128;
    let evaluated = registry.evaluated(evaluated_at, timeout, irregular);
    evaluation_keeps_the_rest(registry, service_id, instance_id, evaluated_at, timeout, irregular);
    sweep_removes_exactly_the_stale(registry, swept_at, timeout, service_id, instance_id);
    sweep_removes_exactly_the_stale(evaluated, swept_at, timeout, service_id, instance_id);
}

/// A registration with a wrong fingerprint is refused, but its service owns the prefixes
/// from then on; nothing else changes.
pub proof fn wrong_fingerprint_still_claims(
    registry: RegistryModel,
    request: RegistrationRequest,
    fresh_id: Seq<char>,
    token: Seq<char>,
    now: Timestamp,
    prefix: Seq<char>,
)
    requires
        registry.registered(request, fresh_id, token, now).1.error_code == Some(
            "FINGERPRINT_INVALID"@,
        ),
    ensures
        ({
            let after = registry.registered(request, fresh_id, token, now).0;
            let declared = exists|j: int|
                0 <= j < request.path_prefixes@.len() && (#[trigger] request.path_prefixes@[j])@
                    == prefix;
            &&& after.path_owners.contains_key(prefix) <==> declared
                || registry.path_owners.contains_key(prefix)
            &&& declared ==> after.path_owners[prefix] == request.service_id@
            &&& !declared && registry.path_owners.contains_key(prefix)
                ==> after.path_owners[prefix] == registry.path_owners[prefix]
            &&& after.services == registry.services
            &&& after.heartbeats == registry.heartbeats
            &&& after.failures == registry.failures
        }),
{
    reveal_strlit("ROUTE_COLLISION");
    reveal_strlit("FINGERPRINT_INVALID");
    assert("ROUTE_COLLISION"@.len() == 15);
    assert("FINGERPRINT_INVALID"@.len() == 19);
    let prefixes = texts(request.path_prefixes@);
    assert forall|j: int| 0 <= j < prefixes.len() implies #[trigger] prefixes[j]
        == request.path_prefixes@[j]@ by {}
    if prefixes.contains(prefix) {
        let j = prefixes.index_of(prefix);
        assert(request.path_prefixes@[j]@ == prefix);
    }
    assert forall|j: int|
        0 <= j < request.path_prefixes@.len() && (#[trigger] request.path_prefixes@[j])@
            == prefix implies prefixes.contains(prefix) by {
        assert(prefixes[j] == prefix);
    }
}

/// A sweep keeps the services, their fingerprints and their prefixes, also where it
/// removes their last instance.
pub proof fn sweep_keeps_the_services(
    registry: RegistryModel,
    now: Timestamp,
    timeout_ns: u128,
    service_id: Seq<char>,
)
    ensures
        ({
            let after = registry.swept(now, timeout_ns);
            &&& after.services.contains_key(service_id) == registry.services.contains_key(service_id)
            &&& registry.services.contains_key(service_id)
                ==> after.services[service_id].fingerprint
                == registry.services[service_id].fingerprint
                && after.services[service_id].path_prefixes
                == registry.services[service_id].path_prefixes
                && after.services[service_id].service_id
                == registry.services[service_id].service_id
            &&& after.path_owners == registry.path_owners
        }),
{
}

} // verus!
