//! What holds of the way of a request to an instance, and of the answers of the
//! registry routes.

use crate::cache::runtime::{reserved_key, GatewayCacheModel};
use crate::clock::{Moment, Timestamp};
use crate::config::GatewayConfig;
use crate::gateway::balancer::{pick_is_an_instance_that_is_up, picked_with, turn_counted};
use crate::gateway::proxy::{
    final_error, first_prefix, plan_finished, planned, planned_for, planned_for_pick, resolve_step,
    route_key, routes_in, self_routing_message, target_uri_of, version_in, with_route, PendingPlan,
    ResolveActionModel, ResolveEventModel, ResolveStateModel, RoutePlan,
};
use crate::gateway::routes::{route_registered, AllowlistVerdict};
use crate::models::{
    base_uri, uri_host, InstanceStatus, RegistrationRequest, ServiceDefinition, ServiceInstance,
};
use crate::registry::laws::{
    collision_refuses_and_changes_nothing, registration_succeeds_exactly_when_due,
};
use crate::registry::RegistryModel;
use crate::text::decimal;
use crate::text_laws::{parts_are_found, signed_numbers_are_read};
use vstd::prelude::*;

verus! {

proof fn first_prefix_is_first(prefixes: Seq<Seq<char>>, path: Seq<char>, from: int, at: int)
    requires
        0 <= from <= at < prefixes.len(),
        prefixes[at].is_prefix_of(path),
        forall|j: int| from <= j < at ==> !(#[trigger] prefixes[j]).is_prefix_of(path),
    ensures
        first_prefix(prefixes, path, from) == Some(prefixes[at]),
    decreases at - from,
{
    if from < at {
        assert(!prefixes[from].is_prefix_of(path));
        first_prefix_is_first(prefixes, path, from + 1, at);
    }
}

proof fn no_prefix_is_found(prefixes: Seq<Seq<char>>, path: Seq<char>, from: int)
    requires
        0 <= from <= prefixes.len(),
        forall|j: int| from <= j < prefixes.len() ==> !(#[trigger] prefixes[j]).is_prefix_of(path),
    ensures
        first_prefix(prefixes, path, from) is None,
    decreases prefixes.len() - from,
{
    if from < prefixes.len() {
        assert(!prefixes[from].is_prefix_of(path));
        no_prefix_is_found(prefixes, path, from + 1);
    }
}

/// Where prefixes are stripped, what follows the first of the prefixes that begins the
/// path goes upstream, with exactly one slash between the base and it where it had at
/// most one.
pub proof fn stripped_prefix_does_not_go_upstream(
    prefixes: Seq<Seq<char>>,
    at: int,
    rest: Seq<char>,
    base: Seq<char>,
)
    requires
        0 <= at < prefixes.len(),
    ensures
        ({
            let path = prefixes[at] + "/"@ + rest;
            (forall|j: int| 0 <= j < at ==> !(#[trigger] prefixes[j]).is_prefix_of(path))
                ==> target_uri_of(true, prefixes, path, base) == base + "/"@ + rest
        }),
        ({
            let path = prefixes[at] + rest;
            (forall|j: int| 0 <= j < at ==> !(#[trigger] prefixes[j]).is_prefix_of(path)) && !"/"@.is_prefix_of(
                rest,
            ) ==> target_uri_of(true, prefixes, path, base) == base + "/"@ + rest
        }),
{
    let path = prefixes[at] + "/"@ + rest;
    assert(path =~= prefixes[at] + ("/"@ + rest));
    assert(prefixes[at].is_prefix_of(path));
    assert(path.skip(prefixes[at].len() as int) =~= "/"@ + rest);
    parts_are_found(rest, "/"@, rest);
    if forall|j: int| 0 <= j < at ==> !(#[trigger] prefixes[j]).is_prefix_of(path) {
        first_prefix_is_first(prefixes, path, 0, at);
    }
    let bare = prefixes[at] + rest;
    assert(prefixes[at].is_prefix_of(bare));
    assert(bare.skip(prefixes[at].len() as int) =~= rest);
    if forall|j: int| 0 <= j < at ==> !(#[trigger] prefixes[j]).is_prefix_of(bare) {
        first_prefix_is_first(prefixes, bare, 0, at);
    }
}

/// Where prefixes are kept, or none begins the path, the whole path goes upstream, one
/// slash standing between the base and it.
pub proof fn kept_path_goes_upstream_whole(
    strip: bool,
    prefixes: Seq<Seq<char>>,
    rest: Seq<char>,
    base: Seq<char>,
)
    ensures
        ({
            let path = "/"@ + rest;
            !strip || (forall|j: int|
                0 <= j < prefixes.len() ==> !(#[trigger] prefixes[j]).is_prefix_of(path))
                ==> target_uri_of(strip, prefixes, path, base) == base + path
        }),
        !"/"@.is_prefix_of(rest) && (!strip || (forall|j: int|
            0 <= j < prefixes.len() ==> !(#[trigger] prefixes[j]).is_prefix_of(rest)))
            ==> target_uri_of(strip, prefixes, rest, base) == base + "/"@ + rest,
{
    let path = "/"@ + rest;
    parts_are_found(rest, "/"@, rest);
    if forall|j: int| 0 <= j < prefixes.len() ==> !(#[trigger] prefixes[j]).is_prefix_of(path) {
        no_prefix_is_found(prefixes, path, 0);
    }
    if forall|j: int| 0 <= j < prefixes.len() ==> !(#[trigger] prefixes[j]).is_prefix_of(rest) {
        no_prefix_is_found(prefixes, rest, 0);
    }
    assert(base + "/"@ + rest =~= base + path);
}

/// A base URI is made of the scheme, the host and, unless it is 0, the port. A host
/// with a colon stands in brackets, once.
pub proof fn base_uris_have_scheme_host_and_port(scheme: Seq<char>, host: Seq<char>, port: u16)
    ensures
        !host.contains(':') && port != 0 ==> base_uri(scheme, host, port) == scheme + "://"@ + host
            + ":"@ + decimal(port as nat),
        !host.contains(':') ==> base_uri(scheme, host, 0) == scheme + "://"@ + host,
        host.contains(':') && host[0] != '[' ==> uri_host(host) == "["@ + host + "]"@,
        host.len() > 0 && host[0] == '[' ==> uri_host(host) == host,
        uri_host(uri_host(host)) == uri_host(host),
        base_uri(scheme, uri_host(host), port) == base_uri(scheme, host, port),
{
    reveal_strlit("[");
    if uri_host(host) != host {
        assert(uri_host(host)[0] == '[');
    }
}

/// Routes that were resolved for one version of the registry are not looked up for
/// another; before the first version they count as those of version 0.
pub proof fn versions_have_routes_of_their_own(a: Seq<char>, b: Seq<char>)
    ensures
        route_key(Some(a)) == route_key(Some(b)) ==> a == b,
        route_key(None) == route_key(Some("0"@)),
{
    let stem = "route-resolution:v"@;
    assert((stem + a).skip(stem.len() as int) =~= a);
    assert((stem + b).skip(stem.len() as int) =~= b);
}

/// A request is forwarded to an instance of its service that is up, under its id, at
/// the base URI of that very instance; where none is up it is answered with 503.
pub proof fn plans_lead_to_an_instance_that_is_up(
    config: GatewayConfig,
    counters: Map<Seq<char>, usize>,
    counters_after: Map<Seq<char>, usize>,
    pending: PendingPlan,
    path: Seq<char>,
    remote_ip: Seq<char>,
    counter: Option<i64>,
    random: u32,
    plan: RoutePlan,
)
    requires
        plan_finished(
            config,
            counters,
            counters_after,
            pending,
            path,
            remote_ip,
            counter,
            random,
            plan,
        ),
    ensures
        ({
            let order = pending.service.instances.order();
            let instances = pending.service.instances@;
            match plan {
                RoutePlan::Forward(uri, service_id, instance_id) => service_id@
                    == pending.service_id@ && exists|k: int|
                    0 <= k < order.len() && instances[#[trigger] order[k]].status
                        == InstanceStatus::Up && instance_id@ == instances[order[k]].instance_id
                        && (base_uri(
                        instances[order[k]].scheme,
                        instances[order[k]].host,
                        instances[order[k]].port,
                    ) + "/"@).is_prefix_of(uri@),
                RoutePlan::Answer(status, body, error) => status == 503 && body@
                    == "No healthy instances available"@ && error@ == body@ && forall|k: int|
                    0 <= k < order.len() ==> instances[#[trigger] order[k]].status
                        != InstanceStatus::Up,
            }
        }),
{
    let picked = choose|picked: Result<ServiceInstance, (u16, String)>| #[trigger]
        picked_with(
            counters,
            counters_after,
            pending.service,
            config.routing.default_load_balancing_strategy@,
            remote_ip,
            pending.service_id@,
            counter,
            random,
            picked,
        ) && planned_for_pick(
            config,
            pending.service,
            path,
            pending.service_id@,
            picked,
            plan,
        );
    pick_is_an_instance_that_is_up(
        counters,
        counters_after,
        pending.service,
        config.routing.default_load_balancing_strategy@,
        remote_ip,
        pending.service_id@,
        counter,
        random,
        picked,
    );
    let order = pending.service.instances.order();
    let instances = pending.service.instances@;
    match picked {
        Ok(instance) => {
            let k = choose|k: int|
                0 <= k < order.len() && instance@ == instances[#[trigger] order[k]] && instance@.status
                    == InstanceStatus::Up;
            assert(instances[order[k]].status == InstanceStatus::Up);
        },
        Err(_) => {},
    }
}

/// A path of no service is answered with 404, and one of a service that is not
/// registered with 503; no turn is counted for either.
pub proof fn paths_without_a_service_are_answered(
    config: GatewayConfig,
    registry: RegistryModel,
    counters: Map<Seq<char>, usize>,
    counters_after: Map<Seq<char>, usize>,
    path: Seq<char>,
    remote_ip: Seq<char>,
    service_id: Option<Seq<char>>,
    before: GatewayCacheModel,
    after: GatewayCacheModel,
    plan: RoutePlan,
)
    requires
        planned(
            config,
            registry,
            counters,
            counters_after,
            path,
            remote_ip,
            service_id,
            before,
            after,
            plan,
        ),
        service_id matches Some(id) ==> !registry.services.contains_key(id),
    ensures
        counters_after == counters,
        after == before,
        ({
            &&& plan matches RoutePlan::Answer(status, body, error)
            &&& body@ == ""@
            &&& service_id is None ==> status == 404 && error@
                == "route resolution failed with status "@ + "404 Not Found"@
            &&& service_id is Some ==> status == 503 && error@
                == "route resolution failed with status "@ + "503 Service Unavailable"@
        }),
{
}

/// A request for a registered service goes to one of its instances that is up, or is
/// answered with 503 where none is.
pub proof fn registered_services_are_reached(
    config: GatewayConfig,
    registry: RegistryModel,
    counters: Map<Seq<char>, usize>,
    counters_after: Map<Seq<char>, usize>,
    path: Seq<char>,
    remote_ip: Seq<char>,
    id: Seq<char>,
    before: GatewayCacheModel,
    after: GatewayCacheModel,
    plan: RoutePlan,
)
    requires
        registry.services.contains_key(id),
        planned(
            config,
            registry,
            counters,
            counters_after,
            path,
            remote_ip,
            Some(id),
            before,
            after,
            plan,
        ),
    ensures
        ({
            let instances = registry.services[id].instances;
            match plan {
                RoutePlan::Forward(uri, service_id, instance_id) => service_id@ == id && exists|
                    key: Seq<char>,
                |
                    #[trigger] instances.contains_key(key) && instances[key].status
                        == InstanceStatus::Up && instance_id@ == instances[key].instance_id && uri@
                        == target_uri_of(
                        config.routing.strip_prefix,
                        registry.services[id].path_prefixes,
                        path,
                        base_uri(instances[key].scheme, instances[key].host, instances[key].port),
                    ),
                RoutePlan::Answer(status, body, error) => status == 503 && body@
                    == "No healthy instances available"@ && error@ == body@ && forall|
                    key: Seq<char>,
                | #[trigger]
                    instances.contains_key(key) ==> instances[key].status != InstanceStatus::Up,
            }
        }),
{
    let service = choose|service: ServiceDefinition| #[trigger]
        planned_for(
            service,
            config,
            registry,
            counters,
            counters_after,
            path,
            remote_ip,
            id,
            before,
            after,
            plan,
        );
    let strategy = config.routing.default_load_balancing_strategy@;
    let (picked, counter, random) = choose|
        picked: Result<ServiceInstance, (u16, String)>,
        counter: Option<i64>,
        random: u32,
    |
        #[trigger] picked_with(
            counters,
            counters_after,
            service,
            strategy,
            remote_ip,
            id,
            counter,
            random,
            picked,
        ) && planned_for_pick(config, service, path, id, picked, plan);
    pick_is_an_instance_that_is_up(
        counters,
        counters_after,
        service,
        strategy,
        remote_ip,
        id,
        counter,
        random,
        picked,
    );
    let order = service.instances.order();
    let instances = service.instances@;
    match picked {
        Ok(instance) => {
            let k = choose|k: int|
                0 <= k < order.len() && instance@ == instances[#[trigger] order[k]] && instance@.status
                    == InstanceStatus::Up;
            assert(order.to_set().contains(order[k]));
            assert(instances.contains_key(order[k]));
        },
        Err(_) => {
            assert forall|key: Seq<char>| #[trigger] instances.contains_key(key) implies instances[key].status
                != InstanceStatus::Up by {
                assert(order.to_set().contains(key));
                let k = order.index_of(key);
                assert(order[k] == key);
            }
        },
    }
}

/// A request that was answered with a status from 400 to 599 is reported as an error,
/// one with another status is not; what is known about it goes before.
pub proof fn client_and_server_errors_are_reported(status: u16, known: Seq<char>)
    ensures
        final_error(status, Some(known)) == Some(known),
        final_error(status, None) is Some <==> status / 100 == 4 || status / 100 == 5,
        final_error(status, None) matches Some(e) ==> e == "request completed with status "@ + decimal(
            status as nat,
        ),
{
}

/// A registration is answered with 200 exactly when its source is allowed, it is
/// authenticated, no other service owns one of its prefixes and the fingerprint is that
/// of the service; the answer then names the service, the instance and the token under
/// which the registry knows it. Routes are out of date exactly then, where they are
/// cached.
pub proof fn registration_route_answers(
    registry: RegistryModel,
    verdict: AllowlistVerdict,
    config: GatewayConfig,
    request: RegistrationRequest,
    fresh_id: Seq<char>,
    token: Seq<char>,
    now: Timestamp,
)
    ensures
        ({
            let (after, reply) = route_registered(
                registry,
                verdict,
                config,
                request,
                fresh_id,
                token,
                now,
            );
            let id = request.service_id@;
            let shows_token = request.auth.token@ == config.security.registration_token@ && (
            config.security.service_registration_auth@ != "TOKEN"@ || request.auth.kind@
                == "token"@);
            let taken = exists|j: int|
                0 <= j < request.path_prefixes@.len() && registry.path_owners.contains_key(
                    (#[trigger] request.path_prefixes@[j])@,
                ) && registry.path_owners[request.path_prefixes@[j]@] != id;
            let known_otherwise = registry.services.contains_key(id)
                && registry.services[id].fingerprint != request.fingerprint@;
            let allowed = verdict == AllowlistVerdict::Allowed;
            &&& verdict == AllowlistVerdict::Refused ==> reply.status == 403 && reply.error == Some(
                ("REGISTRATION_IP_NOT_ALLOWED"@, "Registration source IP is not allowed"@),
            )
            &&& verdict == AllowlistVerdict::Failed ==> reply.status == 500 && reply.error is None
            &&& allowed && !shows_token ==> reply.status == 401 && reply.error == Some(
                ("AUTH_FAILED"@, "Authentication failed for service registration"@),
            )
            &&& allowed && shows_token && taken ==> reply.status == 409 && reply.error is Some
                && (reply.error->0).0 == "ROUTE_COLLISION"@
            &&& allowed && shows_token && !taken && known_otherwise ==> reply.status == 403
                && reply.error == Some(("FINGERPRINT_INVALID"@, "Fingerprint mismatch"@))
            &&& allowed && shows_token && !taken && !known_otherwise <==> reply.status == 200
            &&& reply.status == 200 ==> reply.error is None && reply.registered is Some && {
                let registered = reply.registered->0;
                &&& registered.0 == id
                &&& after.has_instance(id, registered.1)
                &&& after.instance(id, registered.1).instance_id == registered.1
                &&& after.instance(id, registered.1).token == registered.2
                &&& registered.2 == token
            }
            &&& reply.status != 200 ==> reply.registered is None
            &&& reply.advances_version == (reply.status == 200 && config.cache.enabled)
        }),
{
    registration_succeeds_exactly_when_due(registry, request, fresh_id, token, now);
    reveal_strlit("ROUTE_COLLISION");
    reveal_strlit("FINGERPRINT_INVALID");
    assert("ROUTE_COLLISION"@.len() == 15);
    assert("FINGERPRINT_INVALID"@.len() == 19);
    collision_refuses_and_changes_nothing(registry, request, fresh_id, token, now);
}

/// Routes are kept in the cache exactly when it is on and they may live at all: else the
/// registry is asked at once, and its answer is the answer.
pub proof fn routes_are_cached_when_they_may_live(
    config: GatewayConfig,
    resolved: Option<Seq<char>>,
)
    ensures
        ({
            let first = resolve_step(config, ResolveStateModel::Idle, ResolveEventModel::Begin);
            let cached = config.cache.enabled && config.cache.service_resolution_ttl_seconds > 0;
            &&& cached ==> first.1 == ResolveActionModel::ReadVersion
            &&& !cached ==> first.1 == ResolveActionModel::AskRegistry
            &&& !cached ==> resolve_step(
                config,
                first.0,
                ResolveEventModel::Resolved(resolved),
            ).1 == ResolveActionModel::Answer(resolved)
        }),
{
}

/// A route that is stored leaves the routes of other paths as they were, and the entries
/// under other keys.
pub proof fn stored_routes_leave_the_others(
    cache: GatewayCacheModel,
    key: Seq<char>,
    path: Seq<char>,
    entry: Seq<char>,
    ttl_seconds: u64,
    written: Moment,
    read: Moment,
    other_path: Seq<char>,
    other_key: Seq<char>,
)
    requires
        other_path != path,
        reserved_key(cache.namespace, other_key) != reserved_key(cache.namespace, key),
        read.ns() < written.ns() + ttl_seconds * 1_000_000_000,
    ensures
        ({
            let after = with_route(cache, key, path, entry, ttl_seconds, written);
            let before = routes_in(cache, key, written);
            &&& routes_in(after, key, read).contains_key(other_path) == before.contains_key(other_path)
            &&& before.contains_key(other_path) ==> routes_in(after, key, read)[other_path]
                == before[other_path]
            &&& routes_in(after, other_key, read) == routes_in(cache, other_key, read)
            &&& after.namespace == cache.namespace
        }),
{
}

/// Advancing the version of the registry makes it one larger, from none to one, and the
/// routes are then looked up under the new one.
pub proof fn advancing_makes_a_new_version(
    before: GatewayCacheModel,
    after: GatewayCacheModel,
    version: i64,
    old_version: u32,
    now: Moment,
)
    requires
        turn_counted(before, after, true, "registry:version"@, Some(version)),
    ensures
        version_in(before, after.latest) is None ==> version == 1,
        version_in(before, after.latest) == Some(decimal(old_version as nat)) ==> version
            == old_version + 1,
        version >= 0 ==> version_in(after, now) == Some(decimal(version as nat)),
        version >= 0 ==> route_key(version_in(after, now)) == "route-resolution:v"@ + decimal(
            version as nat,
        ),
{
    signed_numbers_are_read(old_version as nat, Seq::empty(), 0);
}

/// Self-routing is reported with the service that it concerns.
pub proof fn self_routing_names_the_service(a: Seq<char>, b: Seq<char>)
    ensures
        self_routing_message(a) == self_routing_message(b) ==> a == b,
{
    let start = "self-routing loop: service '"@;
    let end = "' resolves to the gateway's own address"@;
    let x = self_routing_message(a);
    let y = self_routing_message(b);
    assert(x.subrange(start.len() as int, x.len() - end.len()) =~= a);
    assert(y.subrange(start.len() as int, y.len() - end.len()) =~= b);
}

} // verus!
