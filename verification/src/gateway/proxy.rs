//! The reverse proxy: where a request goes, and with which headers.

use crate::cache::in_memory::{deadline, live_value, EntryModel};
use crate::cache::runtime::{reserved_key, GatewayCache, GatewayCacheModel};
use crate::cache::value::{fields_in, text_in, ValueModel};
use crate::clock::Moment;
use crate::config::GatewayConfig;
use crate::gateway::balancer::{
    healthy_ids, picked_with, strategy_named, takes_turns, turn_counted, turn_key, ProxyHandler,
};
use crate::headers::{
    append_header, canonical_header_name, count_names, header_name_in, header_text, header_value_bytes,
    headers_in, insert_header, is_header_name, is_header_value, is_held_name, list_headers, listed,
    listed_names_are_finite, name_limit,
    new_header_map, values_in, values_of, visible_text,
};
use crate::lua::static_forward::{selected_target, StaticForwardResolution};
use crate::models::{base_uri, ServiceDefinition, ServiceInstance};
use crate::net::{addresses, is_self_routing, points_back, IpAddress};
use crate::registry::{longest_owner, RegistryModel, ServiceRegistry};
use crate::string_map::StringMap;
use crate::text::{
    ascii_lowered, decimal, format_unsigned, joined, joined3, optional_text, parse_unsigned,
    same_ignoring_case, same_text, strip_prefix, after_prefix, texts, trim, trimmed, unsigned_in,
};
use axum::http::{HeaderMap, HeaderValue};
use vstd::prelude::*;
use vstd::string::*;
use vstd::utf8::*;

verus! {

/// How often a request may pass through a gateway before it counts as going in circles.
pub const MAX_PROXY_HOPS: u8 = 3;

/// The largest request body that is passed on: ten mebibytes.
pub const MAX_PROXY_REQUEST_BODY_BYTES: u64 = 10485760;

/// Key of the version of the registry, by which cached routes are told apart.
pub const REGISTRY_VERSION_CACHE_KEY: &'static str = "registry:version";

/// What is cached for a path that resolves to nothing.
pub const ROUTE_CACHE_MISS_SENTINEL: &'static str = "__basilisk:miss__";

// ---------------------------------------------------------------------------
// Route resolution
// ---------------------------------------------------------------------------

/// The key of the routes that were resolved for a version of the registry.
pub open spec fn route_key(version: Option<Seq<char>>) -> Seq<char> {
    "route-resolution:v"@ + (match version {
        Some(v) => v,
        None => "0"@,
    })
}

/// The key of the routes that were resolved for a version of the registry.
pub fn route_cache_key(version: &Option<String>) -> (key: String)
    ensures
        key@ == route_key(optional_text(*version)),
{
    match version {
        Some(v) => joined("route-resolution:v", v.as_str()),
        None => joined("route-resolution:v", "0"),
    }
}

/// What a cached route says: the service, or that there is none.
pub open spec fn cached_service(cached: Seq<char>) -> Option<Seq<char>> {
    if cached == ROUTE_CACHE_MISS_SENTINEL@ {
        None
    } else {
        Some(cached)
    }
}

/// What a cached route says: the service, or that there is none.
pub fn read_cached_route(cached: String) -> (service_id: Option<String>)
    ensures
        optional_text(service_id) == cached_service(cached@),
{
    if same_text(cached.as_str(), ROUTE_CACHE_MISS_SENTINEL) {
        None
    } else {
        Some(cached)
    }
}

/// What is cached for a resolved route.
pub open spec fn route_entry(resolved: Option<Seq<char>>) -> Seq<char> {
    match resolved {
        Some(service_id) => service_id,
        None => ROUTE_CACHE_MISS_SENTINEL@,
    }
}

/// What is cached for a resolved route.
pub fn route_cache_value(resolved: &Option<String>) -> (value: String)
    ensures
        value@ == route_entry(optional_text(*resolved)),
{
    match resolved {
        Some(service_id) => service_id.clone(),
        None => ROUTE_CACHE_MISS_SENTINEL.to_owned(),
    }
}

/// A resolved route is read back from the cache as it was, unless a service bears
/// the name that stands for a missing one.
pub proof fn cached_route_reads_back(resolved: Option<Seq<char>>)
    requires
        resolved != Some(ROUTE_CACHE_MISS_SENTINEL@),
    ensures
        cached_service(route_entry(resolved)) == resolved,
{
}

/// Whether routes are cached: the cache must be on and the time to live not zero.
pub open spec fn caches_routes(config: GatewayConfig) -> bool {
    config.cache.enabled && config.cache.service_resolution_ttl_seconds != 0
}

/// Whether routes are cached.
pub fn route_caching_enabled(config: &GatewayConfig) -> (yes: bool)
    ensures
        yes == caches_routes(*config),
{
    config.cache.enabled && config.cache.service_resolution_ttl_seconds != 0
}

/// The version of the registry that the cache holds.
pub open spec fn version_in(cache: GatewayCacheModel, now: Moment) -> Option<Seq<char>> {
    text_in(
        live_value(
            cache.entries,
            reserved_key(cache.namespace, REGISTRY_VERSION_CACHE_KEY@),
            now,
        ),
    )
}

/// The routes that the cache holds under a key.
pub open spec fn routes_in(cache: GatewayCacheModel, key: Seq<char>, now: Moment) -> Map<
    Seq<char>,
    Seq<char>,
> {
    fields_in(live_value(cache.entries, reserved_key(cache.namespace, key), now))
}

/// The cache after a route has been stored.
pub open spec fn with_route(
    cache: GatewayCacheModel,
    key: Seq<char>,
    path: Seq<char>,
    entry: Seq<char>,
    ttl_seconds: u64,
    now: Moment,
) -> GatewayCacheModel {
    GatewayCacheModel {
        entries: cache.entries.insert(
            reserved_key(cache.namespace, key),
            EntryModel {
                value: ValueModel::Fields(routes_in(cache, key, now).insert(path, entry)),
                expires_at: deadline(now, ttl_seconds),
            },
        ),
        latest: now,
        ..cache
    }
}

/// Whether a path can have been resolved to a service through the cache, which
/// was read twice and, where it held no route for the path, written, none of it at an
/// earlier time than the operation before.
pub open spec fn resolved_through_cache(
    before: GatewayCacheModel,
    after: GatewayCacheModel,
    config: GatewayConfig,
    registry: RegistryModel,
    path: Seq<char>,
    service_id: Option<Seq<char>>,
    versioned: Moment,
    read: Moment,
    written: Moment,
) -> bool {
    let key = route_key(version_in(before, versioned));
    let routes = routes_in(before, key, read);
    let resolved = longest_owner(registry.path_owners, path, path.len() as int);
    &&& before.latest.ns() <= versioned.ns()
    &&& before.latest.ns() <= read.ns()
    &&& before.latest.ns() <= written.ns()
    &&& if routes.contains_key(path) {
        service_id == cached_service(routes[path]) && after == before
    } else {
        service_id == resolved && after == with_route(
            before,
            key,
            path,
            route_entry(resolved),
            config.cache.service_resolution_ttl_seconds,
            written,
        )
    }
}

/// A route that was just stored is found again, as long as the version of the
/// registry is the same and its time has not run out: the cache then answers what
/// the registry answered.
pub proof fn stored_route_is_found_again(
    cache: GatewayCacheModel,
    key: Seq<char>,
    path: Seq<char>,
    resolved: Option<Seq<char>>,
    ttl_seconds: u64,
    written: Moment,
    read: Moment,
)
    requires
        resolved != Some(ROUTE_CACHE_MISS_SENTINEL@),
        read.ns() < written.ns() + ttl_seconds * 1_000_000_000,
    ensures
        ({
            let after = with_route(cache, key, path, route_entry(resolved), ttl_seconds, written);
            let routes = routes_in(after, key, read);
            routes.contains_key(path) && cached_service(routes[path]) == resolved
        }),
{
}

/// Resolves the service that owns a path, through the cache where routes are cached.
pub fn resolve_service_id(
    config: &GatewayConfig,
    registry: &ServiceRegistry,
    cache: &mut GatewayCache,
    path: &str,
) -> (service_id: Option<String>)
    requires
        registry.wf(),
    ensures
        !caches_routes(*config) ==> final(cache)@ == old(cache)@ && optional_text(service_id)
            == longest_owner(registry@.path_owners, path@, path@.len() as int),
        caches_routes(*config) ==> exists|versioned: Moment, read: Moment, written: Moment| #[trigger]
            resolved_through_cache(
                old(cache)@,
                final(cache)@,
                *config,
                registry@,
                path@,
                optional_text(service_id),
                versioned,
                read,
                written,
            ),
{
    if !route_caching_enabled(config) {
        return registry.resolve_service_by_path(path);
    }
    let ghost before = cache@;
    let version = cache.internal_get(REGISTRY_VERSION_CACHE_KEY);
    let ghost versioned = choose|now: Moment| {
        let held = #[trigger] live_value(
            before.entries,
            reserved_key(before.namespace, REGISTRY_VERSION_CACHE_KEY@),
            now,
        );
        &&& before.latest.ns() <= now.ns()
        &&& match version {
            Some(s) => text_in(held) == Some(s@),
            None => text_in(held) is None,
        }
    };
    proof {
        assert(optional_text(version) == version_in(before, versioned));
    }
    let key = route_cache_key(&version);
    let cached = cache.internal_hash_get(key.as_str(), path);
    let ghost read = choose|now: Moment| {
        let held = #[trigger] live_value(before.entries, reserved_key(before.namespace, key@), now);
        &&& before.latest.ns() <= now.ns()
        &&& match cached {
            Some(s) => fields_in(held).contains_key(path@) && s@ == fields_in(held)[path@],
            None => !fields_in(held).contains_key(path@),
        }
    };
    if let Some(cached) = cached {
        let service_id = read_cached_route(cached);
        proof {
            assert(resolved_through_cache(
                before,
                cache@,
                *config,
                registry@,
                path@,
                optional_text(service_id),
                versioned,
                read,
                read,
            ));
        }
        return service_id;
    }
    let resolved = registry.resolve_service_by_path(path);
    let value = route_cache_value(&resolved);
    cache.internal_hash_set_with_ttl(
        key.as_str(),
        path,
        value,
        config.cache.service_resolution_ttl_seconds,
    );
    proof {
        let written = cache@.latest;
        assert(cache@ == with_route(
            before,
            key@,
            path@,
            value@,
            config.cache.service_resolution_ttl_seconds,
            written,
        ));
        assert(resolved_through_cache(
            before,
            cache@,
            *config,
            registry@,
            path@,
            optional_text(resolved),
            versioned,
            read,
            written,
        ));
    }
    resolved
}

/// Where the resolution of a path stands that goes through a store outside the
/// process.
pub enum ResolveState {
    /// Nothing has been asked for.
    Idle,
    /// The version of the registry has been asked for.
    AwaitsVersion,
    /// The route under this key has been asked for.
    AwaitsRoute(String),
    /// The registry has been asked; what it answers is stored under the key, if any.
    AwaitsRegistry(Option<String>),
    /// The route to this service, or to none, is being stored.
    AwaitsWrite(Option<String>),
    /// The answer is known.
    Done,
}

/// What happened to the resolution of a path.
pub enum ResolveEvent {
    /// A path is to be resolved.
    Begin,
    /// The version of the registry that the store holds.
    Version(Option<String>),
    /// What the store holds for the path.
    Route(Option<String>),
    /// The service that owns the path by the registry.
    Resolved(Option<String>),
    /// The route has been stored.
    Written,
}

/// What the resolution of a path asks for next.
pub enum ResolveAction {
    /// Read the version of the registry.
    ReadVersion,
    /// Read what is stored for the path under this key.
    ReadRoute(String),
    /// Ask the registry for the owner of the path.
    AskRegistry,
    /// Store this value for the path under this key, with this time to live in seconds.
    WriteRoute(String, String, u64),
    /// The path resolves to this service, or to none.
    Answer(Option<String>),
}

/// What the state of a resolution says.
pub enum ResolveStateModel {
    Idle,
    AwaitsVersion,
    AwaitsRoute(Seq<char>),
    AwaitsRegistry(Option<Seq<char>>),
    AwaitsWrite(Option<Seq<char>>),
    Done,
}

/// What an event of a resolution says.
pub enum ResolveEventModel {
    Begin,
    Version(Option<Seq<char>>),
    Route(Option<Seq<char>>),
    Resolved(Option<Seq<char>>),
    Written,
}

/// What an action of a resolution says.
pub enum ResolveActionModel {
    ReadVersion,
    ReadRoute(Seq<char>),
    AskRegistry,
    WriteRoute(Seq<char>, Seq<char>, u64),
    Answer(Option<Seq<char>>),
}

impl View for ResolveState {
    type V = ResolveStateModel;

    open spec fn view(&self) -> ResolveStateModel {
        match self {
            ResolveState::Idle => ResolveStateModel::Idle,
            ResolveState::AwaitsVersion => ResolveStateModel::AwaitsVersion,
            ResolveState::AwaitsRoute(key) => ResolveStateModel::AwaitsRoute(key@),
            ResolveState::AwaitsRegistry(key) => ResolveStateModel::AwaitsRegistry(
                optional_text(*key),
            ),
            ResolveState::AwaitsWrite(resolved) => ResolveStateModel::AwaitsWrite(
                optional_text(*resolved),
            ),
            ResolveState::Done => ResolveStateModel::Done,
        }
    }
}

impl View for ResolveEvent {
    type V = ResolveEventModel;

    open spec fn view(&self) -> ResolveEventModel {
        match self {
            ResolveEvent::Begin => ResolveEventModel::Begin,
            ResolveEvent::Version(version) => ResolveEventModel::Version(optional_text(*version)),
            ResolveEvent::Route(cached) => ResolveEventModel::Route(optional_text(*cached)),
            ResolveEvent::Resolved(resolved) => ResolveEventModel::Resolved(
                optional_text(*resolved),
            ),
            ResolveEvent::Written => ResolveEventModel::Written,
        }
    }
}

impl View for ResolveAction {
    type V = ResolveActionModel;

    open spec fn view(&self) -> ResolveActionModel {
        match self {
            ResolveAction::ReadVersion => ResolveActionModel::ReadVersion,
            ResolveAction::ReadRoute(key) => ResolveActionModel::ReadRoute(key@),
            ResolveAction::AskRegistry => ResolveActionModel::AskRegistry,
            ResolveAction::WriteRoute(key, value, ttl) => ResolveActionModel::WriteRoute(
                key@,
                value@,
                *ttl,
            ),
            ResolveAction::Answer(service_id) => ResolveActionModel::Answer(
                optional_text(*service_id),
            ),
        }
    }
}

/// How the resolution of a path goes on. Where routes are cached, the version of the
/// registry is read, then the route; where there is none, the registry is asked and
/// its answer stored. An event that was not awaited starts the resolution over.
pub open spec fn resolve_step(
    config: GatewayConfig,
    state: ResolveStateModel,
    event: ResolveEventModel,
) -> (ResolveStateModel, ResolveActionModel) {
    match (state, event) {
        (ResolveStateModel::AwaitsVersion, ResolveEventModel::Version(version)) => (
            ResolveStateModel::AwaitsRoute(route_key(version)),
            ResolveActionModel::ReadRoute(route_key(version)),
        ),
        (ResolveStateModel::AwaitsRoute(_), ResolveEventModel::Route(Some(cached))) => (
            ResolveStateModel::Done,
            ResolveActionModel::Answer(cached_service(cached)),
        ),
        (ResolveStateModel::AwaitsRoute(key), ResolveEventModel::Route(None)) => (
            ResolveStateModel::AwaitsRegistry(Some(key)),
            ResolveActionModel::AskRegistry,
        ),
        (ResolveStateModel::AwaitsRegistry(Some(key)), ResolveEventModel::Resolved(resolved)) => (
            ResolveStateModel::AwaitsWrite(resolved),
            ResolveActionModel::WriteRoute(
                key,
                route_entry(resolved),
                config.cache.service_resolution_ttl_seconds,
            ),
        ),
        (ResolveStateModel::AwaitsRegistry(None), ResolveEventModel::Resolved(resolved)) => (
            ResolveStateModel::Done,
            ResolveActionModel::Answer(resolved),
        ),
        (ResolveStateModel::AwaitsWrite(resolved), ResolveEventModel::Written) => (
            ResolveStateModel::Done,
            ResolveActionModel::Answer(resolved),
        ),
        _ => if caches_routes(config) {
            (ResolveStateModel::AwaitsVersion, ResolveActionModel::ReadVersion)
        } else {
            (ResolveStateModel::AwaitsRegistry(None), ResolveActionModel::AskRegistry)
        },
    }
}

/// Takes the resolution of a path through a store outside the process one step
/// further.
pub fn next_resolve_step(config: &GatewayConfig, state: ResolveState, event: ResolveEvent) -> (step: (
    ResolveState,
    ResolveAction,
))
    ensures
        (step.0@, step.1@) == resolve_step(*config, state@, event@),
{
    match (state, event) {
        (ResolveState::AwaitsVersion, ResolveEvent::Version(version)) => {
            let key = route_cache_key(&version);
            (ResolveState::AwaitsRoute(key.clone()), ResolveAction::ReadRoute(key))
        },
        (ResolveState::AwaitsRoute(key), ResolveEvent::Route(cached)) => match cached {
            Some(cached) => (
                ResolveState::Done,
                ResolveAction::Answer(read_cached_route(cached)),
            ),
            None => (ResolveState::AwaitsRegistry(Some(key)), ResolveAction::AskRegistry),
        },
        (ResolveState::AwaitsRegistry(key), ResolveEvent::Resolved(resolved)) => match key {
            Some(key) => {
                let value = route_cache_value(&resolved);
                (
                    ResolveState::AwaitsWrite(resolved),
                    ResolveAction::WriteRoute(
                        key,
                        value,
                        config.cache.service_resolution_ttl_seconds,
                    ),
                )
            },
            None => (ResolveState::Done, ResolveAction::Answer(resolved)),
        },
        (ResolveState::AwaitsWrite(resolved), ResolveEvent::Written) => (
            ResolveState::Done,
            ResolveAction::Answer(resolved),
        ),
        _ => if route_caching_enabled(config) {
            (ResolveState::AwaitsVersion, ResolveAction::ReadVersion)
        } else {
            (ResolveState::AwaitsRegistry(None), ResolveAction::AskRegistry)
        },
    }
}

/// The steps resolve a path as the cache of the gateway does: against a store that
/// holds what the cache holds, they ask for the version, the route, the registry and
/// the write in this order, and answer with the same service. Where routes are not
/// cached, they ask the registry alone.
pub proof fn steps_resolve_through_the_store(
    config: GatewayConfig,
    registry: RegistryModel,
    store: GatewayCacheModel,
    path: Seq<char>,
    versioned: Moment,
    read: Moment,
    written: Moment,
)
    requires
        store.latest.ns() <= versioned.ns(),
        store.latest.ns() <= read.ns(),
        store.latest.ns() <= written.ns(),
    ensures
        ({
            let version = version_in(store, versioned);
            let key = route_key(version);
            let routes = routes_in(store, key, read);
            let owner = longest_owner(registry.path_owners, path, path.len() as int);
            let ttl = config.cache.service_resolution_ttl_seconds;
            let first = resolve_step(config, ResolveStateModel::Idle, ResolveEventModel::Begin);
            if !caches_routes(config) {
                &&& first.1 == ResolveActionModel::AskRegistry
                &&& resolve_step(config, first.0, ResolveEventModel::Resolved(owner)).1
                    == ResolveActionModel::Answer(owner)
            } else {
                let second = resolve_step(config, first.0, ResolveEventModel::Version(version));
                &&& first.1 == ResolveActionModel::ReadVersion
                &&& second.1 == ResolveActionModel::ReadRoute(key)
                &&& if routes.contains_key(path) {
                    let held = ResolveEventModel::Route(Some(routes[path]));
                    let service_id = cached_service(routes[path]);
                    &&& resolve_step(config, second.0, held).1 == ResolveActionModel::Answer(
                        service_id,
                    )
                    &&& resolved_through_cache(
                        store,
                        store,
                        config,
                        registry,
                        path,
                        service_id,
                        versioned,
                        read,
                        written,
                    )
                } else {
                    let third = resolve_step(config, second.0, ResolveEventModel::Route(None));
                    let fourth = resolve_step(
                        config,
                        third.0,
                        ResolveEventModel::Resolved(owner),
                    );
                    &&& third.1 == ResolveActionModel::AskRegistry
                    &&& fourth.1 == ResolveActionModel::WriteRoute(key, route_entry(owner), ttl)
                    &&& resolve_step(config, fourth.0, ResolveEventModel::Written).1
                        == ResolveActionModel::Answer(owner)
                    &&& resolved_through_cache(
                        store,
                        with_route(store, key, path, route_entry(owner), ttl, written),
                        config,
                        registry,
                        path,
                        owner,
                        versioned,
                        read,
                        written,
                    )
                }
            }
        }),
{
}

/// Marks the cached routes as out of date: what is resolved from now on is cached
/// under a new version.
pub fn advance_registry_version(cache: &mut GatewayCache) -> (version: Option<i64>)
    ensures
        turn_counted(
            old(cache)@,
            final(cache)@,
            true,
            REGISTRY_VERSION_CACHE_KEY@,
            version,
        ),
{
    cache.internal_incr(REGISTRY_VERSION_CACHE_KEY, 1)
}

// ---------------------------------------------------------------------------
// The target of a request
// ---------------------------------------------------------------------------

/// The first of some prefixes that begins a path, from place `from` on.
pub open spec fn first_prefix(prefixes: Seq<Seq<char>>, path: Seq<char>, from: int) -> Option<Seq<char>>
    decreases prefixes.len() - from,
{
    if from >= prefixes.len() {
        None
    } else if prefixes[from].is_prefix_of(path) {
        Some(prefixes[from])
    } else {
        first_prefix(prefixes, path, from + 1)
    }
}

/// A path without the first of the prefixes that begins it, where prefixes are
/// stripped, and without one leading slash.
pub open spec fn upstream_path(strip: bool, prefixes: Seq<Seq<char>>, path: Seq<char>) -> Seq<char> {
    let rest = match first_prefix(prefixes, path, 0) {
        Some(prefix) => if strip {
            path.skip(prefix.len() as int)
        } else {
            path
        },
        None => path,
    };
    match after_prefix(rest, "/"@) {
        Some(tail) => tail,
        None => rest,
    }
}

/// The path that an upstream is asked for.
fn stripped_path(strip: bool, prefixes: &Vec<String>, path: &str) -> (rest: String)
    ensures
        rest@ == upstream_path(strip, texts(prefixes@), path@),
{
    let mut rest: String = path.to_owned();
    let ghost list = texts(prefixes@);
    if strip {
        let mut i: usize = 0;
        while i < prefixes.len()
            invariant_except_break
                rest@ == path@,
                first_prefix(list, path@, 0) == first_prefix(list, path@, i as int),
            invariant
                list == texts(prefixes@),
                i <= prefixes@.len(),
            ensures
                rest@ == (match first_prefix(list, path@, 0) {
                    Some(prefix) => path@.skip(prefix.len() as int),
                    None => path@,
                }),
            decreases prefixes@.len() - i,
        {
            proof {
                assert(list[i as int] == prefixes@[i as int]@);
            }
            if let Some(tail) = strip_prefix(path, prefixes[i].as_str()) {
                rest = tail;
                break;
            }
            i += 1;
        }
    }
    match strip_prefix(rest.as_str(), "/") {
        Some(tail) => tail,
        None => rest,
    }
}

/// The URI that a request is forwarded to.
pub open spec fn target_uri_of(
    strip: bool,
    prefixes: Seq<Seq<char>>,
    path: Seq<char>,
    base: Seq<char>,
) -> Seq<char> {
    base + "/"@ + upstream_path(strip, prefixes, path)
}

/// Writes the URI that a request for an instance of a service is forwarded to.
pub fn prepare_target_uri(
    strip: bool,
    path_prefixes: &Vec<String>,
    path: &str,
    instance: &ServiceInstance,
) -> (uri: String)
    ensures
        uri@ == target_uri_of(
            strip,
            texts(path_prefixes@),
            path@,
            base_uri(instance.scheme@, instance.host@, instance.port),
        ),
{
    let base = instance.to_uri();
    let rest = stripped_path(strip, path_prefixes, path);
    joined3(base.as_str(), "/", rest.as_str())
}

/// Writes the URI that a request on a static forward goes to: the target with the
/// whole path.
pub fn static_target_uri(target: &str, path: &str) -> (uri: String)
    ensures
        uri@ == target_uri_of(false, Seq::empty(), path@, target@),
{
    let none: Vec<String> = Vec::new();
    proof {
        assert(texts(none@) =~= Seq::<Seq<char>>::empty());
    }
    let rest = stripped_path(false, &none, path);
    joined3(target, "/", rest.as_str())
}

/// Where a request goes.
pub enum RoutePlan {
    /// It is answered at once: the status, the body, and the error that is reported.
    Answer(u16, String, String),
    /// It is forwarded: the target URI, the service and the instance.
    Forward(String, String, String),
}

/// The error that is reported for a route that could not be resolved.
pub open spec fn unresolved(status: Seq<char>) -> Seq<char> {
    "route resolution failed with status "@ + status
}

/// Whether a plan is the one for a path that was resolved to a service, or to none.
pub open spec fn planned(
    config: GatewayConfig,
    registry: RegistryModel,
    counters: Map<Seq<char>, usize>,
    counters_after: Map<Seq<char>, usize>,
    path: Seq<char>,
    remote_ip: Seq<char>,
    service_id: Option<Seq<char>>,
    cache_before: GatewayCacheModel,
    cache_after: GatewayCacheModel,
    plan: RoutePlan,
) -> bool {
    match service_id {
        None => cache_after == cache_before && counters_after == counters && answers(
            plan,
            404,
            ""@,
            unresolved("404 Not Found"@),
        ),
        Some(id) => if !registry.services.contains_key(id) {
            cache_after == cache_before && counters_after == counters && answers(
                plan,
                503,
                ""@,
                unresolved("503 Service Unavailable"@),
            )
        } else {
            exists|service: ServiceDefinition| #[trigger]
                planned_for(
                    service,
                    config,
                    registry,
                    counters,
                    counters_after,
                    path,
                    remote_ip,
                    id,
                    cache_before,
                    cache_after,
                    plan,
                )
        },
    }
}

/// Whether a plan answers with a status, a body and an error.
pub open spec fn answers(plan: RoutePlan, status: u16, body: Seq<char>, error: Seq<char>) -> bool {
    match plan {
        RoutePlan::Answer(s, b, e) => s == status && b@ == body && e@ == error,
        RoutePlan::Forward(_, _, _) => false,
    }
}

/// Whether a plan is the one for a service: a healthy instance is chosen and the
/// request goes there; where there is none, the answer is 503.
pub open spec fn planned_for(
    service: ServiceDefinition,
    config: GatewayConfig,
    registry: RegistryModel,
    counters: Map<Seq<char>, usize>,
    counters_after: Map<Seq<char>, usize>,
    path: Seq<char>,
    remote_ip: Seq<char>,
    id: Seq<char>,
    cache_before: GatewayCacheModel,
    cache_after: GatewayCacheModel,
    plan: RoutePlan,
) -> bool {
    let strategy = config.routing.default_load_balancing_strategy@;
    &&& service@ == registry.services[id]
    &&& service.instances.order().no_duplicates()
    &&& service.instances.order().to_set() == service.instances@.dom()
    &&& exists|picked: Result<ServiceInstance, (u16, String)>, counter: Option<i64>, random: u32|
        #[trigger] picked_with(
            counters,
            counters_after,
            service,
            strategy,
            remote_ip,
            id,
            counter,
            random,
            picked,
        ) && turn_counted(
            cache_before,
            cache_after,
            takes_turns(strategy_named(strategy), healthy_ids(service), service.instances@),
            turn_key(strategy_named(strategy), id),
            counter,
        ) && planned_for_pick(config, service, path, id, picked, plan)
}

/// Whether a plan is the one for a choice among the instances of a service: the
/// request goes to the instance, or the refusal is the answer.
pub open spec fn planned_for_pick(
    config: GatewayConfig,
    service: ServiceDefinition,
    path: Seq<char>,
    id: Seq<char>,
    picked: Result<ServiceInstance, (u16, String)>,
    plan: RoutePlan,
) -> bool {
    match picked {
        Err((status, message)) => answers(plan, status, message@, message@),
        Ok(instance) => match plan {
            RoutePlan::Forward(uri, service_id, instance_id) => service_id@ == id && instance_id@
                == instance.instance_id@ && uri@ == target_uri_of(
                config.routing.strip_prefix,
                service@.path_prefixes,
                path,
                base_uri(instance.scheme@, instance.host@, instance.port),
            ),
            RoutePlan::Answer(_, _, _) => false,
        },
    }
}

/// Finds the service that a path was resolved to. Where there is none, the request
/// is answered at once: with 404 for a path of no service, with 503 for a service
/// that is not registered.
pub fn resolve_service(registry: &ServiceRegistry, service_id: &Option<String>) -> (service: Result<
    (String, ServiceDefinition),
    RoutePlan,
>)
    requires
        registry.wf(),
    ensures
        match service {
            Ok((id, found)) => optional_text(*service_id) == Some(id@)
                && registry@.services.contains_key(id@) && found@ == registry@.services[id@],
            Err(plan) => match optional_text(*service_id) {
                None => answers(plan, 404, ""@, unresolved("404 Not Found"@)),
                Some(id) => !registry@.services.contains_key(id) && answers(
                    plan,
                    503,
                    ""@,
                    unresolved("503 Service Unavailable"@),
                ),
            },
        },
{
    let id = match service_id {
        Some(id) => id,
        None => {
            let error = joined("route resolution failed with status ", "404 Not Found");
            return Err(RoutePlan::Answer(404, "".to_owned(), error));
        },
    };
    match registry.get_service(id.as_str()) {
        Some(service) => Ok((id.clone(), service)),
        None => {
            let error = joined("route resolution failed with status ", "503 Service Unavailable");
            Err(RoutePlan::Answer(503, "".to_owned(), error))
        },
    }
}

/// Plans a request after the choice among the instances of a service.
pub fn plan_for_pick(
    config: &GatewayConfig,
    service: &ServiceDefinition,
    path: &str,
    service_id: &str,
    picked: &Result<ServiceInstance, (u16, String)>,
) -> (plan: RoutePlan)
    ensures
        planned_for_pick(*config, *service, path@, service_id@, *picked, plan),
{
    match picked {
        Ok(instance) => {
            let uri = prepare_target_uri(
                config.routing.strip_prefix,
                &service.path_prefixes,
                path,
                instance,
            );
            RoutePlan::Forward(uri, service_id.to_owned(), instance.instance_id.clone())
        },
        Err(refusal) => RoutePlan::Answer(refusal.0, refusal.1.clone(), refusal.1.clone()),
    }
}

/// Plans a request for a path that was resolved to a service, or to none.
pub fn plan_for_service(
    handler: &mut ProxyHandler,
    config: &GatewayConfig,
    registry: &ServiceRegistry,
    cache: &mut GatewayCache,
    service_id: &Option<String>,
    path: &str,
    remote_ip: &str,
) -> (plan: RoutePlan)
    requires
        old(handler).wf(),
        registry.wf(),
    ensures
        final(handler).wf(),
        planned(
            *config,
            registry@,
            old(handler)@,
            final(handler)@,
            path@,
            remote_ip@,
            optional_text(*service_id),
            old(cache)@,
            final(cache)@,
            plan,
        ),
{
    let ghost counters = handler@;
    let ghost cache_before = cache@;
    let (id, service) = match resolve_service(registry, service_id) {
        Ok(found) => found,
        Err(plan) => {
            return plan;
        },
    };
    let strategy = &config.routing.default_load_balancing_strategy;
    let picked = handler.pick_instance(
        cache,
        strategy.as_str(),
        remote_ip,
        id.as_str(),
        &service,
    );
    let plan = plan_for_pick(config, &service, path, id.as_str(), &picked);
    let _ = service.instances.len();
    proof {
        assert(planned_for(
            service,
            *config,
            registry@,
            counters,
            handler@,
            path@,
            remote_ip@,
            id@,
            cache_before,
            cache@,
            plan,
        ));
    }
    plan
}

/// A plan that waits for its turn to be counted: the service, and the key of the
/// shared counter where the choice takes turns.
pub struct PendingPlan {
    pub service_id: String,
    pub service: ServiceDefinition,
    pub counter_key: Option<String>,
}

/// Begins to plan a request for a path that was resolved to a service, or to none, as
/// far as it goes without the shared counter. Where there is no such service, the
/// request is answered at once.
pub fn begin_plan(config: &GatewayConfig, registry: &ServiceRegistry, service_id: &Option<String>) -> (begun: Result<
    PendingPlan,
    RoutePlan,
>)
    requires
        registry.wf(),
    ensures
        match begun {
            Ok(pending) => {
                let strategy = strategy_named(config.routing.default_load_balancing_strategy@);
                let id = pending.service_id@;
                &&& optional_text(*service_id) == Some(id)
                &&& registry@.services.contains_key(id)
                &&& pending.service@ == registry@.services[id]
                &&& pending.service.instances.order().no_duplicates()
                &&& pending.service.instances.order().to_set() == pending.service.instances@.dom()
                &&& pending.counter_key is Some == takes_turns(
                    strategy,
                    healthy_ids(pending.service),
                    pending.service.instances@,
                )
                &&& pending.counter_key matches Some(key) ==> key@ == turn_key(strategy, id)
            },
            Err(plan) => match optional_text(*service_id) {
                None => answers(plan, 404, ""@, unresolved("404 Not Found"@)),
                Some(id) => !registry@.services.contains_key(id) && answers(
                    plan,
                    503,
                    ""@,
                    unresolved("503 Service Unavailable"@),
                ),
            },
        },
{
    let (id, service) = match resolve_service(registry, service_id) {
        Ok(found) => found,
        Err(plan) => {
            return Err(plan);
        },
    };
    let _ = service.instances.len();
    let strategy = &config.routing.default_load_balancing_strategy;
    let counter_key = ProxyHandler::counter_key(strategy.as_str(), id.as_str(), &service);
    Ok(PendingPlan { service_id: id, service, counter_key })
}

/// Whether a plan is the one that a count and a random number lead to.
pub open spec fn plan_finished(
    config: GatewayConfig,
    counters: Map<Seq<char>, usize>,
    counters_after: Map<Seq<char>, usize>,
    pending: PendingPlan,
    path: Seq<char>,
    remote_ip: Seq<char>,
    counter: Option<i64>,
    random: u32,
    plan: RoutePlan,
) -> bool {
    exists|picked: Result<ServiceInstance, (u16, String)>| #[trigger]
        picked_with(
            counters,
            counters_after,
            pending.service,
            config.routing.default_load_balancing_strategy@,
            remote_ip,
            pending.service_id@,
            counter,
            random,
            picked,
        ) && planned_for_pick(
            config,
            pending.service,
            path,
            pending.service_id@,
            picked,
            plan,
        )
}

/// Finishes a plan, given what the shared counter counted, where it did, and a random
/// number.
pub fn finish_plan(
    handler: &mut ProxyHandler,
    config: &GatewayConfig,
    pending: &PendingPlan,
    path: &str,
    remote_ip: &str,
    counter: Option<i64>,
    random: u32,
) -> (plan: RoutePlan)
    requires
        old(handler).wf(),
    ensures
        final(handler).wf(),
        plan_finished(
            *config,
            old(handler)@,
            final(handler)@,
            *pending,
            path@,
            remote_ip@,
            counter,
            random,
            plan,
        ),
{
    let strategy = &config.routing.default_load_balancing_strategy;
    let picked = handler.pick_with(
        strategy.as_str(),
        remote_ip,
        pending.service_id.as_str(),
        &pending.service,
        counter,
        random,
    );
    plan_for_pick(config, &pending.service, path, pending.service_id.as_str(), &picked)
}

/// Planning in steps comes to what planning at once does: a plan that was begun, whose
/// turn was counted under its key, and that was finished with that count is the plan
/// for the service.
pub proof fn steps_plan_for_the_service(
    config: GatewayConfig,
    registry: RegistryModel,
    counters: Map<Seq<char>, usize>,
    counters_after: Map<Seq<char>, usize>,
    pending: PendingPlan,
    path: Seq<char>,
    remote_ip: Seq<char>,
    counter: Option<i64>,
    random: u32,
    before: GatewayCacheModel,
    after: GatewayCacheModel,
    plan: RoutePlan,
)
    requires
        registry.services.contains_key(pending.service_id@),
        pending.service@ == registry.services[pending.service_id@],
        pending.service.instances.order().no_duplicates(),
        pending.service.instances.order().to_set() == pending.service.instances@.dom(),
        ({
            let strategy = strategy_named(config.routing.default_load_balancing_strategy@);
            turn_counted(
                before,
                after,
                takes_turns(strategy, healthy_ids(pending.service), pending.service.instances@),
                turn_key(strategy, pending.service_id@),
                counter,
            )
        }),
        plan_finished(
            config,
            counters,
            counters_after,
            pending,
            path,
            remote_ip,
            counter,
            random,
            plan,
        ),
    ensures
        planned(
            config,
            registry,
            counters,
            counters_after,
            path,
            remote_ip,
            Some(pending.service_id@),
            before,
            after,
            plan,
        ),
{
    assert(planned_for(
        pending.service,
        config,
        registry,
        counters,
        counters_after,
        path,
        remote_ip,
        pending.service_id@,
        before,
        after,
        plan,
    ));
}

/// The error that is reported where a service resolves to the gateway itself.
pub open spec fn self_routing_message(service_id: Seq<char>) -> Seq<char> {
    "self-routing loop: service '"@ + service_id + "' resolves to the gateway's own address"@
}

/// The error that is reported where a service resolves to the gateway itself.
pub fn self_routing_error(service_id: &str) -> (message: String)
    ensures
        message@ == self_routing_message(service_id@),
{
    joined3("self-routing loop: service '", service_id, "' resolves to the gateway's own address")
}

/// Lets a plan stand unless it forwards a request back to the gateway itself, which
/// is answered with status 508. `resolved` holds the addresses of the host name of
/// the target, where they had to be looked up and could be found.
pub fn reject_self_routing(
    plan: RoutePlan,
    gateway_ip: IpAddress,
    gateway_port: u16,
    resolved: &Option<Vec<IpAddress>>,
) -> (kept: RoutePlan)
    ensures
        match plan {
            RoutePlan::Forward(uri, service_id, _) => if points_back(
                uri@,
                gateway_ip,
                gateway_port,
                addresses(*resolved),
            ) {
                answers(kept, 508, ""@, self_routing_message(service_id@))
            } else {
                kept == plan
            },
            RoutePlan::Answer(_, _, _) => kept == plan,
        },
        kept matches RoutePlan::Forward(uri, _, _) ==> !points_back(
            uri@,
            gateway_ip,
            gateway_port,
            addresses(*resolved),
        ),
{
    if let RoutePlan::Forward(uri, service_id, _) = &plan {
        if is_self_routing(uri.as_str(), gateway_ip, gateway_port, resolved) {
            let error = self_routing_error(service_id.as_str());
            return RoutePlan::Answer(508, "".to_owned(), error);
        }
    }
    plan
}

/// Where a request on a static forward goes: to the first target that is reachable,
/// with its whole path. Where there is none, it is answered with status 503.
pub fn static_forward_target(resolution: &StaticForwardResolution, path: &str) -> (uri: Result<
    String,
    (u16, String),
>)
    ensures
        match uri {
            Ok(uri) => resolution.reachable_targets@.len() > 0 && uri@ == target_uri_of(
                false,
                Seq::empty(),
                path@,
                resolution.reachable_targets@[0]@,
            ),
            Err((status, error)) => resolution.reachable_targets@.len() == 0 && status == 503
                && error@ == "no static forward upstream is reachable"@,
        },
{
    match selected_target(resolution) {
        Some(target) => Ok(static_target_uri(target.as_str(), path)),
        None => Err((503, "no static forward upstream is reachable".to_owned())),
    }
}

// ---------------------------------------------------------------------------
// The headers of a request
// ---------------------------------------------------------------------------

/// The number of at most `max` that a header value writes, where it is visible text.
pub open spec fn number_in(value: Option<Seq<u8>>, max: nat) -> Option<nat> {
    match value {
        Some(bytes) => match visible_text(bytes) {
            Some(text) => unsigned_in(trimmed(text), max),
            None => None,
        },
        None => None,
    }
}

/// The view of an optional header value.
pub open spec fn optional_bytes(value: Option<Vec<u8>>) -> Option<Seq<u8>> {
    match value {
        Some(bytes) => Some(bytes@),
        None => None,
    }
}

fn header_number(value: &Option<Vec<u8>>, max: u64) -> (n: Option<u64>)
    ensures
        match n {
            Some(v) => number_in(optional_bytes(*value), max as nat) == Some(v as nat) && v <= max,
            None => number_in(optional_bytes(*value), max as nat) is None,
        },
{
    match value {
        Some(bytes) => match header_text(bytes) {
            Some(text) => parse_unsigned(trim(text.as_str()).as_str(), max),
            None => None,
        },
        None => None,
    }
}

/// Reads a header value as a small number.
pub fn header_to_u8(value: &Option<Vec<u8>>) -> (n: Option<u8>)
    ensures
        match n {
            Some(v) => number_in(optional_bytes(*value), 255) == Some(v as nat),
            None => number_in(optional_bytes(*value), 255) is None,
        },
{
    match header_number(value, 255) {
        Some(v) => Some(v as u8),
        None => None,
    }
}

/// Reads a header value as a number.
pub fn header_to_u64(value: &Option<Vec<u8>>) -> (n: Option<u64>)
    ensures
        match n {
            Some(v) => number_in(optional_bytes(*value), u64::MAX as nat) == Some(v as nat),
            None => number_in(optional_bytes(*value), u64::MAX as nat) is None,
        },
{
    header_number(value, u64::MAX)
}

/// The chain of client addresses: what came in, where it is visible and not
/// blank, with the address of the client after it.
pub open spec fn forwarded_for(existing: Option<Seq<u8>>, remote_ip: Seq<char>) -> Seq<char> {
    let known = match existing {
        Some(bytes) => match visible_text(bytes) {
            Some(text) => trimmed(text),
            None => Seq::empty(),
        },
        None => Seq::empty(),
    };
    if known.len() > 0 {
        known + ", "@ + remote_ip
    } else {
        remote_ip
    }
}

/// Builds the chain of client addresses.
pub fn build_forwarded_for_header(existing: &Option<Vec<u8>>, remote_ip: &str) -> (chain: String)
    ensures
        chain@ == forwarded_for(optional_bytes(*existing), remote_ip@),
{
    if let Some(bytes) = existing {
        if let Some(text) = header_text(bytes) {
            let known = trim(text.as_str());
            if !known.as_str().is_empty() {
                return joined3(known.as_str(), ", ", remote_ip);
            }
        }
    }
    remote_ip.to_owned()
}

/// What a forwarded request tells the upstream about its way.
pub struct ForwardingMetadata {
    pub forwarded_for: String,
    pub next_hop_count: u8,
}

/// The first value that a header map gives to a name.
pub open spec fn first_value(headers: Map<Seq<char>, Seq<Seq<u8>>>, name: Seq<char>) -> Option<Seq<u8>> {
    if headers.contains_key(name) {
        Some(headers[name][0])
    } else {
        None
    }
}

/// How often a request has passed through a gateway.
pub open spec fn hop_count(headers: Map<Seq<char>, Seq<Seq<u8>>>) -> nat {
    match number_in(first_value(headers, "x-basilisk-proxy-hop"@), 255) {
        Some(n) => n,
        None => 0,
    }
}

/// Whether a request says that its body is too large.
pub open spec fn too_large(headers: Map<Seq<char>, Seq<Seq<u8>>>) -> bool {
    number_in(first_value(headers, "content-length"@), u64::MAX as nat) matches Some(n) && n
        > MAX_PROXY_REQUEST_BODY_BYTES
}

/// What a request tells the upstream about its way: the chain of client addresses and
/// the hop count; or the status and the message of a refusal.
pub open spec fn forwarding_of(headers: Map<Seq<char>, Seq<Seq<u8>>>, remote_ip: Seq<char>) -> Result<
    (Seq<char>, nat),
    (u16, Seq<char>),
> {
    let hops = hop_count(headers);
    if hops >= MAX_PROXY_HOPS {
        Err((508, "proxy loop detected after "@ + decimal(hops) + " hops"@))
    } else if too_large(headers) {
        Err((413, "request payload too large"@))
    } else {
        Ok((forwarded_for(first_value(headers, "x-forwarded-for"@), remote_ip), hops + 1))
    }
}

/// Prepares what a forwarded request tells the upstream about its way. A request
/// that has passed through too often is refused with status 508, one that is too
/// large with status 413.
pub fn prepare_forwarding_metadata(headers: &HeaderMap<HeaderValue>, remote_ip: &str) -> (metadata: Result<
    ForwardingMetadata,
    (u16, String),
>)
    ensures
        forwarding_of(headers_in(*headers), remote_ip@) == (match metadata {
            Ok(m) => Ok::<(Seq<char>, nat), (u16, Seq<char>)>(
                (m.forwarded_for@, m.next_hop_count as nat),
            ),
            Err(refusal) => Err::<(Seq<char>, nat), (u16, Seq<char>)>((refusal.0, refusal.1@)),
        }),
        ({
            let hops = hop_count(headers_in(*headers));
            match metadata {
                Ok(m) => hops < MAX_PROXY_HOPS && !too_large(headers_in(*headers))
                    && m.next_hop_count == hops + 1 && m.forwarded_for@ == forwarded_for(
                    first_value(headers_in(*headers), "x-forwarded-for"@),
                    remote_ip@,
                ),
                Err((status, message)) => if hops >= MAX_PROXY_HOPS {
                    status == 508 && message@ == "proxy loop detected after "@ + decimal(hops)
                        + " hops"@
                } else {
                    too_large(headers_in(*headers)) && status == 413 && message@
                        == "request payload too large"@
                },
            }
        }),
{
    proof {
        constant_names_are_header_names();
    }
    let hops: u8 = match header_to_u8(
        &crate::headers::first_header(headers, "x-basilisk-proxy-hop"),
    ) {
        Some(n) => n,
        None => 0,
    };
    if hops >= MAX_PROXY_HOPS {
        let message = joined3(
            "proxy loop detected after ",
            format_unsigned(hops as u64).as_str(),
            " hops",
        );
        return Err((508, message));
    }
    if let Some(length) = header_to_u64(&crate::headers::first_header(headers, "content-length")) {
        if length > MAX_PROXY_REQUEST_BODY_BYTES {
            return Err((413, "request payload too large".to_owned()));
        }
    }
    let existing = crate::headers::first_header(headers, "x-forwarded-for");
    Ok(
        ForwardingMetadata {
            forwarded_for: build_forwarded_for_header(&existing, remote_ip),
            next_hop_count: hops + 1,
        },
    )
}

proof fn constant_names_are_header_names()
    ensures
        is_header_name("x-basilisk-proxy-hop"@),
        is_header_name("content-length"@),
        is_header_name("x-forwarded-for"@),
        is_header_name("x-forwarded-port"@),
{
    reveal_strlit("x-basilisk-proxy-hop");
    reveal_strlit("content-length");
    reveal_strlit("x-forwarded-for");
    reveal_strlit("x-forwarded-port");
}

/// Whether a header concerns one connection only and is not passed on.
pub open spec fn is_hop_by_hop(name: Seq<char>) -> bool {
    let lowered = ascii_lowered(name);
    ||| lowered == ascii_lowered("connection"@)
    ||| lowered == ascii_lowered("keep-alive"@)
    ||| lowered == ascii_lowered("proxy-authenticate"@)
    ||| lowered == ascii_lowered("proxy-authorization"@)
    ||| lowered == ascii_lowered("te"@)
    ||| lowered == ascii_lowered("trailer"@)
    ||| lowered == ascii_lowered("transfer-encoding"@)
    ||| lowered == ascii_lowered("upgrade"@)
    ||| lowered == ascii_lowered("content-length"@)
}

/// Whether a header concerns one connection only and is not passed on.
pub fn is_hop_by_hop_header(name: &str) -> (yes: bool)
    ensures
        yes == is_hop_by_hop(name@),
{
    same_ignoring_case(name, "connection") || same_ignoring_case(name, "keep-alive")
        || same_ignoring_case(name, "proxy-authenticate") || same_ignoring_case(
        name,
        "proxy-authorization",
    ) || same_ignoring_case(name, "te") || same_ignoring_case(name, "trailer")
        || same_ignoring_case(name, "transfer-encoding") || same_ignoring_case(name, "upgrade")
        || same_ignoring_case(name, "content-length")
}

/// Whether a header of a request is passed on as it is.
pub open spec fn passes(name: Seq<char>) -> bool {
    &&& name != "host"@
    &&& !is_hop_by_hop(name)
    &&& name != "x-forwarded-for"@
    &&& name != "x-forwarded-port"@
    &&& name != "x-basilisk-proxy-hop"@
}

fn passes_on(name: &str) -> (yes: bool)
    ensures
        yes == passes(name@),
{
    !same_text(name, "host") && !is_hop_by_hop_header(name) && !same_text(name, "x-forwarded-for")
        && !same_text(name, "x-forwarded-port") && !same_text(name, "x-basilisk-proxy-hop")
}

/// A header map with one value put in place of those of a name, where the text
/// can stand as a value.
pub open spec fn with_text(
    headers: Map<Seq<char>, Seq<Seq<u8>>>,
    name: Seq<char>,
    text: Seq<char>,
) -> Map<Seq<char>, Seq<Seq<u8>>> {
    if is_header_value(encode_utf8(text)) {
        headers.insert(name, seq![encode_utf8(text)])
    } else {
        headers
    }
}

fn put_text(headers: &mut HeaderMap<HeaderValue>, name: &str, text: &str)
    requires
        is_header_name(name@),
        headers_in(*old(headers)).dom().finite(),
        headers_in(*old(headers)).dom().len() < name_limit(),
    ensures
        headers_in(*final(headers)) == with_text(headers_in(*old(headers)), name@, text@),
        headers_in(*final(headers)).dom().finite(),
        headers_in(*final(headers)).dom().len() <= headers_in(*old(headers)).dom().len() + 1,
{
    if let Some(bytes) = header_value_bytes(text) {
        insert_header(headers, name, &bytes);
    }
}

/// The headers that tell an upstream about the way of a request.
pub open spec fn with_forwarding(
    headers: Map<Seq<char>, Seq<Seq<u8>>>,
    chain: Seq<char>,
    remote_port: u16,
    hops: u8,
) -> Map<Seq<char>, Seq<Seq<u8>>> {
    with_text(
        with_text(
            with_text(headers, "x-forwarded-for"@, chain),
            "x-forwarded-port"@,
            decimal(remote_port as nat),
        ),
        "x-basilisk-proxy-hop"@,
        decimal(hops as nat),
    )
}

/// Puts in the headers that tell an upstream about the way of a request.
pub fn insert_forwarding_headers(
    headers: &mut HeaderMap<HeaderValue>,
    chain: &str,
    remote_port: u16,
    hops: u8,
)
    requires
        headers_in(*old(headers)).dom().finite(),
        headers_in(*old(headers)).dom().len() + 3 <= name_limit(),
    ensures
        headers_in(*final(headers)) == with_forwarding(
            headers_in(*old(headers)),
            chain@,
            remote_port,
            hops,
        ),
        headers_in(*final(headers)).dom().finite(),
        headers_in(*final(headers)).dom().len() <= headers_in(*old(headers)).dom().len() + 3,
{
    proof {
        constant_names_are_header_names();
    }
    put_text(headers, "x-forwarded-for", chain);
    put_text(headers, "x-forwarded-port", format_unsigned(remote_port as u64).as_str());
    put_text(headers, "x-basilisk-proxy-hop", format_unsigned(hops as u64).as_str());
}

/// A header map with those headers of another that are passed on after its own.
pub open spec fn with_passed(
    target: Map<Seq<char>, Seq<Seq<u8>>>,
    source: Map<Seq<char>, Seq<Seq<u8>>>,
) -> Map<Seq<char>, Seq<Seq<u8>>> {
    Map::new(
        |name: Seq<char>|
            target.contains_key(name) || (passes(name) && values_in(source, name).len() > 0),
        |name: Seq<char>|
            if passes(name) {
                values_in(target, name) + values_in(source, name)
            } else {
                values_in(target, name)
            },
    )
}

/// Copies the headers of a request that are passed on, as long as the map stays below
/// the number of names that it is given at most. Returns whether it does.
fn try_copy_headers(target: &mut HeaderMap<HeaderValue>, source: &HeaderMap<HeaderValue>) -> (fits: bool)
    requires
        headers_in(*old(target)).dom().finite(),
    ensures
        headers_in(*final(target)).dom().finite(),
        with_passed(headers_in(*old(target)), headers_in(*source)).dom().finite(),
        fits == (with_passed(headers_in(*old(target)), headers_in(*source)).dom().len()
            < name_limit()),
        fits ==> headers_in(*final(target)) == with_passed(
            headers_in(*old(target)),
            headers_in(*source),
        ),
{
    let ghost start = headers_in(*target);
    let ghost from = headers_in(*source);
    let ghost bound = with_passed(start, from).dom();
    let entries = list_headers(source);
    let ghost all = listed(entries@);
    proof {
        listed_names_are_finite(from, all);
        vstd::set_lib::lemma_len_subset(bound, start.dom().union(from.dom()));
        vstd::set_lib::lemma_len_subset(start.dom(), bound);
        assert(all.take(0) =~= Seq::<(Seq<char>, Seq<u8>)>::empty());
    }
    if count_names(target) >= 6554 {
        return false;
    }
    let mut i: usize = 0;
    while i < entries.len()
        invariant
            all == listed(entries@),
            i <= entries@.len(),
            start == headers_in(*old(target)),
            bound == with_passed(start, from).dom(),
            bound.finite(),
            from == headers_in(*source),
            headers_in(*target).dom().subset_of(bound),
            headers_in(*target).dom().finite(),
            headers_in(*target).dom().len() < name_limit(),
            forall|name: Seq<char>| #[trigger]
                values_of(all, name) == values_in(from, name),
            forall|j: int|
                0 <= j < entries@.len() ==> is_held_name((#[trigger] entries@[j]).0@)
                    && is_header_value(entries@[j].1@),
            forall|name: Seq<char>| #[trigger]
                headers_in(*target).contains_key(name) <==> start.contains_key(name) || (passes(name)
                    && values_of(all.take(i as int), name).len() > 0),
            forall|name: Seq<char>| #[trigger]
                values_in(headers_in(*target), name) == (if passes(name) {
                    values_in(start, name) + values_of(all.take(i as int), name)
                } else {
                    values_in(start, name)
                }),
        decreases entries@.len() - i,
    {
        let ghost before = headers_in(*target);
        let ghost key = entries@[i as int].0@;
        let ghost value = entries@[i as int].1@;
        proof {
            vstd::set_lib::lemma_len_subset(before.dom(), bound);
            assert(all.take(i + 1).drop_last() =~= all.take(i as int));
            assert(all.take(i + 1).last() == (key, value));
            values_grow(all, key, i + 1);
            assert(values_of(all.take(i + 1), key).len() > 0);
            assert(values_of(all, key) == values_in(from, key));
            assert(from.contains_key(key));
        }
        if passes_on(entries[i].0.as_str()) {
            append_header(target, entries[i].0.as_str(), &entries[i].1);
            proof {
                assert(headers_in(*target).dom() =~= before.dom().insert(key));
                assert(values_in(from, key).len() > 0);
                vstd::set_lib::lemma_len_subset(headers_in(*target).dom(), bound);
            }
            if count_names(target) >= 6554 {
                return false;
            }
        }
        i += 1;
        proof {
            let after = headers_in(*target);
            assert forall|name: Seq<char>| #[trigger]
                values_in(after, name) == (if passes(name) {
                    values_in(start, name) + values_of(all.take(i as int), name)
                } else {
                    values_in(start, name)
                }) by {
                assert(values_in(before, name) == (if passes(name) {
                    values_in(start, name) + values_of(all.take(i - 1), name)
                } else {
                    values_in(start, name)
                }));
                if name == key && passes(name) {
                    assert(values_in(after, name) == values_in(before, name).push(value));
                    assert(values_in(start, name) + values_of(all.take(i - 1), name).push(value)
                        =~= (values_in(start, name) + values_of(all.take(i - 1), name)).push(value));
                }
            }
            assert forall|name: Seq<char>| #[trigger]
                after.contains_key(name) <==> start.contains_key(name) || (passes(name) && values_of(
                    all.take(i as int),
                    name,
                ).len() > 0) by {
                assert(before.contains_key(name) <==> start.contains_key(name) || (passes(name)
                    && values_of(all.take(i - 1), name).len() > 0));
            }
        }
    }
    proof {
        assert(all.take(all.len() as int) =~= all);
        let result = headers_in(*target);
        let expected = with_passed(start, from);
        assert forall|name: Seq<char>| #[trigger] result.contains_key(name) == expected.contains_key(
            name,
        ) by {
            assert(values_of(all, name) == values_in(from, name));
        }
        assert forall|name: Seq<char>| #[trigger] result.contains_key(name) implies result[name]
            == expected[name] by {
            assert(values_of(all, name) == values_in(from, name));
            assert(values_in(result, name) == result[name]);
            assert(expected.contains_key(name));
        }
        assert(result =~= expected);
    }
    true
}

/// Copies the headers of a request that are passed on.
pub fn copy_request_headers(target: &mut HeaderMap<HeaderValue>, source: &HeaderMap<HeaderValue>)
    requires
        headers_in(*old(target)).dom().finite(),
        with_passed(headers_in(*old(target)), headers_in(*source)).dom().len() < name_limit(),
    ensures
        headers_in(*final(target)) == with_passed(headers_in(*old(target)), headers_in(*source)),
        headers_in(*final(target)).dom().finite(),
{
    let _ = try_copy_headers(target, source);
}

proof fn values_grow(all: Seq<(Seq<char>, Seq<u8>)>, name: Seq<char>, n: int)
    requires
        0 <= n <= all.len(),
    ensures
        values_of(all.take(n), name).len() <= values_of(all, name).len(),
    decreases all.len() - n,
{
    if n == all.len() {
        assert(all.take(n) =~= all);
    } else {
        values_grow(all, name, n + 1);
        assert(all.take(n + 1).drop_last() =~= all.take(n));
    }
}

/// A header map with the headers that middleware adds, in a given order of their
/// names. Names and values that cannot stand in a header are left out.
pub open spec fn with_added(
    headers: Map<Seq<char>, Seq<Seq<u8>>>,
    order: Seq<Seq<char>>,
    added: Map<Seq<char>, Seq<char>>,
) -> Map<Seq<char>, Seq<Seq<u8>>>
    decreases order.len(),
{
    if order.len() == 0 {
        headers
    } else {
        let before = with_added(headers, order.drop_last(), added);
        match header_name_in(order.last()) {
            Some(name) => with_text(before, name, added[order.last()]),
            None => before,
        }
    }
}

proof fn added_headers_grow(
    headers: Map<Seq<char>, Seq<Seq<u8>>>,
    order: Seq<Seq<char>>,
    added: Map<Seq<char>, Seq<char>>,
    n: int,
)
    requires
        0 <= n <= order.len(),
        headers.dom().finite(),
    ensures
        with_added(headers, order, added).dom().finite(),
        with_added(headers, order.take(n), added).dom().len() <= with_added(
            headers,
            order,
            added,
        ).dom().len(),
    decreases order.len(),
{
    if n == order.len() {
        assert(order.take(n) =~= order);
    }
    if order.len() > 0 {
        let rest = order.drop_last();
        if n < order.len() {
            assert(order.take(n) =~= rest.take(n));
            added_headers_grow(headers, rest, added, n);
        } else {
            added_headers_grow(headers, rest, added, rest.len() as int);
        }
    }
}

/// Puts in the headers that middleware adds, as long as the map stays below the
/// number of names that it is given at most. Returns whether it does.
fn try_add_headers(headers: &mut HeaderMap<HeaderValue>, added: &StringMap<String>) -> (fits: bool)
    requires
        headers_in(*old(headers)).dom().finite(),
    ensures
        headers_in(*final(headers)).dom().finite(),
        fits == (with_added(headers_in(*old(headers)), added.order(), added@).dom().len()
            < name_limit()),
        fits ==> headers_in(*final(headers)) == with_added(
            headers_in(*old(headers)),
            added.order(),
            added@,
        ),
{
    let n = added.len();
    let ghost order = added.order();
    let ghost start = headers_in(*headers);
    let mut i: usize = 0;
    proof {
        assert(order.take(0) =~= Seq::<Seq<char>>::empty());
        added_headers_grow(start, order, added@, 0);
    }
    if count_names(headers) >= 6554 {
        return false;
    }
    while i < n
        invariant
            order == added.order(),
            i <= n == order.len(),
            start == headers_in(*old(headers)),
            start.dom().finite(),
            headers_in(*headers).dom().finite(),
            headers_in(*headers).dom().len() < name_limit(),
            headers_in(*headers) == with_added(start, order.take(i as int), added@),
        decreases n - i,
    {
        proof {
            assert(order.take(i + 1).drop_last() =~= order.take(i as int));
            assert(order.take(i + 1).last() == order[i as int]);
            added_headers_grow(start, order, added@, i + 1);
        }
        if let Some(name) = canonical_header_name(added.key_at(i).as_str()) {
            put_text(headers, name.as_str(), added.value_at(i).as_str());
            if count_names(headers) >= 6554 {
                return false;
            }
        }
        i += 1;
    }
    proof {
        assert(order.take(n as int) =~= order);
    }
    true
}

/// Puts in the headers that middleware adds.
pub fn apply_middleware_forward_headers(
    headers: &mut HeaderMap<HeaderValue>,
    added: &StringMap<String>,
)
    requires
        headers_in(*old(headers)).dom().finite(),
        with_added(headers_in(*old(headers)), added.order(), added@).dom().len() < name_limit(),
    ensures
        headers_in(*final(headers)) == with_added(headers_in(*old(headers)), added.order(), added@),
        headers_in(*final(headers)).dom().finite(),
{
    let _ = try_add_headers(headers, added);
}

/// The headers of the request that goes upstream.
pub open spec fn upstream_header_map(
    source: Map<Seq<char>, Seq<Seq<u8>>>,
    chain: Seq<char>,
    remote_port: u16,
    hops: u8,
    order: Seq<Seq<char>>,
    added: Map<Seq<char>, Seq<char>>,
) -> Map<Seq<char>, Seq<Seq<u8>>> {
    with_added(
        with_passed(with_forwarding(Map::empty(), chain, remote_port, hops), source),
        order,
        added,
    )
}

/// Builds the headers of the request that goes upstream, unless there would be more
/// names than a header map is given.
pub fn try_build_upstream_headers(
    source: &HeaderMap<HeaderValue>,
    metadata: &ForwardingMetadata,
    remote_port: u16,
    added: &StringMap<String>,
) -> (headers: Option<HeaderMap<HeaderValue>>)
    ensures
        ({
            let expected = upstream_header_map(
                headers_in(*source),
                metadata.forwarded_for@,
                remote_port,
                metadata.next_hop_count,
                added.order(),
                added@,
            );
            &&& headers is Some == (expected.dom().len() < name_limit())
            &&& headers matches Some(map) ==> headers_in(map) == expected
        }),
{
    let mut headers = new_header_map();
    proof {
        assert(headers_in(headers) =~= Map::<Seq<char>, Seq<Seq<u8>>>::empty());
    }
    insert_forwarding_headers(
        &mut headers,
        metadata.forwarded_for.as_str(),
        remote_port,
        metadata.next_hop_count,
    );
    let ghost told = headers_in(headers);
    if !try_copy_headers(&mut headers, source) {
        proof {
            let passed = with_passed(told, headers_in(*source));
            added_headers_grow(passed, added.order(), added@, 0);
            assert(added.order().take(0) =~= Seq::<Seq<char>>::empty());
        }
        return None;
    }
    if try_add_headers(&mut headers, added) {
        Some(headers)
    } else {
        None
    }
}

/// Builds the headers of the request that goes upstream: those that tell about
/// its way, those of the request that are passed on, and those that middleware adds.
pub fn build_upstream_headers(
    source: &HeaderMap<HeaderValue>,
    metadata: &ForwardingMetadata,
    remote_port: u16,
    added: &StringMap<String>,
) -> (headers: HeaderMap<HeaderValue>)
    requires
        upstream_header_map(
            headers_in(*source),
            metadata.forwarded_for@,
            remote_port,
            metadata.next_hop_count,
            added.order(),
            added@,
        ).dom().len() < name_limit(),
    ensures
        headers_in(headers) == upstream_header_map(
            headers_in(*source),
            metadata.forwarded_for@,
            remote_port,
            metadata.next_hop_count,
            added.order(),
            added@,
        ),
{
    match try_build_upstream_headers(source, metadata, remote_port, added) {
        Some(headers) => headers,
        None => new_header_map(),
    }
}

// ---------------------------------------------------------------------------
// The answer
// ---------------------------------------------------------------------------

/// Whether a status reports an error of the client or of the server.
pub open spec fn is_error_status(status: u16) -> bool {
    400 <= status < 600
}

/// The error that is reported for the status of an upstream, where it is one.
pub fn upstream_error(status: u16) -> (error: Option<String>)
    ensures
        error is Some == is_error_status(status),
        error matches Some(e) ==> e@ == "upstream responded with status "@ + decimal(status as nat),
{
    if 400 <= status && status < 600 {
        Some(joined("upstream responded with status ", format_unsigned(status as u64).as_str()))
    } else {
        None
    }
}

/// The error that is reported for a request that has been answered: the one that
/// is known, or else one for its status, where that is an error.
pub open spec fn final_error(status: u16, known: Option<Seq<char>>) -> Option<Seq<char>> {
    match known {
        Some(e) => Some(e),
        None => if is_error_status(status) {
            Some("request completed with status "@ + decimal(status as nat))
        } else {
            None
        },
    }
}

/// The error that is reported for a request that has been answered.
pub fn completion_error(status: u16, known: Option<String>) -> (error: Option<String>)
    ensures
        optional_text(error) == final_error(status, optional_text(known)),
{
    match known {
        Some(e) => Some(e),
        None => if 400 <= status && status < 600 {
            Some(joined("request completed with status ", format_unsigned(status as u64).as_str()))
        } else {
            None
        },
    }
}

/// Whether a header of an upstream answer is passed back.
pub fn keeps_response_header(name: &str) -> (yes: bool)
    ensures
        yes == (ascii_lowered(name@) != ascii_lowered("connection"@)),
{
    !same_ignoring_case(name, "connection")
}

/// The status of an answer of middleware: what it set, or 500 where that is not a
/// three-digit status.
pub fn middleware_status(status: u16) -> (used: u16)
    ensures
        used == (if 100 <= status < 1000 {
            status
        } else {
            500
        }),
{
    if 100 <= status && status < 1000 {
        status
    } else {
        500
    }
}

/// A version of HTTP.
#[derive(Clone, Copy, Debug, PartialEq, Eq, Structural)]
pub enum HttpVersion {
    Http09,
    Http10,
    Http11,
    Http2,
    Http3,
}

/// The version in which an upstream is spoken to: that of the request up to
/// HTTP/2, else HTTP/1.1.
pub fn normalize_upstream_http_version(version: HttpVersion) -> (used: HttpVersion)
    ensures
        used == (if version == HttpVersion::Http3 {
            HttpVersion::Http11
        } else {
            version
        }),
{
    match version {
        HttpVersion::Http09 | HttpVersion::Http10 | HttpVersion::Http11 | HttpVersion::Http2 => version,
        HttpVersion::Http3 => HttpVersion::Http11,
    }
}

} // verus!
