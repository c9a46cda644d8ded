use axum::http::{HeaderMap, HeaderName, HeaderValue};
use basilisk::cache::runtime::GatewayCache;
use basilisk::clock::Timestamp;
use basilisk::config::GatewayConfig;
use basilisk::gateway::balancer::{parse_strategy, ProxyHandler, Strategy};
use basilisk::gateway::header_limiter::recommendations;
use basilisk::gateway::proxy::{
    advance_registry_version, apply_middleware_forward_headers, begin_plan,
    build_forwarded_for_header, build_upstream_headers, completion_error, copy_request_headers,
    finish_plan, header_to_u64, header_to_u8, is_hop_by_hop_header, keeps_response_header,
    middleware_status, next_resolve_step, normalize_upstream_http_version, plan_for_pick, plan_for_service,
    prepare_forwarding_metadata, prepare_target_uri, read_cached_route, reject_self_routing,
    resolve_service,
    resolve_service_id, route_cache_key, route_cache_value, self_routing_error,
    static_forward_target, static_target_uri, try_build_upstream_headers, upstream_error,
    HttpVersion, ResolveAction, ResolveEvent, ResolveState, RoutePlan,
    MAX_PROXY_REQUEST_BODY_BYTES,
};
use basilisk::headers::{canonical_header_name, header_value_bytes, visible_headers};
use basilisk::lua::args::StaticForwardUpstream;
use basilisk::lua::static_forward::{resolve_static_forward, selected_target};
use basilisk::models::{
    AuthInfo, InstanceInfo, InstanceStatus, RegistrationRequest, ServiceDefinition,
    ServiceInstance,
};
use basilisk::net::{is_self_routing, IpAddress};
use basilisk::observability::RuntimeTelemetry;
use basilisk::registry::ServiceRegistry;
use basilisk::string_map::StringMap;

fn now() -> Timestamp {
    Timestamp { seconds: 7, nanos: 0 }
}

fn bytes(text: &str) -> Option<Vec<u8>> {
    Some(text.as_bytes().to_vec())
}

fn instance(id: &str, port: u16, weight: i32, status: InstanceStatus) -> ServiceInstance {
    ServiceInstance {
        instance_id: id.to_string(),
        service_id: "orders".to_string(),
        token: "token".to_string(),
        scheme: "http".to_string(),
        host: "orders-svc".to_string(),
        port,
        weight,
        status,
        active_connections: 0,
        last_heartbeat_utc: now(),
    }
}

fn service(instances: Vec<ServiceInstance>) -> ServiceDefinition {
    let mut map = StringMap::new();
    for i in instances {
        map.insert(i.instance_id.clone(), i);
    }
    ServiceDefinition {
        service_id: "orders".to_string(),
        fingerprint: "fp".to_string(),
        path_prefixes: vec!["/api".to_string()],
        instances: map,
    }
}

fn register(registry: &mut ServiceRegistry, service_id: &str, instance_id: &str, prefix: &str, port: u16) {
    let result = registry.register(RegistrationRequest {
        service_id: service_id.to_string(),
        fingerprint: "abc".to_string(),
        path_prefixes: vec![prefix.to_string()],
        instance: InstanceInfo {
            instance_id: instance_id.to_string(),
            scheme: "http".to_string(),
            host: "localhost".to_string(),
            port,
            weight: 1,
        },
        auth: AuthInfo {
            kind: "none".to_string(),
            token: "token".to_string(),
        },
    });
    assert!(result.success);
}

struct Gateway {
    config: GatewayConfig,
    registry: ServiceRegistry,
    cache: GatewayCache,
    handler: ProxyHandler,
}

fn gateway() -> Gateway {
    Gateway {
        config: GatewayConfig::default(),
        registry: ServiceRegistry::new(),
        cache: GatewayCache::in_memory(),
        handler: ProxyHandler::new(),
    }
}

fn plan(gateway: &mut Gateway, path: &str) -> RoutePlan {
    let id = resolve_service_id(&gateway.config, &gateway.registry, &mut gateway.cache, path);
    plan_for_service(
        &mut gateway.handler,
        &gateway.config,
        &gateway.registry,
        &mut gateway.cache,
        &id,
        path,
        "127.0.0.1",
    )
}

#[test]
fn test_handle_proxy_not_found() {
    let mut gateway = gateway();
    match plan(&mut gateway, "/unknown") {
        RoutePlan::Answer(status, _, error) => {
            assert_eq!(status, 404);
            assert_eq!(error, "route resolution failed with status 404 Not Found");
        }
        RoutePlan::Forward(_, _, _) => panic!("nothing owns the path"),
    }
}

#[test]
fn test_handle_proxy_no_healthy_instances() {
    let mut gateway = gateway();
    register(&mut gateway.registry, "test-service", "inst-1", "/api", 19999);
    gateway
        .registry
        .update_instance_status("test-service", "inst-1", InstanceStatus::Down);
    match plan(&mut gateway, "/api/test") {
        RoutePlan::Answer(status, body, _) => {
            assert_eq!(status, 503);
            assert_eq!(body, "No healthy instances available");
        }
        RoutePlan::Forward(_, _, _) => panic!("no instance is healthy"),
    }
}

#[test]
fn proxy_handler_returns_loop_detected_when_upstream_is_self() {
    let mut gateway = gateway();
    register(&mut gateway.registry, "loopy", "loopy-1", "/loop", 8080);
    let back = plan(&mut gateway, "/loop/test");
    match &back {
        RoutePlan::Forward(uri, service_id, instance_id) => {
            assert_eq!(uri, "http://localhost:8080/test");
            assert_eq!(instance_id, "loopy-1");
            assert!(is_self_routing(uri, IpAddress::V4(0), 8080, &None));
            assert_eq!(
                self_routing_error(service_id),
                "self-routing loop: service 'loopy' resolves to the gateway's own address"
            );
        }
        RoutePlan::Answer(_, _, _) => panic!("the instance is healthy"),
    }
    match reject_self_routing(back, IpAddress::V4(0), 8080, &None) {
        RoutePlan::Answer(status, body, error) => {
            assert_eq!(status, 508);
            assert_eq!(body, "");
            assert!(error.contains("'loopy'"));
        }
        RoutePlan::Forward(_, _, _) => panic!("the target is the gateway"),
    }
    let other = plan(&mut gateway, "/loop/test");
    let kept = reject_self_routing(other, IpAddress::V4(0), 8081, &None);
    assert!(matches!(kept, RoutePlan::Forward(_, _, _)));
}

#[test]
fn is_self_routing_detects_localhost_on_same_port() {
    let any = IpAddress::V4(0);
    assert!(is_self_routing("http://localhost:8084/foo", any, 8084, &None));
    let resolved = Some(vec![IpAddress::V4(0x7f000001)]);
    assert!(is_self_routing("http://127.0.0.1:8084/foo", any, 8084, &resolved));
}

#[test]
fn addresses_of_the_machine_itself_are_alike() {
    let loopback = IpAddress::V4(0x7f00_0001);
    let own = [loopback, IpAddress::V4(0), IpAddress::V6(1), IpAddress::V6(0)];
    let hosts = ["localhost", "LocalHost", "127.0.0.1", "0.0.0.0", "[::1]"];
    for gateway in own {
        for host in hosts {
            let uri = format!("http://{host}:8084/foo");
            assert!(is_self_routing(&uri, gateway, 8084, &None), "{uri}");
        }
        let found = Some(vec![IpAddress::V4(0x7f00_0002)]);
        assert!(is_self_routing("http://gateway:8084/foo", gateway, 8084, &found));
        let found = Some(vec![IpAddress::V4(0x0a00_0001)]);
        assert!(!is_self_routing("http://gateway:8084/foo", gateway, 8084, &found));
    }
    let elsewhere = IpAddress::V4(0x0a00_0001);
    assert!(!is_self_routing("http://0.0.0.0:8084/foo", elsewhere, 8084, &None));
    let found = Some(vec![elsewhere]);
    assert!(is_self_routing("http://gateway:8084/foo", elsewhere, 8084, &found));
}

#[test]
fn is_self_routing_passes_different_port() {
    let any = IpAddress::V4(0);
    assert!(!is_self_routing("http://localhost:9000/foo", any, 8084, &None));
    let resolved = Some(vec![IpAddress::V4(0x7f000001)]);
    assert!(!is_self_routing("http://127.0.0.1:9001/foo", any, 8084, &resolved));
}

#[test]
fn is_self_routing_passes_external_host_same_port() {
    let any = IpAddress::V4(0);
    // An external host on the same port should not be flagged.
    let resolved = Some(vec![IpAddress::V4(0x0a000005)]);
    assert!(!is_self_routing("http://orders-svc:8084/foo", any, 8084, &resolved));
    assert!(!is_self_routing("http://orders-svc:8084/foo", any, 8084, &None));
    let own = IpAddress::V4(0x0a000005);
    assert!(is_self_routing("http://orders-svc:8084/foo", own, 8084, &resolved));
}

#[test]
fn prepare_target_uri_omits_port_when_instance_uses_default_port() {
    let service = service(vec![]);
    let instance = instance("orders-1", 0, 1, InstanceStatus::Up);
    let target = prepare_target_uri(true, &service.path_prefixes, "/api/ping", &instance);
    assert_eq!(target, "http://orders-svc/ping");
}

#[test]
fn target_uri_keeps_or_strips_the_prefix() {
    let prefixes = vec!["/other".to_string(), "/api".to_string(), "/api/x".to_string()];
    let i = instance("orders-1", 81, 1, InstanceStatus::Up);
    assert_eq!(prepare_target_uri(false, &prefixes, "/api/x", &i), "http://orders-svc:81/api/x");
    assert_eq!(prepare_target_uri(true, &prefixes, "/api/x", &i), "http://orders-svc:81/x");
    assert_eq!(prepare_target_uri(true, &prefixes, "/api", &i), "http://orders-svc:81/");
    assert_eq!(prepare_target_uri(true, &prefixes, "/z", &i), "http://orders-svc:81/z");
    assert_eq!(
        static_target_uri("http://127.0.0.1:90", "/static/hello"),
        "http://127.0.0.1:90/static/hello"
    );
}

#[test]
fn forwarded_for_header_appends_remote_ip_when_present() {
    let existing = bytes("10.0.0.4, 10.0.0.5");
    let actual = build_forwarded_for_header(&existing, "127.0.0.1");
    assert_eq!(actual, "10.0.0.4, 10.0.0.5, 127.0.0.1");
}

#[test]
fn forwarded_for_header_uses_remote_ip_when_absent() {
    let actual = build_forwarded_for_header(&None, "127.0.0.1");
    assert_eq!(actual, "127.0.0.1");
    assert_eq!(build_forwarded_for_header(&bytes("  "), "127.0.0.1"), "127.0.0.1");
    assert_eq!(build_forwarded_for_header(&Some(vec![0x80]), "127.0.0.1"), "127.0.0.1");
}

#[test]
fn hop_count_parser_ignores_invalid_values() {
    let invalid = bytes("not-a-number");
    assert_eq!(header_to_u8(&invalid), None);

    let valid = bytes("7");
    assert_eq!(header_to_u8(&valid), Some(7));
    assert_eq!(header_to_u8(&bytes(" 7 ")), Some(7));
    assert_eq!(header_to_u8(&bytes("256")), None);
    assert_eq!(header_to_u8(&None), None);
}

#[test]
fn content_length_parser_ignores_invalid_values() {
    let invalid = bytes("not-a-number");
    assert_eq!(header_to_u64(&invalid), None);

    let valid = bytes("1048576");
    assert_eq!(header_to_u64(&valid), Some(1_048_576));
}

fn headers(entries: &[(&'static str, &str)]) -> HeaderMap<HeaderValue> {
    let mut map = HeaderMap::new();
    for (name, value) in entries {
        map.append(HeaderName::from_static(name), HeaderValue::from_str(value).unwrap());
    }
    map
}

#[test]
fn forward_request_rejects_known_oversized_content_length() {
    let too_long = (MAX_PROXY_REQUEST_BODY_BYTES + 1).to_string();
    let map = headers(&[("content-length", too_long.as_str())]);
    let refused = prepare_forwarding_metadata(&map, "127.0.0.1");
    assert_eq!(
        refused.err(),
        Some((413, "request payload too large".to_string()))
    );
    let map = headers(&[("content-length", "10485760")]);
    assert!(prepare_forwarding_metadata(&map, "127.0.0.1").is_ok());
}

#[test]
fn requests_in_circles_are_refused() {
    let map = headers(&[("x-basilisk-proxy-hop", "3")]);
    let refused = prepare_forwarding_metadata(&map, "127.0.0.1");
    assert_eq!(
        refused.err(),
        Some((508, "proxy loop detected after 3 hops".to_string()))
    );
    let map = headers(&[("x-basilisk-proxy-hop", "2"), ("x-forwarded-for", "10.0.0.4")]);
    let metadata = prepare_forwarding_metadata(&map, "127.0.0.1").ok().unwrap();
    assert_eq!(metadata.next_hop_count, 3);
    assert_eq!(metadata.forwarded_for, "10.0.0.4, 127.0.0.1");
}

#[test]
fn upstream_headers_are_those_of_the_request_and_more() {
    let source = headers(&[
        ("host", "example.org"),
        ("connection", "close"),
        ("content-length", "3"),
        ("x-forwarded-for", "10.0.0.4"),
        ("accept", "a"),
        ("accept", "b"),
        ("x-keep", "old"),
    ]);
    let metadata = prepare_forwarding_metadata(&source, "127.0.0.1").ok().unwrap();
    let mut added = StringMap::new();
    added.insert("X-Keep".to_string(), "new".to_string());
    added.insert("bad name".to_string(), "v".to_string());
    added.insert("X-Bad".to_string(), "line\nbreak".to_string());
    let map = build_upstream_headers(&source, &metadata, 4711, &added);
    assert_eq!(map.get("x-forwarded-for").unwrap(), "10.0.0.4, 127.0.0.1");
    assert_eq!(map.get("x-forwarded-port").unwrap(), "4711");
    assert_eq!(map.get("x-basilisk-proxy-hop").unwrap(), "1");
    assert_eq!(map.get("x-keep").unwrap(), "new");
    let accepted: Vec<&HeaderValue> = map.get_all("accept").iter().collect();
    assert_eq!(accepted, vec!["a", "b"]);
    assert!(map.get("host").is_none());
    assert!(map.get("connection").is_none());
    assert!(map.get("content-length").is_none());
    assert!(map.get("x-bad").is_none());
    assert_eq!(map.keys_len(), 5);
}

#[test]
fn header_names_and_values() {
    assert_eq!(canonical_header_name("X-Basilisk-Auth").as_deref(), Some("x-basilisk-auth"));
    assert_eq!(canonical_header_name(""), None);
    assert_eq!(canonical_header_name("a b"), None);
    assert_eq!(header_value_bytes("a\tb"), Some(b"a\tb".to_vec()));
    assert_eq!(header_value_bytes("a\nb"), None);
    assert_eq!(header_value_bytes("\u{e9}"), Some(vec![0xc3, 0xa9]));
    assert!(is_hop_by_hop_header("Transfer-Encoding"));
    assert!(!is_hop_by_hop_header("accept"));
    let mut map = headers(&[("a", "1"), ("a", "2"), ("b", "3")]);
    map.append("c", HeaderValue::from_bytes(&[0xff]).unwrap());
    let visible = visible_headers(&map);
    assert_eq!(visible.get("a").unwrap(), "2");
    assert_eq!(visible.get("b").unwrap(), "3");
    assert!(!visible.contains_key("c"));
}

#[test]
fn answers_and_errors() {
    assert_eq!(upstream_error(200), None);
    assert_eq!(upstream_error(404).as_deref(), Some("upstream responded with status 404"));
    assert_eq!(upstream_error(600), None);
    assert_eq!(completion_error(204, None), None);
    assert_eq!(
        completion_error(500, None).as_deref(),
        Some("request completed with status 500")
    );
    assert_eq!(completion_error(500, Some("x".to_string())).as_deref(), Some("x"));
    assert!(!keeps_response_header("Connection"));
    assert!(keeps_response_header("etag"));
    assert_eq!(middleware_status(99), 500);
    assert_eq!(middleware_status(418), 418);
    assert_eq!(normalize_upstream_http_version(HttpVersion::Http3), HttpVersion::Http11);
    assert_eq!(normalize_upstream_http_version(HttpVersion::Http2), HttpVersion::Http2);
    assert_eq!(recommendations::DEFAULT_MAX_HEADER_SIZE_BYTES, 16 * 1024);
    assert_eq!(recommendations::RECOMMENDED_MAX_HEADER_SIZE_BYTES, 32 * 1024);
}

#[test]
fn routes_are_cached_until_the_registry_changes() {
    let mut gateway = gateway();
    assert!(resolve_service_id(&gateway.config, &gateway.registry, &mut gateway.cache, "/a/b").is_none());
    register(&mut gateway.registry, "a", "a-1", "/a", 1);
    // The miss is cached.
    assert!(resolve_service_id(&gateway.config, &gateway.registry, &mut gateway.cache, "/a/b").is_none());
    assert_eq!(advance_registry_version(&mut gateway.cache), Some(1));
    let found = resolve_service_id(&gateway.config, &gateway.registry, &mut gateway.cache, "/a/b");
    assert_eq!(found.as_deref(), Some("a"));
    assert!(gateway.cache.keys().is_empty());
    gateway.config.cache.enabled = false;
    let found = resolve_service_id(&gateway.config, &gateway.registry, &mut gateway.cache, "/a/b");
    assert_eq!(found.as_deref(), Some("a"));
    assert_eq!(route_cache_key(&None), "route-resolution:v0");
    assert_eq!(route_cache_value(&None), "__basilisk:miss__");
    assert_eq!(read_cached_route("__basilisk:miss__".to_string()), None);
    assert_eq!(read_cached_route("orders".to_string()).as_deref(), Some("orders"));
}

#[test]
fn proxy_internal_cache_keys_are_prefixed_and_do_not_collide_with_user_keys() {
    let mut gateway = gateway();
    gateway.cache.set_internal_namespace("basilisk:gateway:proxy-api");
    gateway.cache.set("route-resolution:v0", "user-owned".to_string());
    register(&mut gateway.registry, "orders", "orders-1", "/api/orders", 65530);
    gateway.config.cache.service_resolution_ttl_seconds = 120;
    match plan(&mut gateway, "/api/orders/items") {
        RoutePlan::Forward(uri, _, _) => assert_eq!(uri, "http://localhost:65530/items"),
        RoutePlan::Answer(_, _, _) => panic!("the service is known"),
    }
    assert_eq!(
        gateway.cache.get("route-resolution:v0").as_deref(),
        Some("user-owned")
    );
}

#[test]
fn a_route_without_its_service_is_unavailable() {
    let mut gateway = gateway();
    gateway.registry.bind_path_prefix("/x".to_string(), "ghost".to_string());
    match plan(&mut gateway, "/x/y") {
        RoutePlan::Answer(status, _, error) => {
            assert_eq!(status, 503);
            assert_eq!(error, "route resolution failed with status 503 Service Unavailable");
        }
        RoutePlan::Forward(_, _, _) => panic!("there is no such service"),
    }
}

fn picks(strategy: &str, service: &ServiceDefinition, turns: usize) -> Vec<String> {
    let mut handler = ProxyHandler::new();
    let mut cache = GatewayCache::in_memory();
    (0..turns)
        .map(|_| {
            let picked = handler.pick_instance(&mut cache, strategy, "10.0.0.1", "orders", service);
            picked.ok().expect("an instance is healthy").instance_id
        })
        .collect()
}

#[test]
fn round_robin_takes_turns_among_the_healthy() {
    let service = service(vec![
        instance("a", 1, 1, InstanceStatus::Up),
        instance("b", 1, 1, InstanceStatus::Down),
        instance("c", 1, 1, InstanceStatus::Up),
        instance("d", 1, 1, InstanceStatus::Degraded),
    ]);
    assert_eq!(picks("ROUND_ROBIN", &service, 4), vec!["a", "c", "a", "c"]);
    assert_eq!(picks("anything", &service, 3), vec!["a", "c", "a"]);
    assert_eq!(parse_strategy("anything"), Strategy::RoundRobin);
}

#[test]
fn weighted_round_robin_follows_the_weights() {
    let weighted = service(vec![
        instance("a", 1, 1, InstanceStatus::Up),
        instance("b", 1, 2, InstanceStatus::Up),
    ]);
    assert_eq!(
        picks("WEIGHTED_ROUND_ROBIN", &weighted, 6),
        vec!["a", "b", "b", "a", "b", "b"]
    );
    let weightless = service(vec![
        instance("a", 1, 0, InstanceStatus::Up),
        instance("b", 1, 0, InstanceStatus::Up),
    ]);
    assert_eq!(picks("WEIGHTED_ROUND_ROBIN", &weightless, 2), vec!["a", "a"]);
    assert!(ProxyHandler::counter_key("WEIGHTED_ROUND_ROBIN", "orders", &weightless).is_none());
    assert_eq!(
        ProxyHandler::counter_key("WEIGHTED_ROUND_ROBIN", "orders", &weighted).as_deref(),
        Some("balancer:wrr:orders")
    );
}

#[test]
fn weighted_round_robin_gives_turns_by_weight() {
    let weighted = service(vec![
        instance("a", 1, 2, InstanceStatus::Up),
        instance("b", 1, 1, InstanceStatus::Up),
        instance("c", 1, 0, InstanceStatus::Up),
    ]);
    let given = picks("WEIGHTED_ROUND_ROBIN", &weighted, 7);
    assert_eq!(given, vec!["a", "a", "b", "a", "a", "b", "a"]);
    for start in 0..4 {
        let window = &given[start..start + 3];
        assert_eq!(window.iter().filter(|id| *id == "a").count(), 2);
        assert_eq!(window.iter().filter(|id| *id == "b").count(), 1);
    }
}

#[test]
fn headers_with_quotes_in_their_names_are_passed_on() {
    let source = headers(&[("x\"y", "v")]);
    let metadata = prepare_forwarding_metadata(&source, "127.0.0.1").ok().unwrap();
    let map = build_upstream_headers(&source, &metadata, 4711, &StringMap::new());
    assert_eq!(map.keys_len(), 4);
    let names: Vec<&str> = map.keys().map(|name| name.as_str()).collect();
    assert!(names.contains(&"x\"y"));
    assert_eq!(canonical_header_name("x\"y"), None);
}

#[test]
fn headers_are_copied_and_added() {
    let mut map = headers(&[("accept", "a")]);
    copy_request_headers(&mut map, &headers(&[("accept", "b"), ("host", "h"), ("x-one", "1")]));
    let accepted: Vec<&HeaderValue> = map.get_all("accept").iter().collect();
    assert_eq!(accepted, vec!["a", "b"]);
    assert_eq!(map.get("x-one").unwrap(), "1");
    assert!(map.get("host").is_none());
    let mut added = StringMap::new();
    added.insert("X-One".to_string(), "2".to_string());
    apply_middleware_forward_headers(&mut map, &added);
    assert_eq!(map.get("x-one").unwrap(), "2");
    assert_eq!(map.keys_len(), 2);
}

#[test]
fn weighted_random_and_address_hash() {
    let service = service(vec![
        instance("a", 1, 1, InstanceStatus::Up),
        instance("b", 1, 3, InstanceStatus::Up),
    ]);
    let mut handler = ProxyHandler::new();
    let mut chosen = Vec::new();
    for random in 0..4 {
        let picked = handler.pick_with("WEIGHTED_RANDOM", "x", "orders", &service, None, random);
        chosen.push(picked.ok().unwrap().instance_id);
    }
    assert_eq!(chosen, vec!["a", "b", "b", "b"]);
    let first = picks("IP_HASH", &service, 1);
    assert_eq!(picks("IP_HASH", &service, 3), vec![first[0].clone(); 3]);
    for id in picks("WEIGHTED_RANDOM", &service, 8) {
        assert!(id == "a" || id == "b");
    }
}

#[test]
fn the_handler_counts_where_the_cache_does_not() {
    let service = service(vec![
        instance("a", 1, 1, InstanceStatus::Up),
        instance("b", 1, 1, InstanceStatus::Up),
    ]);
    let mut handler = ProxyHandler::new();
    let mut chosen = Vec::new();
    for counter in [None, Some(0), Some(-5), Some(1), Some(2), None] {
        let picked = handler.pick_with("ROUND_ROBIN", "x", "orders", &service, counter, 0);
        chosen.push(picked.ok().unwrap().instance_id);
    }
    assert_eq!(chosen, vec!["a", "b", "a", "a", "b", "b"]);
}

#[test]
fn records_proxy_latency_summary() {
    let mut telemetry = RuntimeTelemetry::new();
    telemetry.record_proxy_latency("proxy.middleware", 100);
    telemetry.record_proxy_latency("proxy.middleware", 300);

    let snapshot = telemetry.snapshot();
    let (_, stats) = snapshot
        .proxy_latency
        .into_iter()
        .find(|(name, _)| name == "proxy.middleware")
        .expect("proxy.middleware summary should exist");

    assert_eq!(stats.count, 2);
    assert_eq!(stats.total_micros, 400);
    assert_eq!(stats.avg_micros, 200);
    assert_eq!(stats.max_micros, 300);
}

#[test]
fn records_static_forward_health_summary() {
    let mut telemetry = RuntimeTelemetry::new();

    telemetry.record_static_forward_health("route-1", 2, 1, Some("http://upstream".to_string()));

    let snapshot = telemetry.snapshot();
    let route = snapshot
        .static_forward_routes
        .into_iter()
        .find(|route| route.route_id == "route-1")
        .expect("static forward summary should exist");

    assert_eq!(route.configured_upstreams, 2);
    assert_eq!(route.reachable_upstreams, 1);
    assert_eq!(route.status, InstanceStatus::Degraded);
    assert_eq!(route.selected_target.as_deref(), Some("http://upstream"));
}

#[test]
fn a_choice_leads_to_a_target_or_an_answer() {
    let mut gateway = gateway();
    register(&mut gateway.registry, "orders", "orders-1", "/orders", 9001);
    let found = resolve_service(&gateway.registry, &Some("orders".to_string()));
    let (id, orders) = found.ok().expect("the service is registered");
    assert_eq!(id, "orders");
    let picked = gateway.handler.pick_with("ROUND_ROBIN", "10.0.0.1", &id, &orders, Some(1), 0);
    match plan_for_pick(&gateway.config, &orders, "/orders/7", &id, &picked) {
        RoutePlan::Forward(uri, service_id, instance_id) => {
            assert!(uri.contains(":9001/"));
            assert!(uri.ends_with("7"));
            assert_eq!(service_id, "orders");
            assert_eq!(instance_id, "orders-1");
        }
        RoutePlan::Answer(_, _, _) => panic!("the instance is healthy"),
    }
    let refused = Err((503, "No healthy instances available".to_string()));
    match plan_for_pick(&gateway.config, &orders, "/orders/7", &id, &refused) {
        RoutePlan::Answer(status, body, error) => {
            assert_eq!(status, 503);
            assert_eq!(body, "No healthy instances available");
            assert_eq!(error, "No healthy instances available");
        }
        RoutePlan::Forward(_, _, _) => panic!("there is no instance"),
    }
    assert!(resolve_service(&gateway.registry, &None).is_err());
    assert!(resolve_service(&gateway.registry, &Some("ghost".to_string())).is_err());
}

#[test]
fn routes_are_resolved_step_by_step_through_a_store() {
    let mut config = GatewayConfig::default();
    config.cache.enabled = true;
    config.cache.service_resolution_ttl_seconds = 60;
    let service = || Some("orders".to_string());
    let (state, action) = next_resolve_step(&config, ResolveState::Idle, ResolveEvent::Begin);
    assert!(matches!(action, ResolveAction::ReadVersion));
    let version = ResolveEvent::Version(Some("7".to_string()));
    let (state, action) = next_resolve_step(&config, state, version);
    assert!(matches!(action, ResolveAction::ReadRoute(key) if key == "route-resolution:v7"));
    let (state, action) = next_resolve_step(&config, state, ResolveEvent::Route(None));
    assert!(matches!(action, ResolveAction::AskRegistry));
    let (state, action) = next_resolve_step(&config, state, ResolveEvent::Resolved(service()));
    match action {
        ResolveAction::WriteRoute(key, value, ttl) => {
            assert_eq!(key, "route-resolution:v7");
            assert_eq!(value, "orders");
            assert_eq!(ttl, 60);
        }
        _ => panic!("the route is stored"),
    }
    let (state, action) = next_resolve_step(&config, state, ResolveEvent::Written);
    assert!(matches!(action, ResolveAction::Answer(found) if found == service()));
    assert!(matches!(state, ResolveState::Done));

    let held = ResolveState::AwaitsRoute("k".to_string());
    let missing = ResolveEvent::Route(Some("__basilisk:miss__".to_string()));
    let (_, action) = next_resolve_step(&config, held, missing);
    assert!(matches!(action, ResolveAction::Answer(None)));
    // An event that was not awaited starts over.
    let held = ResolveState::AwaitsRoute("k".to_string());
    let (_, action) = next_resolve_step(&config, held, ResolveEvent::Written);
    assert!(matches!(action, ResolveAction::ReadVersion));

    config.cache.enabled = false;
    let (state, action) = next_resolve_step(&config, ResolveState::Idle, ResolveEvent::Begin);
    assert!(matches!(action, ResolveAction::AskRegistry));
    let (_, action) = next_resolve_step(&config, state, ResolveEvent::Resolved(service()));
    assert!(matches!(action, ResolveAction::Answer(found) if found == service()));
}

#[test]
fn plans_are_made_in_two_steps() {
    let mut gateway = gateway();
    register(&mut gateway.registry, "orders", "orders-1", "/orders", 9001);
    let orders = Some("orders".to_string());
    let pending = begin_plan(&gateway.config, &gateway.registry, &orders);
    let pending = pending.ok().expect("the service is registered");
    assert_eq!(pending.counter_key.as_deref(), Some("balancer:rr:orders"));
    let plan = finish_plan(
        &mut gateway.handler,
        &gateway.config,
        &pending,
        "/orders/7",
        "10.0.0.1",
        Some(1),
        0,
    );
    match plan {
        RoutePlan::Forward(uri, service_id, instance_id) => {
            assert!(uri.contains(":9001/"));
            assert_eq!(service_id, "orders");
            assert_eq!(instance_id, "orders-1");
        }
        RoutePlan::Answer(_, _, _) => panic!("the instance is healthy"),
    }
    match begin_plan(&gateway.config, &gateway.registry, &None) {
        Err(RoutePlan::Answer(status, _, _)) => assert_eq!(status, 404),
        _ => panic!("there is no service"),
    }
}

#[test]
fn upstream_headers_are_limited() {
    let source = headers(&[("accept", "a")]);
    let metadata = prepare_forwarding_metadata(&source, "127.0.0.1").ok().unwrap();
    let few = try_build_upstream_headers(&source, &metadata, 4711, &StringMap::new());
    assert_eq!(few.expect("there are few names").get("accept").unwrap(), "a");
    let mut added = StringMap::new();
    for i in 0..6549 {
        added.insert(format!("x-{i}"), "v".to_string());
    }
    let most = try_build_upstream_headers(&source, &metadata, 4711, &added);
    assert_eq!(most.expect("there are not too many names").keys_len(), 6553);
    // Only what is put in counts: not a name that is there already, nor a bad one.
    added.insert("Accept".to_string(), "b".to_string());
    added.insert("bad name".to_string(), "v".to_string());
    assert!(try_build_upstream_headers(&source, &metadata, 4711, &added).is_some());
    added.insert("x-more".to_string(), "v".to_string());
    assert!(try_build_upstream_headers(&source, &metadata, 4711, &added).is_none());
}

#[test]
fn proxy_handler_routes_static_forward_and_reports_degraded_health() {
    let upstreams = vec![
        StaticForwardUpstream {
            scheme: "http".to_string(),
            host: "127.0.0.1".to_string(),
            port: 9001,
        },
        StaticForwardUpstream {
            scheme: "http".to_string(),
            host: "127.0.0.1".to_string(),
            port: 9002,
        },
    ];
    let resolution = resolve_static_forward("route-1", &upstreams, &vec![true, false]);
    let target = selected_target(&resolution).expect("one upstream is reachable");
    assert_eq!(static_target_uri(&target, "/static/hello"), "http://127.0.0.1:9001/static/hello");
    assert_eq!(
        static_forward_target(&resolution, "/static/hello"),
        Ok("http://127.0.0.1:9001/static/hello".to_string())
    );
    let unreachable = resolve_static_forward("route-1", &upstreams, &vec![false, false]);
    assert_eq!(
        static_forward_target(&unreachable, "/static/hello"),
        Err((503, "no static forward upstream is reachable".to_string()))
    );
    let mut telemetry = RuntimeTelemetry::new();
    telemetry.record_static_forward_health(
        &resolution.route_id,
        resolution.configured_upstreams,
        resolution.reachable_upstreams,
        Some(target),
    );
    let summary = telemetry
        .snapshot()
        .static_forward_routes
        .into_iter()
        .next()
        .expect("static forward summary should exist");
    assert_eq!(summary.status, InstanceStatus::Degraded);
    assert_eq!(summary.configured_upstreams, 2);
    assert_eq!(summary.reachable_upstreams, 1);
    assert_eq!(summary.selected_target.as_deref(), Some("http://127.0.0.1:9001"));
}
