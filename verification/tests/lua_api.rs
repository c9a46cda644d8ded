use axum::http::{HeaderMap, HeaderName, HeaderValue};
use basilisk::clock::{utc_now, Moment, MonotonicClock, Timestamp};
use basilisk::config::GatewayConfig;
use basilisk::json::JsonValue;
use basilisk::lua::args::{
    default_port_for_scheme, matcher_applies, parse_lua_rule_key_array, parse_lua_string_array,
    parse_middleware_use_args, parse_proxy_forward_args, parse_rule_keys_value,
    parse_static_forward_upstream_uri, parse_static_forward_upstreams, MatchDecision,
    MiddlewareMatcher, StaticForwardUpstream, UpstreamArg,
};
use basilisk::lua::middleware::{
    evaluate_allowlist, latest_response, AllowlistStep, MiddlewareExecutionResult,
    MiddlewareExecutionState, MiddlewareResponse, MiddlewareRun, RuleOutcome,
};
use basilisk::lua::rules::{
    claimed_ip_text, claimed_port, compare_claims, eval_net_rule, eval_path_rule, extract_host,
    host_rule, normalize_host_value, normalize_ip_string, path_matches_pattern, request_facts,
    NetRule, PathRule,
};
use basilisk::lua::scripts::{check_local, check_script, extension_of, LoadedFiles};
use basilisk::lua::settings::{apply_setting, cache_namespace, Setting};
use basilisk::lua::static_forward::{
    new_route_id, next_mount, resolve_static_forward, selected_target, MountStep,
};
use basilisk::lua::value::{lua_value_to_json, LuaKey, LuaValue};
use basilisk::models::InstanceStatus;
use basilisk::net::{
    cidr_network, ip_in_subnet, is_private_or_loopback, parse_cidr, parse_target_host_and_port,
    IpAddress,
};
use basilisk::observability::RuntimeTelemetry;
use basilisk::retry::{ConnectAttempts, MAX_CONNECT_ATTEMPTS};
use basilisk::service_bus::contracts::ServiceBusEventEnvelope;
use basilisk::string_map::StringMap;

fn text(s: &str) -> LuaValue {
    LuaValue::Text(s.to_string())
}

fn array(items: Vec<LuaValue>) -> Vec<(LuaKey, LuaValue)> {
    items
        .into_iter()
        .enumerate()
        .map(|(i, v)| (LuaKey::Integer(i as i64 + 1), v))
        .collect()
}

fn response(status: u16, body: &str) -> MiddlewareResponse {
    MiddlewareResponse {
        status,
        body: body.to_string(),
        headers: StringMap::new(),
    }
}

#[test]
fn load_config_and_runtime_exposes_lua_only_configuration() {
    let mut config = GatewayConfig::default();
    assert!(apply_setting(&mut config, Setting::ServerPort(9191)).is_ok());
    assert!(apply_setting(&mut config, Setting::StripPrefix(true)).is_ok());
    assert!(apply_setting(&mut config, Setting::BusMaxMessageChars(9000)).is_ok());
    assert_eq!(config.server.port, 9191);
    assert!(config.routing.strip_prefix);
    assert_eq!(config.service_bus.max_message_chars, 9000);
}

#[test]
fn settings_change_their_field_or_are_refused() {
    let mut config = GatewayConfig::default();
    assert!(apply_setting(&mut config, Setting::CacheTtlSeconds(7)).is_ok());
    assert_eq!(config.cache.ttl_seconds, 7);
    assert_eq!(config.cache.service_resolution_ttl_seconds, 7);
    let refused = apply_setting(
        &mut config,
        Setting::ProxyFailureThreshold("down_threshold".to_string(), 0),
    );
    assert_eq!(refused, Err("down_threshold must be >= 1".to_string()));
    assert_eq!(config.service_bus.proxy_failure_threshold, 3);
    let set = Setting::ProxyFailureThreshold("failure_threshold".to_string(), 5);
    assert!(apply_setting(&mut config, set).is_ok());
    assert_eq!(config.service_bus.proxy_failure_threshold, 5);
    assert!(apply_setting(&mut config, Setting::CacheProvider("disk".to_string())).is_err());
    assert_eq!(config.cache.provider, "memory");
    assert!(apply_setting(&mut config, Setting::CacheProvider("redis".to_string())).is_ok());
    assert_eq!(config.cache.provider, "redis");
    assert_eq!(cache_namespace(&config), "basilisk:gateway:runtime");
    for setting in [
        Setting::ServerHost("h".to_string()),
        Setting::TlsEnabled(true),
        Setting::TlsCertFile("c".to_string()),
        Setting::TlsKeyFile("k".to_string()),
        Setting::LoadBalancingStrategy("IP_HASH".to_string()),
        Setting::CacheEnabled(false),
        Setting::CacheKeyPrefix("p".to_string()),
        Setting::CacheStrategy("lfu".to_string()),
        Setting::ServiceRegistrationAuth("NONE".to_string()),
        Setting::RegistrationToken("t".to_string()),
        Setting::MetricsEnabled(false),
        Setting::TracingEnabled(false),
        Setting::LogLevel("debug".to_string()),
        Setting::BusEnabled(false),
        Setting::BusHost("b".to_string()),
        Setting::BusPort(1),
        Setting::ConnectionHealthEnabled(true),
        Setting::MonitoringEnabled(false),
    ] {
        assert!(apply_setting(&mut config, setting).is_ok());
    }
    assert_eq!(config.server.host, "h");
    assert!(config.server.tls.enabled);
    assert_eq!(config.server.tls.cert_file, "c");
    assert_eq!(config.server.tls.key_file, "k");
    assert_eq!(config.routing.default_load_balancing_strategy, "IP_HASH");
    assert!(!config.cache.enabled);
    assert_eq!(config.cache.key_prefix, "p");
    assert_eq!(config.cache.strategy, "lfu");
    assert_eq!(config.security.service_registration_auth, "NONE");
    assert_eq!(config.security.registration_token, "t");
    assert!(!config.observability.metrics_enabled);
    assert!(!config.observability.tracing_enabled);
    assert_eq!(config.observability.log_level, "debug");
    assert!(!config.service_bus.enabled);
    assert_eq!(config.service_bus.host, "b");
    assert_eq!(config.service_bus.port, 1);
    assert!(config.service_bus.connection_health_enabled);
    assert!(!config.service_bus.monitoring_enabled);
}

#[test]
fn allow_all_runtime_never_short_circuits() {
    let run = MiddlewareRun::new(0);
    assert_eq!(run.next_middleware(), None);
    let result = run.finish();
    assert!(result.short_circuit_response.is_none());
}

#[test]
fn middleware_pipeline_supports_next_and_short_circuit() {
    let mut run = MiddlewareRun::new(3);
    assert_eq!(run.next_middleware(), Some(0));
    run.skip();
    assert_eq!(run.next_middleware(), Some(1));
    let mut state = MiddlewareExecutionState::new();
    state.set_status(403);
    state.set_header("x-policy".to_string(), "lua".to_string());
    state.send(Some("blocked".to_string()));
    let (response, headers) = state.into_outcome();
    run.record(response, headers);
    // The third middleware never has its turn.
    assert_eq!(run.next_middleware(), None);
    let denied = run
        .finish()
        .short_circuit_response
        .expect("expected middleware short-circuit response");
    assert_eq!(denied.status, 403);
    assert_eq!(denied.body, "blocked");
    assert_eq!(denied.headers.get("x-policy").unwrap(), "lua");
}

#[test]
fn forward_headers_are_accumulated_across_middleware() {
    let mut run = MiddlewareRun::new(2);
    let mut first = MiddlewareExecutionState::new();
    assert!(first
        .forward_header("X-Request-ID".to_string(), "req-123".to_string())
        .is_ok());
    first.mark_next_called();
    let (response, headers) = first.into_outcome();
    run.record(response, headers);
    let mut second = MiddlewareExecutionState::new();
    assert!(second
        .forward_header("X-Service-Name".to_string(), "test-service".to_string())
        .is_ok());
    let (response, headers) = second.into_outcome();
    run.record(response, headers);
    let result = run.finish();
    assert!(result.short_circuit_response.is_none());
    assert_eq!(result.forward_headers.get("X-Request-ID").unwrap(), "req-123");
    assert_eq!(result.forward_headers.get("X-Service-Name").unwrap(), "test-service");
}

#[test]
fn reserved_header_x_basilisk_auth_cannot_be_set_by_middleware() {
    let mut state = MiddlewareExecutionState::new();
    let refused = state.forward_header("X-Basilisk-Auth".to_string(), "x".to_string());
    assert_eq!(
        refused,
        Err("Header 'X-Basilisk-Auth' is reserved and cannot be set by middleware".to_string()),
        "Setting X-Basilisk-Auth should cause an error"
    );
    // The Kelvin sign is a capital k.
    assert!(state
        .forward_header("x-basilis\u{212a}-auth".to_string(), "x".to_string())
        .is_err());
    assert!(state.into_outcome().1.is_empty());
}

#[test]
fn req_auth_sets_reserved_forward_header_with_base64url_payload() {
    let payload = LuaValue::Table(vec![
        (LuaKey::Text("sub".to_string()), text("user-123")),
        (LuaKey::Text("roles".to_string()), LuaValue::Table(array(vec![text("admin")]))),
        (LuaKey::Text("enabled".to_string()), LuaValue::Boolean(true)),
        (LuaKey::Text("level".to_string()), LuaValue::Integer(7)),
    ]);
    match lua_value_to_json(&payload).ok().unwrap() {
        JsonValue::Fields(fields) => {
            assert_eq!(fields.len(), 4);
            assert!(matches!(&fields[0].1, JsonValue::Text(s) if s == "user-123"));
            assert!(matches!(&fields[1].1, JsonValue::List(items) if items.len() == 1));
            assert!(matches!(&fields[2].1, JsonValue::Bool(true)));
            assert!(matches!(&fields[3].1, JsonValue::Number(n) if n == "7"));
        }
        _ => panic!("an object was expected"),
    }
    let mut state = MiddlewareExecutionState::new();
    state.set_auth("{\"a\":\"\u{ff}?>~\"}");
    let headers = state.into_outcome().1;
    assert_eq!(headers.get("X-Basilisk-Auth").unwrap(), "eyJhIjoiw78_Pn4ifQ");
    let mut state = MiddlewareExecutionState::new();
    state.set_auth("a");
    assert_eq!(state.into_outcome().1.get("X-Basilisk-Auth").unwrap(), "YQ");
}

#[test]
fn tables_become_arrays_or_objects() {
    let list = LuaValue::Table(array(vec![LuaValue::Integer(-1), LuaValue::Number("1.5".to_string())]));
    assert!(matches!(lua_value_to_json(&list), Ok(JsonValue::List(items)) if items.len() == 2));
    let empty = LuaValue::Table(vec![]);
    assert!(matches!(lua_value_to_json(&empty), Ok(JsonValue::List(items)) if items.is_empty()));
    let mixed = LuaValue::Table(vec![
        (LuaKey::Integer(1), text("a")),
        (LuaKey::Integer(3), text("c")),
        (LuaKey::Number("2.5".to_string()), text("x")),
        (LuaKey::Text("1".to_string()), text("b")),
    ]);
    match lua_value_to_json(&mixed) {
        Ok(JsonValue::Fields(fields)) => {
            assert_eq!(fields.len(), 3);
            assert_eq!(fields[0].0, "1");
            assert!(matches!(&fields[0].1, JsonValue::Text(s) if s == "b"));
        }
        _ => panic!("an object was expected"),
    }
    let bad_key = LuaValue::Table(vec![(LuaKey::Other, text("a"))]);
    assert_eq!(
        lua_value_to_json(&bad_key).err().as_deref(),
        Some("req.auth payload table keys must be string or number")
    );
    let bad_value = LuaValue::Table(array(vec![LuaValue::Function(0)]));
    assert_eq!(
        lua_value_to_json(&bad_value).err().as_deref(),
        Some("req.auth payload supports only nil, boolean, number, string, and table values")
    );
    assert!(matches!(lua_value_to_json(&LuaValue::Nil), Ok(JsonValue::Null)));
}

#[test]
fn responses_end_requests_in_several_ways() {
    let mut state = MiddlewareExecutionState::new();
    state.json("{}".to_string());
    let made = state.into_outcome().0.unwrap();
    assert_eq!(made.status, 200);
    assert_eq!(made.headers.get("content-type").unwrap(), "application/json");
    let mut state = MiddlewareExecutionState::new();
    state.set_status(204);
    state.send(None);
    assert_eq!(state.into_outcome().0.unwrap().body, "");
    let mut state = MiddlewareExecutionState::new();
    state.end();
    assert!(state.into_outcome().0.is_some());
    assert!(MiddlewareExecutionState::new().into_outcome().0.is_none());
    let last = latest_response(Some(response(200, "a")), Some(response(201, "b")));
    assert_eq!(last.unwrap().body, "b");
    let last = latest_response(Some(response(200, "a")), None);
    assert_eq!(last.unwrap().body, "a");
}

fn applying(matchers: &[MiddlewareMatcher], path: &str) -> bool {
    matchers
        .iter()
        .any(|m| matcher_applies(m, path) == MatchDecision::Applies)
}

#[test]
fn middleware_can_be_mounted_on_multiple_routes_using_array() {
    let args = vec![
        LuaValue::Table(array(vec![
            text("/api/users"),
            text("/api/orders"),
            text("/api/products"),
        ])),
        LuaValue::Function(4),
    ];
    let (matchers, handler) = parse_middleware_use_args(&args).ok().unwrap();
    assert_eq!(handler, 4);
    assert_eq!(matchers.len(), 3);
    for path in ["/api/users", "/api/orders", "/api/products"] {
        assert!(applying(&matchers, path), "middleware should apply to path {path}");
    }
    assert!(!applying(&matchers, "/api/inventory"));
}

/// Runs a chain of mounts, each with what its handler does.
fn run_chain(
    mounts: &[(Vec<LuaValue>, fn(&mut MiddlewareExecutionState))],
    path: &str,
) -> MiddlewareExecutionResult {
    let mut run = MiddlewareRun::new(mounts.len());
    while let Some(i) = run.next_middleware() {
        let (matchers, _) = parse_middleware_use_args(&mounts[i].0).ok().unwrap();
        if applying(&matchers, path) {
            let mut state = MiddlewareExecutionState::new();
            (mounts[i].1)(&mut state);
            let (response, headers) = state.into_outcome();
            run.record(response, headers);
        } else {
            run.skip();
        }
    }
    run.finish()
}

fn forbid(state: &mut MiddlewareExecutionState) {
    state.set_status(403);
    state.send(Some("forbidden".to_string()));
}

fn mark(state: &mut MiddlewareExecutionState, name: &str, value: &str) {
    assert!(state.forward_header(name.to_string(), value.to_string()).is_ok());
    state.mark_next_called();
}

fn prefixes(list: &[&str]) -> Vec<LuaValue> {
    vec![
        LuaValue::Table(array(list.iter().map(|s| text(s)).collect())),
        LuaValue::Function(0),
    ]
}

#[test]
fn multi_path_middleware_can_short_circuit() {
    let mounts: [(Vec<LuaValue>, fn(&mut MiddlewareExecutionState)); 1] =
        [(prefixes(&["/admin", "/restricted", "/private"]), forbid)];
    for path in ["/admin", "/restricted", "/private"] {
        let response = run_chain(&mounts, path)
            .short_circuit_response
            .expect("expected short-circuit response");
        assert_eq!(response.status, 403);
        assert_eq!(response.body, "forbidden");
    }
}

#[test]
fn multi_path_and_single_path_middleware_can_coexist() {
    let mounts: [(Vec<LuaValue>, fn(&mut MiddlewareExecutionState)); 3] = [
        (prefixes(&["/api/v1", "/api/v2"]), |s| mark(s, "X-Version", "multi")),
        (vec![text("/admin"), LuaValue::Function(0)], |s| mark(s, "X-Admin", "true")),
        (vec![LuaValue::Function(0)], |s| mark(s, "X-Global", "true")),
    ];
    let headers = run_chain(&mounts, "/api/v1").forward_headers;
    assert_eq!(headers.get("X-Version").map(String::as_str), Some("multi"));
    assert_eq!(headers.get("X-Global").map(String::as_str), Some("true"));
    assert!(headers.get("X-Admin").is_none());
    let headers = run_chain(&mounts, "/admin").forward_headers;
    assert_eq!(headers.get("X-Admin").map(String::as_str), Some("true"));
    assert_eq!(headers.get("X-Global").map(String::as_str), Some("true"));
    assert!(headers.get("X-Version").is_none());
    let headers = run_chain(&mounts, "/other").forward_headers;
    assert_eq!(headers.get("X-Global").map(String::as_str), Some("true"));
    assert!(headers.get("X-Version").is_none());
    assert!(headers.get("X-Admin").is_none());
}

#[test]
fn mounts_take_handlers_rules_and_prefixes() {
    let (matchers, handler) = parse_middleware_use_args(&vec![LuaValue::Function(1)]).ok().unwrap();
    assert!(matches!(matchers[0], MiddlewareMatcher::Any));
    assert_eq!(handler, 1);
    let ruled = parse_middleware_use_args(&vec![LuaValue::Function(1), LuaValue::Function(2)]);
    let (matchers, handler) = ruled.ok().unwrap();
    assert_eq!(matcher_applies(&matchers[0], "/x"), MatchDecision::AskRule(1));
    assert_eq!(handler, 2);
    let (matchers, _) = parse_middleware_use_args(&vec![text("/a"), LuaValue::Function(2)]).ok().unwrap();
    assert_eq!(matcher_applies(&matchers[0], "/b"), MatchDecision::Passes);
    assert!(parse_middleware_use_args(&vec![]).is_err());
    assert!(parse_middleware_use_args(&vec![text("/a")]).is_err());
    let empty = vec![LuaValue::Table(vec![]), LuaValue::Function(2)];
    assert_eq!(
        parse_middleware_use_args(&empty).err().as_deref(),
        Some("matcher array cannot be empty")
    );
    let bad = vec![LuaValue::Table(array(vec![LuaValue::Nil])), LuaValue::Function(2)];
    assert_eq!(
        parse_middleware_use_args(&bad).err().as_deref(),
        Some("matcher array must contain only rule functions or path prefixes")
    );
}

#[test]
fn arrays_of_strings_and_rules() {
    let strings = array(vec![text("a"), text("b")]);
    assert_eq!(parse_lua_string_array(&strings, "expects", "empty").ok().unwrap(), vec!["a", "b"]);
    assert_eq!(parse_lua_string_array(&vec![], "expects", "empty").err().as_deref(), Some("empty"));
    let mixed = array(vec![text("a"), LuaValue::Integer(1)]);
    assert_eq!(parse_lua_string_array(&mixed, "expects", "empty").err().as_deref(), Some("expects"));
    let rules = array(vec![LuaValue::Function(7), LuaValue::Function(8)]);
    assert_eq!(parse_lua_rule_key_array(&rules, "expects", "empty").ok().unwrap(), vec![7, 8]);
    assert_eq!(parse_rule_keys_value(&LuaValue::Function(3), "api").ok().unwrap(), vec![3]);
    assert_eq!(
        parse_rule_keys_value(&LuaValue::Table(vec![]), "api").err().as_deref(),
        Some("api requires at least one rule function")
    );
    assert_eq!(
        parse_rule_keys_value(&LuaValue::Nil, "api").err().as_deref(),
        Some("api expects a rule function or an array of rule functions")
    );
}

fn upstream(scheme: &str, host: &str, port: u16) -> StaticForwardUpstream {
    StaticForwardUpstream {
        scheme: scheme.to_string(),
        host: host.to_string(),
        port,
    }
}

#[test]
fn upstreams_are_read() {
    let u = parse_static_forward_upstream_uri(" https://example.org/path ").ok().unwrap();
    assert_eq!((u.scheme.as_str(), u.host.as_str(), u.port), ("https", "example.org", 443));
    let u = parse_static_forward_upstream_uri("[::1]:90").ok().unwrap();
    assert_eq!((u.scheme.as_str(), u.host.as_str(), u.port), ("http", "::1", 90));
    assert_eq!(u.to_uri(), "http://[::1]:90");
    assert_eq!(u.authority(), "[::1]:90");
    assert_eq!(upstream("HTTPS", "h", 0).authority(), "h:443");
    assert_eq!(upstream("http", "h", 0).to_uri(), "http://h");
    assert_eq!(default_port_for_scheme("http"), 80);
    assert_eq!(
        parse_static_forward_upstream_uri("  ").err().as_deref(),
        Some("proxy.forward upstream URI cannot be empty")
    );
    let list = parse_static_forward_upstreams(&vec![
        UpstreamArg::Uri("http://a:1".to_string()),
        UpstreamArg::Endpoint(None, "b".to_string(), None),
    ]);
    let list = list.ok().unwrap();
    assert_eq!(list[1].scheme, "http");
    assert_eq!(list[1].port, 0);
    let blank = vec![UpstreamArg::Endpoint(None, " ".to_string(), Some(1))];
    assert_eq!(
        parse_static_forward_upstreams(&blank).err().as_deref(),
        Some("proxy.forward upstream host is required")
    );
    assert_eq!(
        parse_static_forward_upstreams(&vec![UpstreamArg::Other]).err().as_deref(),
        Some("proxy.forward upstreams must be strings or tables")
    );
    assert_eq!(
        parse_static_forward_upstreams(&vec![]).err().as_deref(),
        Some("proxy.forward requires at least one upstream")
    );
}

#[test]
fn static_forwards_are_read_and_resolved() {
    let args = vec![LuaValue::Function(9), LuaValue::Table(vec![])];
    let upstreams = Some(vec![
        UpstreamArg::Endpoint(Some("http".to_string()), "127.0.0.1".to_string(), Some(81)),
        UpstreamArg::Endpoint(Some("http".to_string()), "127.0.0.1".to_string(), Some(82)),
    ]);
    let (matchers, list) = parse_proxy_forward_args(&args, &upstreams).ok().unwrap();
    assert_eq!(matcher_applies(&matchers[0], "/static"), MatchDecision::AskRule(9));
    let resolution = resolve_static_forward("r", &list, &vec![true, false]);
    assert_eq!(resolution.status, InstanceStatus::Degraded);
    assert_eq!(resolution.configured_upstreams, 2);
    assert_eq!(resolution.reachable_upstreams, 1);
    assert_eq!(selected_target(&resolution).as_deref(), Some("http://127.0.0.1:81"));
    let resolution = resolve_static_forward("r", &list, &vec![false, false]);
    assert_eq!(resolution.status, InstanceStatus::Down);
    assert_eq!(selected_target(&resolution), None);
    let resolution = resolve_static_forward("r", &list, &vec![true, true]);
    assert_eq!(resolution.status, InstanceStatus::Up);
    let ruled = vec![
        LuaValue::Table(array(vec![LuaValue::Function(3), LuaValue::Function(5)])),
        LuaValue::Table(vec![]),
    ];
    let (matchers, _) = parse_proxy_forward_args(&ruled, &upstreams).ok().unwrap();
    assert_eq!(matcher_applies(&matchers[1], "/static"), MatchDecision::AskRule(5));
    for items in [vec![text("/static")], vec![LuaValue::Function(3), text("/static")]] {
        let prefixed = vec![LuaValue::Table(array(items)), LuaValue::Table(vec![])];
        assert_eq!(
            parse_proxy_forward_args(&prefixed, &upstreams).err().as_deref(),
            Some("matcher array must contain only rule functions")
        );
    }
    let empty = vec![LuaValue::Table(vec![]), LuaValue::Table(vec![])];
    assert_eq!(
        parse_proxy_forward_args(&empty, &upstreams).err().as_deref(),
        Some("matcher array cannot be empty")
    );
    assert!(parse_proxy_forward_args(&args, &None).is_err());
    assert!(parse_proxy_forward_args(&vec![text("/x"), LuaValue::Nil], &upstreams).is_err());
}

#[test]
fn the_first_mount_that_applies_is_taken() {
    assert_eq!(next_mount(&vec![], 0), MountStep::NotFound);
    assert_eq!(next_mount(&vec![], 2), MountStep::Ask(0));
    assert_eq!(next_mount(&vec![RuleOutcome::DoesNotHold], 2), MountStep::Ask(1));
    assert_eq!(next_mount(&vec![RuleOutcome::DoesNotHold, RuleOutcome::Holds], 3), MountStep::Found(1));
    assert_eq!(next_mount(&vec![RuleOutcome::DoesNotHold, RuleOutcome::DoesNotHold], 2), MountStep::NotFound);
    assert_eq!(next_mount(&vec![RuleOutcome::DoesNotHold, RuleOutcome::Failed], 3), MountStep::Failed);
    let id = new_route_id();
    assert!(id.starts_with("static-forward-"));
    assert_eq!(id.len(), 15 + 36);
    assert_ne!(id, new_route_id());
}

#[test]
fn allowlists_need_one_rule_to_hold() {
    assert_eq!(evaluate_allowlist(0, &vec![]), AllowlistStep::Allowed);
    assert_eq!(evaluate_allowlist(2, &vec![]), AllowlistStep::Ask(0));
    let no = RuleOutcome::DoesNotHold;
    assert_eq!(evaluate_allowlist(2, &vec![no]), AllowlistStep::Ask(1));
    assert_eq!(evaluate_allowlist(2, &vec![no, no]), AllowlistStep::Refused);
    assert_eq!(evaluate_allowlist(2, &vec![no, RuleOutcome::Holds]), AllowlistStep::Allowed);
    assert_eq!(evaluate_allowlist(2, &vec![RuleOutcome::Failed]), AllowlistStep::Failed);
}

#[test]
fn path_rules() {
    assert!(path_matches_pattern("/api/orders/1", "/api/*/1"));
    assert!(!path_matches_pattern("/api/orders/2", "/api/*/1"));
    assert!(path_matches_pattern("/x/api/y", "api"));
    let exact = PathRule::Exact("/a".to_string());
    assert!(eval_path_rule(&exact, "/a", ""));
    assert!(!eval_path_rule(&exact, "/a/", ""));
    let prefixes = PathRule::HasPrefixIn(vec!["/a".to_string(), "/b".to_string()]);
    assert!(eval_path_rule(&prefixes, "/b/c", ""));
    assert!(!eval_path_rule(&prefixes, "/c", ""));
    assert!(eval_path_rule(&PathRule::Matches("/a*".to_string()), "/ab", ""));
    let host = host_rule("Example.ORG:8080");
    assert!(eval_path_rule(&host, "/", "example.org"));
    assert!(!eval_path_rule(&host, "/", "example.com"));
    assert_eq!(normalize_host_value(" H\u{d6}ST:1"), "h\u{f6}st");
}

#[test]
fn net_rules() {
    let compared = normalize_ip_string(" ::0001 ", &Some("::1".to_string()));
    assert_eq!(compared, "::1");
    assert_eq!(normalize_ip_string(" nonsense ", &None), "nonsense");
    let rule = NetRule::IsIpIn(vec!["::1".to_string()]);
    assert!(eval_net_rule(&rule, &compared, Some(IpAddress::V6(1))));
    assert!(!eval_net_rule(&rule, "::2", None));
    let subnet = NetRule::FromSubnet(IpAddress::V4(0x0a000000), 8);
    assert!(eval_net_rule(&subnet, "", Some(IpAddress::V4(0x0a010203))));
    assert!(!eval_net_rule(&subnet, "", Some(IpAddress::V4(0x0b010203))));
    assert!(!eval_net_rule(&subnet, "", None));
    assert!(eval_net_rule(&NetRule::FromMySubnet, "", Some(IpAddress::V4(0xc0a80001))));
    assert!(!eval_net_rule(&NetRule::FromMySubnet, "", Some(IpAddress::V4(0x08080808))));
}

#[test]
fn subnets_and_addresses() {
    assert!(ip_in_subnet(IpAddress::V4(7), IpAddress::V4(9), 0));
    assert!(!ip_in_subnet(IpAddress::V4(7), IpAddress::V4(9), 32));
    assert!(!ip_in_subnet(IpAddress::V4(7), IpAddress::V6(7), 0));
    assert!(!ip_in_subnet(IpAddress::V6(7), IpAddress::V4(7), 64));
    assert!(ip_in_subnet(IpAddress::V6(7), IpAddress::V6(6), 127));
    assert!(!ip_in_subnet(IpAddress::V6(7), IpAddress::V6(6), 128));
    assert_eq!(IpAddress::V6(0xffff_7f00_0001).to_canonical(), IpAddress::V4(0x7f00_0001));
    assert!(is_private_or_loopback(IpAddress::V6(0xfe80 << 112)));
    assert!(is_private_or_loopback(IpAddress::V6(0xfd00 << 112)));
    assert!(!is_private_or_loopback(IpAddress::V6(0x2001 << 112)));
    assert!(is_private_or_loopback(IpAddress::V4(0xffff_ffff)));
    assert_eq!(cidr_network(" 10.0.0.0 /8").as_deref(), Some("10.0.0.0"));
    let ten = Some(IpAddress::V4(0x0a000000));
    assert_eq!(parse_cidr("10.0.0.0/8", ten), Ok((IpAddress::V4(0x0a000000), 8)));
    assert_eq!(parse_cidr("10.0.0.0", ten), Err("CIDR must look like '<ip>/<prefix>'".to_string()));
    assert_eq!(parse_cidr("x/8", None), Err("Invalid CIDR network IP".to_string()));
    assert_eq!(parse_cidr("10.0.0.0/x", ten), Err("Invalid CIDR prefix".to_string()));
    assert_eq!(parse_cidr("10.0.0.0/33", ten), Err("IPv4 CIDR prefix must be <= 32".to_string()));
    assert_eq!(
        parse_cidr("::/129", Some(IpAddress::V6(0))),
        Err("IPv6 CIDR prefix must be <= 128".to_string())
    );
    assert_eq!(
        parse_target_host_and_port("http://[::1]:81/x"),
        Some(("::1".to_string(), 81))
    );
    assert_eq!(
        parse_target_host_and_port("https://example.org/x"),
        Some(("example.org".to_string(), 443))
    );
    assert_eq!(parse_target_host_and_port("ftp://example.org"), None);
}

#[test]
fn scripts_see_where_a_request_comes_from() {
    let mut map: HeaderMap<HeaderValue> = HeaderMap::new();
    map.append(HeaderName::from_static("host"), HeaderValue::from_static("Example.org:80"));
    map.append(
        HeaderName::from_static("x-forwarded-for"),
        HeaderValue::from_static(" 10.0.0.4 , 10.0.0.5"),
    );
    map.append(HeaderName::from_static("x-forwarded-port"), HeaderValue::from_static("99"));
    assert_eq!(extract_host(&map), "example.org");
    assert_eq!(claimed_ip_text(&map).as_deref(), Some("10.0.0.4"));
    assert_eq!(claimed_port(&map), 99);
    let facts = request_facts(
        "/p",
        "GET",
        &map,
        "10.0.0.4".to_string(),
        98,
        "10.0.0.4".to_string(),
    );
    assert!(!facts.remote.has_claimed_ip_mismatch);
    assert!(facts.remote.has_claimed_port_mismatch);
    assert!(facts.remote.is_spoofed_source);
    assert_eq!(facts.headers.get("host").unwrap(), "Example.org:80");
    assert_eq!(facts.host, "example.org");
    let none = compare_claims("1.2.3.4".to_string(), 5, String::new(), 0);
    assert!(!none.is_spoofed_source);
    assert_eq!(extract_host(&HeaderMap::new()), "");
}

#[test]
fn scripts_are_local_lua_files_below_the_root() {
    assert!(check_local("a.lua").is_ok());
    assert_eq!(
        check_local("http://x/a.lua"),
        Err("Only local filesystem Lua files are supported".to_string())
    );
    let root = vec!["/".to_string(), "srv".to_string()];
    let inside = vec!["/".to_string(), "srv".to_string(), "a.lua".to_string()];
    let outside = vec!["/".to_string(), "srv2".to_string(), "a.lua".to_string()];
    assert!(check_script(&inside, &root, "a.lua", "/srv/a.lua", "/srv").is_ok());
    assert_eq!(
        check_script(&outside, &root, "a.lua", "/srv2/a.lua", "/srv"),
        Err("Lua file /srv2/a.lua is outside of allowed root /srv".to_string())
    );
    assert_eq!(
        check_script(&inside, &root, "a.txt", "/srv/a.txt", "/srv"),
        Err("Lua file must end in .lua: /srv/a.txt".to_string())
    );
    assert_eq!(extension_of(".lua"), None);
    assert_eq!(extension_of("a.tar.gz").as_deref(), Some("gz"));
    let mut files = LoadedFiles::new();
    assert!(files.claim("/srv/a.lua".to_string()));
    assert!(!files.claim("/srv/a.lua".to_string()));
}

fn distribution_event() -> ServiceBusEventEnvelope {
    let mut payload = StringMap::new();
    payload.insert("metric".to_string(), JsonValue::Text("p95".to_string()));
    payload.insert("value".to_string(), JsonValue::Number("12.5".to_string()));
    ServiceBusEventEnvelope {
        event_id: "evt-1".to_string(),
        emitted_at_utc: Timestamp { seconds: 1, nanos: 0 },
        service_id: "orders".to_string(),
        instance_id: "orders-1".to_string(),
        topic: "basilisk.metrics.distribution".to_string(),
        message_type: "distribution".to_string(),
        correlation_id: 1,
        causation_id: None,
        payload,
    }
}

#[test]
fn ingests_distribution_event() {
    let mut telemetry = RuntimeTelemetry::new();
    telemetry.ingest_distribution_event(&distribution_event());
    let metric = telemetry
        .snapshot()
        .service_distributions
        .into_iter()
        .find(|m| m.service_id == "orders" && m.metric == "p95")
        .expect("distribution summary should exist");
    assert_eq!(metric.count, 1);
}

#[test]
fn distribution_events_are_counted_by_service_and_metric() {
    let mut telemetry = RuntimeTelemetry::new();
    let event = distribution_event();
    telemetry.ingest_distribution_event(&event);
    telemetry.ingest_distribution_event_at(&event, Timestamp { seconds: 9, nanos: 0 });
    assert_eq!(telemetry.distribution_count("orders", "p95"), 2);
    let snapshot = telemetry.snapshot();
    let metric = snapshot
        .service_distributions
        .into_iter()
        .find(|m| m.service_id == "orders" && m.metric == "p95")
        .expect("distribution summary should exist");
    assert_eq!(metric.count, 2);
    assert_eq!(metric.last_seen_utc, Timestamp { seconds: 9, nanos: 0 });
    let mut unnamed = event;
    unnamed.payload = StringMap::new();
    telemetry.ingest_distribution_event(&unnamed);
    assert_eq!(telemetry.distribution_count("orders", "unnamed"), 1);
}

#[test]
fn clocks_and_retries() {
    let clock = MonotonicClock::start();
    let first = clock.read();
    let second = clock.read();
    assert!(second.total_nanos() >= first.total_nanos());
    assert_eq!(Moment { seconds: 2, nanos: 5 }.deadline(1), 3_000_000_005);
    assert!(utc_now().seconds > 1_600_000_000);
    let early = Timestamp { seconds: 1, nanos: 999_999_999 };
    let late = Timestamp { seconds: 3, nanos: 0 };
    assert_eq!(late.millis_since(early), 1000);
    assert_eq!(late.nanos_since(early), 1_000_000_001);
    assert_eq!(early.nanos_since(late), 0);
    let mut attempts = ConnectAttempts::new();
    let mut tries = 1;
    while attempts.failed() {
        tries += 1;
    }
    assert_eq!(tries, MAX_CONNECT_ATTEMPTS);
}
