use basilisk::clock::Timestamp;
use basilisk::config::GatewayConfig;
use basilisk::dto::ServiceData;
use basilisk::gateway::routes;
use basilisk::gateway::routes::AllowlistVerdict;
use basilisk::models::{
    error_codes, format_uri_host, AuthInfo, InstanceInfo, InstanceStatus, RegistrationRequest,
    ServiceInstance,
};
use basilisk::registry::health::{
    HealthMonitor, HealthMonitorRegistry, ProxyHealthMonitor, ServiceBusHealthMonitor,
};
use basilisk::registry::maintenance::{heartbeat_timeout, run_maintenance_round};
use basilisk::registry::{metrics_key, HeartbeatSample, ServiceRegistry};

fn registration_request(
    service_id: &str,
    instance_id: &str,
    path_prefixes: Vec<&str>,
) -> RegistrationRequest {
    RegistrationRequest {
        service_id: service_id.to_string(),
        fingerprint: "fp-1".to_string(),
        path_prefixes: path_prefixes.into_iter().map(|v| v.to_string()).collect(),
        instance: InstanceInfo {
            instance_id: instance_id.to_string(),
            scheme: "http".to_string(),
            host: "localhost".to_string(),
            port: 18080,
            weight: 1,
        },
        auth: AuthInfo {
            kind: "token".to_string(),
            token: "token".to_string(),
        },
    }
}

fn at(seconds: i64) -> Timestamp {
    Timestamp { seconds, nanos: 0 }
}

fn status_of(registry: &ServiceRegistry, service_id: &str, instance_id: &str) -> InstanceStatus {
    let service = registry.get_service(service_id).expect("service is known");
    service.instances.get(instance_id).expect("instance is known").status
}

fn registered(service_id: &str, instance_id: &str, prefix: &str) -> ServiceRegistry {
    let mut registry = ServiceRegistry::new();
    let request = registration_request(service_id, instance_id, vec![prefix]);
    let result = registry.register_at(request, "fresh".to_string(), "tok".to_string(), at(100));
    assert!(result.success);
    registry
}

#[test]
fn register_heartbeat_and_deregister_work_for_public_registry_api() {
    let mut registry = ServiceRegistry::new();
    let request = registration_request("orders", "orders-1", vec!["/api/orders"]);

    let result = registry.register(request.clone());
    assert!(result.success);

    let token = result.token.expect("registration must return token");
    assert!(registry.validate_instance_token("orders", "orders-1", &token));
    assert!(registry.validate_any_instance_token("orders", &token));

    assert_eq!(
        registry.resolve_service_by_path("/api/orders/123").as_deref(),
        Some("orders")
    );

    assert!(registry.heartbeat("orders", "orders-1"));
    assert!(registry.deregister("orders", "orders-1"));
    assert!(!registry.heartbeat("orders", "orders-1"));
}

#[test]
fn route_collision_and_longest_prefix_resolution_are_enforced() {
    let mut registry = ServiceRegistry::new();

    let first = registration_request("svc-a", "a-1", vec!["/api"]);
    let first_result = registry.register(first);
    assert!(first_result.success);

    let colliding = registration_request("svc-b", "b-1", vec!["/api"]);
    let colliding_result = registry.register(colliding);
    assert!(!colliding_result.success);
    assert_eq!(colliding_result.error_code.as_deref(), Some("ROUTE_COLLISION"));
    assert_eq!(
        colliding_result.error_message.as_deref(),
        Some("Path prefix '/api' already owned by service 'svc-a'")
    );
    assert!(registry.get_service("svc-b").is_none());

    registry.bind_path_prefix("/api/orders".to_string(), "svc-orders".to_string());
    assert_eq!(
        registry.resolve_service_by_path("/api/orders/42").as_deref(),
        Some("svc-orders")
    );
}

#[test]
fn stale_down_instances_are_removed() {
    let mut registry = ServiceRegistry::new();
    let request = registration_request("billing", "bill-1", vec!["/api/billing"]);
    let result = registry.register(request);
    assert!(result.success);

    registry.update_instance_status("billing", "bill-1", InstanceStatus::Down);
    registry.remove_stale_instances(0);

    let service = registry
        .get_service("billing")
        .expect("service should still exist");
    assert!(service.instances.is_empty());
}

#[test]
fn wrong_fingerprint_is_refused() {
    let mut registry = registered("orders", "orders-1", "/api/orders");
    let mut request = registration_request("orders", "orders-2", vec!["/api/orders"]);
    request.fingerprint = "fp-2".to_string();
    let result = registry.register(request);
    assert!(!result.success);
    assert_eq!(result.error_code.as_deref(), Some("FINGERPRINT_INVALID"));
    assert_eq!(result.error_message.as_deref(), Some("Fingerprint mismatch"));
    assert_eq!(registry.get_service("orders").unwrap().instances.len(), 1);
}

#[test]
fn blank_instance_id_gets_a_fresh_one() {
    let mut registry = ServiceRegistry::new();
    let request = registration_request("orders", "  ", vec!["/o"]);
    let result = registry.register(request);
    let id = result.instance_id.expect("an id is drawn");
    assert_eq!(id.len(), 36);
    assert_eq!(id.chars().nth(14), Some('4'));
    let token = result.token.expect("a token is drawn");
    assert_ne!(id, token);
    assert!(registry.validate_instance_token("orders", &id, &token));
    assert!(!registry.validate_instance_token("orders", &id, "other"));
    assert!(!registry.validate_any_instance_token("payments", &token));
}

#[test]
fn explicit_registration_is_exact() {
    let registry = registered("orders", "orders-1", "/api/orders");
    let service = registry.get_service("orders").unwrap();
    assert_eq!(service.path_prefixes, vec!["/api/orders".to_string()]);
    let instance = service.instances.get("orders-1").unwrap();
    assert_eq!(instance.token, "tok");
    assert_eq!(instance.last_heartbeat_utc, at(100));
    assert_eq!(instance.to_uri(), "http://localhost:18080");
    assert_eq!(registry.get_all_services().len(), 1);
}

#[test]
fn failures_take_an_instance_down_at_the_threshold() {
    let mut registry = registered("orders", "orders-1", "/o");
    assert!(!registry.record_proxy_failure("orders", "orders-1", 3));
    assert!(!registry.record_proxy_failure("orders", "orders-1", 3));
    assert_eq!(registry.proxy_failure_count("orders", "orders-1"), 2);
    assert_eq!(status_of(&registry, "orders", "orders-1"), InstanceStatus::Up);
    assert!(registry.record_proxy_failure("orders", "orders-1", 3));
    assert_eq!(status_of(&registry, "orders", "orders-1"), InstanceStatus::Down);
    // It is down already: this call does not take it down.
    assert!(!registry.record_proxy_failure("orders", "orders-1", 3));
    assert_eq!(registry.proxy_failure_count("orders", "orders-1"), 4);
    registry.record_proxy_success("orders", "orders-1");
    assert_eq!(status_of(&registry, "orders", "orders-1"), InstanceStatus::Up);
    assert_eq!(registry.proxy_failure_count("orders", "orders-1"), 0);
}

#[test]
fn threshold_zero_counts_as_one() {
    let mut registry = registered("orders", "orders-1", "/o");
    assert!(registry.record_proxy_failure("orders", "orders-1", 0));
    assert!(!registry.record_proxy_failure("unknown", "x", 0));
}

#[test]
fn metrics_evaluation_follows_reports() {
    let mut registry = registered("orders", "orders-1", "/o");
    let timeout: u128 = 30_000_000_000;
    registry.evaluate_metrics_health_at(at(101), timeout, &vec![]);
    assert_eq!(status_of(&registry, "orders", "orders-1"), InstanceStatus::Down);

    let first = registry.record_metrics_heartbeat_at("orders", "orders-1", at(110));
    assert_eq!(first, Some(HeartbeatSample { sample_count: 1, interval_ms: 0 }));
    let second = registry.record_metrics_heartbeat_at("orders", "orders-1", at(112));
    assert_eq!(second, Some(HeartbeatSample { sample_count: 2, interval_ms: 2000 }));
    assert_eq!(registry.record_metrics_heartbeat_at("orders", "nope", at(112)), None);

    registry.evaluate_metrics_health_at(at(113), timeout, &vec![]);
    assert_eq!(status_of(&registry, "orders", "orders-1"), InstanceStatus::Up);
    let irregular = vec!["orders:orders-1".to_string()];
    for seconds in [113, 114] {
        registry.record_metrics_heartbeat_at("orders", "orders-1", at(seconds));
        registry.evaluate_metrics_health_at(at(seconds), timeout, &irregular);
        assert_eq!(status_of(&registry, "orders", "orders-1"), InstanceStatus::Up);
    }
    registry.record_metrics_heartbeat_at("orders", "orders-1", at(115));
    registry.evaluate_metrics_health_at(at(115), timeout, &irregular);
    assert_eq!(status_of(&registry, "orders", "orders-1"), InstanceStatus::Degraded);
    registry.evaluate_metrics_health_at(at(145), timeout, &vec![]);
    assert_eq!(status_of(&registry, "orders", "orders-1"), InstanceStatus::Up);
    registry.evaluate_metrics_health_at(at(146), timeout, &vec![]);
    assert_eq!(status_of(&registry, "orders", "orders-1"), InstanceStatus::Down);
    let state = registry.metrics_heartbeat("orders", "orders-1").unwrap();
    assert_eq!(state.sample_count, 5);
}

#[test]
fn sweep_keeps_what_is_up_or_recent() {
    let mut registry = registered("orders", "orders-1", "/o");
    registry.remove_stale_instances_at(at(1_000), 0);
    assert!(registry.get_service("orders").unwrap().instances.contains_key("orders-1"));
    registry.update_instance_status_at("orders", "orders-1", InstanceStatus::Down, at(150));
    registry.remove_stale_instances_at(at(110), 10_000_000_000);
    assert!(registry.get_service("orders").unwrap().instances.contains_key("orders-1"));
    registry.remove_stale_instances_at(Timestamp { seconds: 110, nanos: 1 }, 10_000_000_000);
    assert!(registry.get_service("orders").unwrap().instances.is_empty());
}

#[test]
fn deregistering_forgets_health_data() {
    let mut registry = registered("orders", "orders-1", "/o");
    registry.record_proxy_failure("orders", "orders-1", 9);
    registry.record_metrics_heartbeat("orders", "orders-1");
    assert!(registry.deregister("orders", "orders-1"));
    assert_eq!(registry.proxy_failure_count("orders", "orders-1"), 0);
    assert!(registry.metrics_heartbeat("orders", "orders-1").is_none());
    assert!(!registry.deregister("orders", "orders-1"));
}

#[test]
fn monitors_are_enabled_in_turn_and_keep_to_their_events() {
    let monitors = HealthMonitorRegistry::new();
    let mut config = GatewayConfig::default();
    assert!(monitors.proxy().is_enabled(&config));
    assert!(!monitors.service_bus().is_enabled(&config));
    config.service_bus.connection_health_enabled = true;
    assert!(!ProxyHealthMonitor.is_enabled(&config));
    assert!(ServiceBusHealthMonitor.is_enabled(&config));
    let (first, second) = monitors.all();
    assert_eq!((first.name(), second.name()), ("proxy", "service_bus"));
    assert!(!first.is_enabled(&config));
    assert!(second.is_enabled(&config));
    assert_eq!(ProxyHealthMonitor.name(), "proxy");
    assert_eq!(ServiceBusHealthMonitor.name(), "service_bus");

    let mut registry = registered("orders", "orders-1", "/o");
    assert!(!ServiceBusHealthMonitor.on_proxy_failure(&mut registry, "orders", "orders-1", 1));
    assert_eq!(status_of(&registry, "orders", "orders-1"), InstanceStatus::Up);
    assert!(ProxyHealthMonitor.on_proxy_failure(&mut registry, "orders", "orders-1", 1));
    assert_eq!(status_of(&registry, "orders", "orders-1"), InstanceStatus::Down);
    ProxyHealthMonitor.on_bus_connect(&mut registry, "orders", "orders-1", &config);
    assert_eq!(status_of(&registry, "orders", "orders-1"), InstanceStatus::Down);
    ServiceBusHealthMonitor.on_bus_connect(&mut registry, "orders", "orders-1", &config);
    assert_eq!(status_of(&registry, "orders", "orders-1"), InstanceStatus::Up);
    ServiceBusHealthMonitor.on_bus_disconnect(&mut registry, "orders", "orders-1", &config);
    assert_eq!(status_of(&registry, "orders", "orders-1"), InstanceStatus::Up);
    config.service_bus.monitoring_enabled = false;
    ServiceBusHealthMonitor.on_bus_disconnect(&mut registry, "orders", "orders-1", &config);
    assert_eq!(status_of(&registry, "orders", "orders-1"), InstanceStatus::Down);
    ProxyHealthMonitor.on_proxy_success(&mut registry, "orders", "orders-1");
    assert_eq!(status_of(&registry, "orders", "orders-1"), InstanceStatus::Up);
    assert!(ServiceBusHealthMonitor.on_heartbeat(&mut registry, "orders", "orders-1").is_some());
    assert!(ProxyHealthMonitor.on_heartbeat(&mut registry, "orders", "orders-1").is_none());
    ProxyHealthMonitor.on_register(&mut registry, "orders", "orders-1");
}

#[test]
fn maintenance_evaluates_only_where_the_bus_is_in_charge() {
    let mut config = GatewayConfig::default();
    assert_eq!(heartbeat_timeout(&config), 30_000_000_000);
    let mut registry = ServiceRegistry::new();
    registry.register(registration_request("orders", "orders-1", vec!["/o"]));
    run_maintenance_round(&config, &mut registry, &vec![]);
    assert_eq!(status_of(&registry, "orders", "orders-1"), InstanceStatus::Up);
    config.service_bus.connection_health_enabled = true;
    run_maintenance_round(&config, &mut registry, &vec![]);
    assert_eq!(status_of(&registry, "orders", "orders-1"), InstanceStatus::Down);
}

#[test]
fn instance_uri_notation() {
    assert_eq!(format_uri_host("::1"), "[::1]");
    assert_eq!(format_uri_host("[::1]"), "[::1]");
    assert_eq!(format_uri_host("example.org"), "example.org");
    let instance = ServiceInstance {
        instance_id: "i".to_string(),
        service_id: "s".to_string(),
        token: "t".to_string(),
        scheme: "https".to_string(),
        host: "::1".to_string(),
        port: 0,
        weight: 1,
        status: InstanceStatus::Up,
        active_connections: 0,
        last_heartbeat_utc: at(0),
    };
    assert_eq!(instance.to_uri(), "https://[::1]");
    assert_eq!(metrics_key("a", "b"), "a:b");
}

#[test]
fn service_data_hides_secrets_and_keeps_instances() {
    let registry = registered("orders", "orders-1", "/o");
    let data = ServiceData::from(&registry.get_service("orders").unwrap());
    assert_eq!(data.service_id, "orders");
    assert_eq!(data.path_prefixes, vec!["/o".to_string()]);
    assert_eq!(data.instances.get("orders-1").unwrap().host, "localhost");
}

fn route_request(service_id: &str, instance_id: &str) -> RegistrationRequest {
    let mut request = registration_request(service_id, instance_id, vec!["/api/orders"]);
    request.auth.token = "secret-token".to_string();
    request
}

#[test]
fn registry_routes_register_query_and_deregister_instances() {
    let config = GatewayConfig::default();
    let mut registry = ServiceRegistry::new();
    let reply = routes::register(
        &mut registry,
        AllowlistVerdict::Allowed,
        &config,
        route_request("orders", "orders-1"),
    );
    assert_eq!(reply.status, 200);
    assert!(reply.advances_version);
    let registered = reply.registered.expect("registration is answered");
    assert_eq!(registered.service_id, "orders");
    assert_eq!(registered.instance_id, "orders-1");
    assert!(registry.validate_instance_token("orders", "orders-1", &registered.token));

    assert_eq!(registry.get_all_services().len(), 1);
    assert!(registry.get_service("orders").is_some());
    let beat = routes::heartbeat_at(&mut registry, "orders", "orders-1", at(5));
    assert_eq!(beat.status, 200);

    let gone = routes::deregister(&mut registry, &config, "orders", "orders-1");
    assert_eq!(gone.status, 200);
    let again = routes::deregister(&mut registry, &config, "orders", "orders-1");
    assert_eq!(again.status, 404);
    let beat = routes::heartbeat_at(&mut registry, "orders", "orders-1", at(6));
    assert_eq!(beat.status, 404);
}

#[test]
fn register_route_rejects_invalid_token() {
    let config = GatewayConfig::default();
    let mut registry = ServiceRegistry::new();
    let mut request = route_request("payments", "payments-1");
    request.auth.token = "wrong-token".to_string();
    let reply = routes::register(&mut registry, AllowlistVerdict::Allowed, &config, request);
    assert_eq!(reply.status, 401);
    assert_eq!(reply.error.unwrap().error.code, error_codes::AUTH_FAILED);
    assert!(registry.get_service("payments").is_none());
}

#[test]
fn register_route_answers_every_refusal() {
    let config = GatewayConfig::default();
    let mut registry = ServiceRegistry::new();
    let mut request = route_request("orders", "orders-1");
    request.auth.kind = "basic".to_string();
    let reply = routes::register(&mut registry, AllowlistVerdict::Allowed, &config, request);
    assert_eq!(reply.status, 401);

    let request = route_request("orders", "orders-1");
    let reply = routes::register(&mut registry, AllowlistVerdict::Refused, &config, request);
    assert_eq!(reply.status, 403);
    assert_eq!(
        reply.error.unwrap().error.code,
        error_codes::REGISTRATION_IP_NOT_ALLOWED
    );
    let request = route_request("orders", "orders-1");
    let reply = routes::register(&mut registry, AllowlistVerdict::Failed, &config, request);
    assert_eq!(reply.status, 500);
    assert!(reply.error.is_none());

    let request = route_request("orders", "orders-1");
    assert_eq!(
        routes::register(&mut registry, AllowlistVerdict::Allowed, &config, request).status,
        200
    );
    let mut request = route_request("orders", "orders-2");
    request.fingerprint = "other".to_string();
    let reply = routes::register(&mut registry, AllowlistVerdict::Allowed, &config, request);
    assert_eq!(reply.status, 403);
    assert_eq!(reply.error.unwrap().error.code, error_codes::FINGERPRINT_INVALID);
    let request = route_request("payments", "payments-1");
    let reply = routes::register(&mut registry, AllowlistVerdict::Allowed, &config, request);
    assert_eq!(reply.status, 409);
    assert!(!reply.advances_version);
}

#[test]
fn default_configuration_values() {
    let config = GatewayConfig::default();
    assert_eq!(config.server.port, 443);
    assert!(config.routing.strip_prefix);
    assert_eq!(config.routing.default_load_balancing_strategy, "ROUND_ROBIN");
    assert_eq!(config.cache.provider, "memory");
    assert_eq!(config.service_bus.port, 5090);
    assert!(!config.service_bus.connection_health_enabled);
    assert_eq!(error_codes::INVALID_CONFIG, "INVALID_CONFIG");
}
