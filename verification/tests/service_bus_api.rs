use basilisk::clock::Timestamp;
use basilisk::config::GatewayConfig;
use basilisk::json::JsonValue;
use basilisk::lua::bus_api::{
    forward_headers_from, make_script_event, parse_forward_args, payload_from,
    publish_from_script, ForwardCall, ScriptArg,
};
use basilisk::models::{AuthInfo, InstanceInfo, InstanceStatus, RegistrationRequest};
use basilisk::registry::ServiceRegistry;
use basilisk::service_bus::connection_manager::{
    basilisk_connection_key, ConnectionManager, ServiceBusConnection,
};
use basilisk::service_bus::contracts::{
    protocol_types, ServiceBusEventEnvelope, ServiceBusForwardRequest, ServiceBusProtocolMessage,
    BASILISK_INSTANCE_ID, BASILISK_METRICS_DISTRIBUTION_TOPIC, BASILISK_SERVICE_ID,
};
use basilisk::service_bus::forward::{
    begin_forward, begin_forward_from_basilisk, begin_message_from_basilisk, finish_forward,
    finish_forward_from_basilisk, finish_message_from_basilisk, forward_timeout_ms,
    get_headers_from_event, ForwardOutcome,
};
use basilisk::service_bus::server::{
    end_session, handle_message, handle_message_at, invalid_json_reply, line_refusal,
    ClientSession, SessionStep,
};
use basilisk::string_map::StringMap;
use tokio::sync::mpsc::{unbounded_channel, UnboundedReceiver, UnboundedSender};

fn now() -> Timestamp {
    Timestamp { seconds: 1_000, nanos: 0 }
}

fn event_on(topic: &str, correlation_id: i64) -> ServiceBusEventEnvelope {
    ServiceBusEventEnvelope {
        event_id: "evt-1".to_string(),
        emitted_at_utc: now(),
        service_id: "producer".to_string(),
        instance_id: "producer-1".to_string(),
        topic: topic.to_string(),
        message_type: "event".to_string(),
        correlation_id,
        causation_id: None,
        payload: StringMap::new(),
    }
}

fn connection(
    service_id: &str,
    instance_id: &str,
    tx: UnboundedSender<ServiceBusProtocolMessage>,
    authenticated: bool,
    subscriptions: Vec<String>,
) -> ServiceBusConnection {
    ServiceBusConnection {
        service_id: service_id.to_string(),
        instance_id: instance_id.to_string(),
        tx,
        authenticated,
        subscriptions,
    }
}

#[test]
fn connection_manager_publishes_to_authenticated_subscribers() {
    let mut manager = ConnectionManager::new();

    let (tx_a, mut rx_a) = unbounded_channel::<ServiceBusProtocolMessage>();
    manager.add_connection(
        "svc-a:inst-1".to_string(),
        connection("svc-a", "inst-1", tx_a, false, vec![]),
    );
    manager.add_subscriptions("svc-a:inst-1", vec!["topic.orders".to_string()]);
    let correlation_id = manager.next_correlation_id();
    assert_eq!(manager.publish(&event_on("topic.orders", correlation_id), None), 0);
    manager.authenticate("svc-a:inst-1");

    let correlation_id = manager.next_correlation_id();
    let delivered = manager.publish(&event_on("topic.orders", correlation_id), None);
    assert_eq!(delivered, 1);

    let msg = rx_a
        .try_recv()
        .expect("subscriber should receive published event");
    assert_eq!(msg.kind, protocol_types::EVENT);
    assert!(msg.event.is_some());
    assert_eq!(
        manager.publish(&event_on("topic.orders", 3), Some("svc-a:inst-1")),
        0
    );
}

#[test]
fn connection_manager_internal_subscriptions_are_supported() {
    let mut manager = ConnectionManager::new();
    let (tx, mut rx) = unbounded_channel();

    manager.subscribe_internal("topic.internal".to_string(), tx);

    let correlation_id = manager.next_correlation_id();
    let delivered = manager.publish(&event_on("topic.internal", correlation_id), None);
    assert_eq!(delivered, 1);

    let internal = rx
        .try_recv()
        .expect("internal subscriber should receive event");
    assert_eq!(internal.topic, "topic.internal");

    manager.unsubscribe_internal("topic.internal");
    assert_eq!(manager.publish(&event_on("topic.internal", 2), None), 0);
}

#[test]
fn reserved_constants_have_expected_values() {
    assert_eq!(BASILISK_SERVICE_ID, "basilisk");
    assert_eq!(BASILISK_INSTANCE_ID, "lua-runtime");
    assert_eq!(
        BASILISK_METRICS_DISTRIBUTION_TOPIC,
        "basilisk.metrics.distribution"
    );
    assert_eq!(basilisk_connection_key(), "basilisk:lua-runtime");
}

#[test]
fn connection_manager_seeds_basilisk_identity_as_authenticated() {
    let manager = ConnectionManager::new();
    let key = format!("{}:{}", BASILISK_SERVICE_ID, BASILISK_INSTANCE_ID);
    assert!(
        manager.is_authenticated(&key),
        "basilisk:lua-runtime must be pre-authenticated"
    );
    assert_eq!(manager.connection_count(), 1);
}

#[test]
fn connection_manager_does_not_remove_reserved_identity() {
    let mut manager = ConnectionManager::new();
    let key = format!("{}:{}", BASILISK_SERVICE_ID, BASILISK_INSTANCE_ID);

    manager.remove_connection(&key);

    // The reserved key must survive remove_connection.
    assert!(
        manager.is_authenticated(&key),
        "reserved identity must not be removable"
    );
}

#[test]
fn subscribe_basilisk_adds_topic_to_reserved_connection() {
    let mut manager = ConnectionManager::new();
    manager.subscribe_basilisk(vec!["topic.alerts".to_string()]);

    let correlation_id = manager.next_correlation_id();
    let delivered = manager.publish(&event_on("topic.alerts", correlation_id), None);
    assert!(
        delivered >= 1,
        "basilisk subscription must receive the event"
    );

    // Validate that reserved-connection delivery reaches the loopback channel.
    let msg = manager
        .internal_rx
        .try_recv()
        .expect("reserved loopback channel closed unexpectedly");
    assert_eq!(msg.kind, protocol_types::EVENT);
    assert_eq!(
        msg.event.as_ref().map(|e| e.topic.as_str()),
        Some("topic.alerts")
    );

    manager.unsubscribe_basilisk(vec!["topic.alerts".to_string()]);
    assert_eq!(manager.publish(&event_on("topic.alerts", 2), None), 0);
}

fn forward_request(target: &str) -> ServiceBusForwardRequest {
    let mut headers = StringMap::new();
    headers.insert("x-request-id".to_string(), "abc".to_string());
    ServiceBusForwardRequest {
        target_service_id: target.to_string(),
        path: "/ping".to_string(),
        method: "GET".to_string(),
        headers,
        body: None,
        timeout_ms: Some(500),
    }
}

#[test]
fn forward_from_basilisk_errors_when_no_subscriber() {
    let mut manager = ConnectionManager::new();
    let request = ServiceBusForwardRequest {
        target_service_id: "nonexistent-service".to_string(),
        path: "/ping".to_string(),
        method: "GET".to_string(),
        headers: StringMap::new(),
        body: None,
        timeout_ms: Some(500),
    };
    let result = begin_forward_from_basilisk(&mut manager, &request);
    assert!(
        result.is_err(),
        "forward to unknown service must return an error"
    );
    let msg = result.err().unwrap();
    assert!(
        msg.contains("nonexistent-service"),
        "error must name the missing target: {msg}"
    );
    let blank = begin_forward_from_basilisk(&mut manager, &forward_request(" "));
    assert_eq!(
        blank.err().as_deref(),
        Some("forwardRequest.targetServiceId is required")
    );
}

#[test]
fn publications_tell_who_was_handed_the_event() {
    let mut manager = ConnectionManager::new();
    let (tx, mut inside) = unbounded_channel();
    manager.subscribe_internal("t".to_string(), tx);
    manager.subscribe_basilisk(vec!["t".to_string()]);
    let publication = manager.deliver(&event_on("t", 5), None);
    assert_eq!(publication.delivered, 2);
    assert!(publication.internal.expect("there is an internal subscriber").is_accepted());
    assert_eq!(publication.subscribers.len(), 1);
    assert_eq!(publication.subscribers[0].key, "basilisk:lua-runtime");
    assert!(publication.receipts[0].is_accepted());
    assert_eq!(inside.try_recv().unwrap().correlation_id, 5);

    drop(inside);
    let publication = manager.deliver(&event_on("t", 6), Some("basilisk:lua-runtime"));
    assert_eq!(publication.delivered, 0);
    assert!(!publication.internal.unwrap().is_accepted());
    assert!(publication.receipts.is_empty());
}

#[test]
fn failed_deliveries_drop_connections() {
    let mut manager = ConnectionManager::new();
    let (tx, rx) = unbounded_channel::<ServiceBusProtocolMessage>();
    drop(rx);
    manager.add_connection("a:1".to_string(), connection("a", "1", tx, true, vec!["t".to_string()]));
    assert_eq!(manager.connection_count(), 2);
    assert_eq!(manager.publish(&event_on("t", 1), None), 0);
    assert_eq!(manager.connection_count(), 1);
    assert!(manager.get_connection_info("a:1").is_none());
}

#[test]
fn subscriptions_are_kept_once_and_removed() {
    let mut manager = ConnectionManager::new();
    let (tx, mut rx) = unbounded_channel::<ServiceBusProtocolMessage>();
    manager.add_connection("a:1".to_string(), connection("a", "1", tx, true, vec![]));
    manager.add_subscriptions("a:1", vec!["t".to_string(), "u".to_string(), "t".to_string()]);
    assert_eq!(manager.get_subscribers("t", "").len(), 1);
    assert_eq!(manager.publish(&event_on("t", 1), None), 1);
    assert!(rx.try_recv().is_ok());
    manager.remove_subscriptions("a:1", vec!["t".to_string()]);
    assert!(manager.get_subscribers("t", "").is_empty());
    assert_eq!(manager.get_subscribers("u", "").len(), 1);
    assert!(manager.get_subscribers("u", "a:1").is_empty());
    assert_eq!(
        manager.get_connection_info("a:1"),
        Some(("a".to_string(), "1".to_string()))
    );
    assert_eq!(manager.next_correlation_id(), 1);
    assert_eq!(manager.next_correlation_id(), 2);
}

// ──────────────────────────────────────────────────────────────────────────────
// Sessions
// ──────────────────────────────────────────────────────────────────────────────

struct Client {
    session: ClientSession,
    tx: UnboundedSender<ServiceBusProtocolMessage>,
    rx: UnboundedReceiver<ServiceBusProtocolMessage>,
}

struct World {
    config: GatewayConfig,
    manager: ConnectionManager,
    registry: ServiceRegistry,
}

fn world() -> World {
    let mut registry = ServiceRegistry::new();
    for service in ["orders", "billing"] {
        let result = registry.register_at(
            RegistrationRequest {
                service_id: service.to_string(),
                fingerprint: "fp".to_string(),
                path_prefixes: vec![format!("/{service}")],
                instance: InstanceInfo {
                    instance_id: format!("{service}-1"),
                    scheme: "http".to_string(),
                    host: "localhost".to_string(),
                    port: 1,
                    weight: 1,
                },
                auth: AuthInfo {
                    kind: "token".to_string(),
                    token: "t".to_string(),
                },
            },
            "fresh".to_string(),
            format!("{service}-token"),
            now(),
        );
        assert!(result.success);
    }
    World {
        config: GatewayConfig::default(),
        manager: ConnectionManager::new(),
        registry,
    }
}

fn client() -> Client {
    let (tx, rx) = unbounded_channel();
    Client { session: ClientSession::new(), tx, rx }
}

fn say(world: &mut World, client: &mut Client, message: ServiceBusProtocolMessage) -> SessionStep {
    handle_message_at(
        &mut client.session,
        &mut world.manager,
        &mut world.registry,
        &world.config,
        message,
        client.tx.clone(),
        "unique".to_string(),
        "basilisk-request".to_string(),
        now(),
    )
}

fn reply_to(step: SessionStep) -> ServiceBusProtocolMessage {
    match step {
        SessionStep::Reply(reply) | SessionStep::Published(reply, _) => reply,
        SessionStep::Await(_) => panic!("a reply was expected, not a wait"),
        SessionStep::Nothing => panic!("a reply was expected"),
    }
}

fn message(kind: &str) -> ServiceBusProtocolMessage {
    let mut message = ServiceBusProtocolMessage::default();
    message.kind = kind.to_string();
    message
}

fn connect(service_id: &str, instance_id: &str, token: Option<&str>) -> ServiceBusProtocolMessage {
    let mut connect = message(protocol_types::CONNECT);
    connect.service_id = Some(service_id.to_string());
    connect.instance_id = Some(instance_id.to_string());
    connect.token = token.map(|t| t.to_string());
    connect
}

fn connected(world: &mut World, service: &str) -> Client {
    let mut client = client();
    let token = format!("{service}-token");
    let instance = format!("{service}-1");
    let reply = reply_to(say(world, &mut client, connect(service, &instance, Some(&token))));
    assert_eq!(reply.kind, protocol_types::ACK);
    assert_eq!(
        reply.message.as_deref(),
        Some("Connected and authenticated to service bus")
    );
    client
}

#[test]
fn server_rejects_reserved_service_id_on_connect() {
    let mut world = world();
    let mut client = client();
    let reply = reply_to(say(
        &mut world,
        &mut client,
        connect(BASILISK_SERVICE_ID, "any-instance", None),
    ));
    assert_eq!(reply.kind, protocol_types::ERROR);
    assert_eq!(reply.error_code.as_deref(), Some("RESERVED_IDENTITY"));
}

#[test]
fn server_rejects_reserved_instance_id_on_connect() {
    let mut world = world();
    let mut client = client();
    let reply = reply_to(say(
        &mut world,
        &mut client,
        connect("external-service", BASILISK_INSTANCE_ID, None),
    ));
    assert_eq!(reply.kind, protocol_types::ERROR);
    assert_eq!(reply.error_code.as_deref(), Some("RESERVED_IDENTITY"));
}

#[test]
fn connect_answers_every_refusal() {
    let mut world = world();
    let mut client = connected(&mut world, "orders");
    let again = connect("orders", "orders-1", Some("orders-token"));
    let reply = reply_to(say(&mut world, &mut client, again));
    assert_eq!(reply.error_code.as_deref(), Some("ALREADY_CONNECTED"));

    let mut stranger = Client { session: ClientSession::new(), tx: client.tx.clone(), rx: client.rx };
    let reply = reply_to(say(&mut world, &mut stranger, message(protocol_types::CONNECT)));
    assert_eq!(reply.error_code.as_deref(), Some("AUTH_REQUIRED"));
    let wrong = connect("orders", "orders-1", Some("wrong"));
    let reply = reply_to(say(&mut world, &mut stranger, wrong));
    assert_eq!(reply.error_code.as_deref(), Some("AUTH_FAILED"));
}

#[test]
fn connecting_and_authenticating_can_be_two_steps() {
    let mut world = world();
    let mut client = client();
    assert!(matches!(
        say(&mut world, &mut client, message(protocol_types::AUTHENTICATE)),
        SessionStep::Nothing
    ));
    let reply = reply_to(say(&mut world, &mut client, connect("orders", "orders-1", None)));
    assert_eq!(reply.kind, protocol_types::ACK);
    assert!(!world.manager.is_authenticated("orders:orders-1"));

    let mut subscribe = message(protocol_types::SUBSCRIBE);
    subscribe.topics = Some(vec!["t".to_string()]);
    let reply = reply_to(say(&mut world, &mut client, subscribe));
    assert_eq!(reply.error_code.as_deref(), Some("NOT_AUTHENTICATED"));
    let reply = reply_to(say(&mut world, &mut client, message(protocol_types::FORWARD)));
    assert_eq!(reply.error_code.as_deref(), Some("NOT_AUTHENTICATED"));
    let mut publish = message(protocol_types::PUBLISH);
    publish.event = Some(event_on("t", 0));
    assert!(matches!(say(&mut world, &mut client, publish), SessionStep::Nothing));

    let reply = reply_to(say(&mut world, &mut client, message(protocol_types::AUTHENTICATE)));
    assert_eq!(reply.error_code.as_deref(), Some("AUTH_REQUIRED"));
    let mut authenticate = message(protocol_types::AUTHENTICATE);
    authenticate.token = Some("wrong".to_string());
    let reply = reply_to(say(&mut world, &mut client, authenticate));
    assert_eq!(reply.error_code.as_deref(), Some("AUTH_FAILED"));
    let mut authenticate = message(protocol_types::AUTHENTICATE);
    authenticate.token = Some("orders-token".to_string());
    let reply = reply_to(say(&mut world, &mut client, authenticate));
    assert_eq!(reply.kind, protocol_types::ACK);
    assert!(world.manager.is_authenticated("orders:orders-1"));
}

#[test]
fn events_are_normalised_and_delivered() {
    let mut world = world();
    let mut publisher = connected(&mut world, "orders");
    let mut subscriber = connected(&mut world, "billing");
    let mut subscribe = message(protocol_types::SUBSCRIBE);
    subscribe.topics = Some(vec!["billing-events".to_string()]);
    let reply = reply_to(say(&mut world, &mut subscriber, subscribe));
    assert_eq!(reply.message.as_deref(), Some("Subscription updated"));

    let mut publish = message(protocol_types::PUBLISH);
    let mut event = event_on("billing-events", 0);
    event.payload.insert("invoiceId".to_string(), JsonValue::Text("inv-1".to_string()));
    publish.event = Some(event);
    let reply = reply_to(say(&mut world, &mut publisher, publish));
    assert_eq!(reply.kind, protocol_types::ACK);
    assert_eq!(reply.subscriber_count, Some(1));
    let echoed = reply.event.expect("the acknowledgement shows the event");
    assert_eq!(echoed.event_id, "orders-1-unique");
    assert_eq!(echoed.service_id, "orders");
    assert_eq!(echoed.correlation_id, 1);
    assert!(echoed.payload.is_empty());

    let delivered = subscriber.rx.try_recv().expect("the event arrives").event.unwrap();
    assert_eq!(delivered.instance_id, "orders-1");
    assert!(delivered.payload.contains_key("invoiceId"));

    let mut publish = message(protocol_types::PUBLISH);
    publish.event = Some(event_on("", 0));
    let reply = reply_to(say(&mut world, &mut publisher, publish));
    assert_eq!(reply.error_code.as_deref(), Some("TOPIC_REQUIRED"));
    let mut publish = message(protocol_types::PUBLISH);
    publish.event = Some(event_on("t", 77));
    let reply = reply_to(say(&mut world, &mut publisher, publish));
    assert_eq!(reply.event.unwrap().correlation_id, 77);
    assert!(matches!(
        say(&mut world, &mut publisher, message("unsubscribe")),
        SessionStep::Nothing
    ));
}

#[test]
fn forward_requests_go_out_and_come_back() {
    let mut world = world();
    let mut caller = connected(&mut world, "orders");
    let reply = reply_to(say(&mut world, &mut caller, message(protocol_types::FORWARD)));
    assert_eq!(reply.error_code.as_deref(), Some("INVALID_FORWARD_REQUEST"));
    let mut forward = message(protocol_types::FORWARD);
    forward.forward_request = Some(forward_request("  "));
    let reply = reply_to(say(&mut world, &mut caller, forward));
    assert_eq!(reply.error_code.as_deref(), Some("TARGET_SERVICE_REQUIRED"));
    let mut forward = message(protocol_types::FORWARD);
    forward.forward_request = Some(forward_request("billing"));
    let reply = reply_to(say(&mut world, &mut caller, forward));
    assert_eq!(reply.error_code.as_deref(), Some("TARGET_NOT_AVAILABLE"));

    let mut target = connected(&mut world, "billing");
    let mut subscribe = message(protocol_types::SUBSCRIBE);
    subscribe.topics = Some(vec!["service-billing".to_string()]);
    reply_to(say(&mut world, &mut target, subscribe));
    let mut forward = message(protocol_types::FORWARD);
    forward.forward_request = Some(forward_request("billing"));
    let pending = match say(&mut world, &mut caller, forward) {
        SessionStep::Await(pending) => pending,
        _ => panic!("the request is on its way"),
    };
    assert_eq!(pending.timeout_ms, 500);
    assert_eq!(pending.request_id, "basilisk-request");

    let carried = target.rx.try_recv().expect("the request arrives").event.unwrap();
    assert_eq!(carried.message_type, protocol_types::FORWARD);
    assert_eq!(carried.payload.get("path").unwrap().as_str().unwrap(), "/ping");
    assert_eq!(carried.payload.get("method").unwrap().as_str().unwrap(), "GET");
    assert!(!carried.payload.contains_key("body"));
    let headers = get_headers_from_event(&carried);
    assert_eq!(headers.get("x-request-id").unwrap(), "abc");
    let reply_topic = carried.payload.get("reply_to").unwrap().as_str().unwrap().clone();
    assert_eq!(reply_topic, "reply-to-basilisk-request");

    let mut answer = event_on(&reply_topic, 5);
    answer.payload.insert("status".to_string(), JsonValue::Number("201".to_string()));
    answer.payload.insert("body".to_string(), JsonValue::Text("done".to_string()));
    assert_eq!(world.manager.publish(&answer, None), 1);
    let mut replies = pending.replies.into_receiver();
    let outcome = ForwardOutcome::Reply(replies.try_recv().expect("the reply arrives"));
    let reply = finish_forward(&mut world.manager, &pending.request_id, &outcome);
    assert_eq!(reply.kind, protocol_types::FORWARD_RESPONSE);
    let response = reply.forward_response.unwrap();
    assert_eq!(response.status, 201);
    assert_eq!(response.body, "done");
    assert!(response.headers.is_empty());
    assert_eq!(world.manager.publish(&answer, None), 0);

    let reply = finish_forward(&mut world.manager, "x", &ForwardOutcome::Closed);
    assert_eq!(reply.error_code.as_deref(), Some("FORWARD_CHANNEL_CLOSED"));
    let reply = finish_forward(&mut world.manager, "x", &ForwardOutcome::TimedOut);
    assert_eq!(reply.error_code.as_deref(), Some("FORWARD_TIMEOUT"));
    let missing = begin_forward(&mut world.manager, "no:one", &Some(forward_request("billing")));
    assert_eq!(
        missing.err().unwrap().error_code.as_deref(),
        Some("CONNECTION_NOT_FOUND")
    );
}

#[test]
fn own_requests_and_messages() {
    let mut world = world();
    let mut target = connected(&mut world, "orders");
    world
        .manager
        .add_subscriptions("orders:orders-1", vec!["service-orders".to_string()]);
    let mut payload = StringMap::new();
    payload.insert("orderId".to_string(), JsonValue::Text("42".to_string()));
    let pending = begin_message_from_basilisk(
        &mut world.manager,
        "orders",
        "order.query",
        payload,
        None,
    )
    .ok()
    .expect("someone listens");
    assert_eq!(pending.timeout_ms, 30_000);
    let carried = target.rx.try_recv().unwrap().event.unwrap();
    assert_eq!(carried.message_type, "order.query");
    assert_eq!(carried.service_id, "basilisk");
    assert!(carried.payload.contains_key("orderId"));
    let reply = finish_message_from_basilisk(
        &mut world.manager,
        &pending.request_id,
        "orders",
        ForwardOutcome::Reply(event_on("x", 1)),
    );
    assert_eq!(reply.ok().unwrap().message_type, "event");
    let gone = finish_message_from_basilisk(
        &mut world.manager,
        &pending.request_id,
        "orders",
        ForwardOutcome::TimedOut,
    );
    assert_eq!(
        gone.err().as_deref(),
        Some("Timeout waiting for forward response from 'orders'")
    );

    let response = finish_forward_from_basilisk(
        &mut world.manager,
        "r",
        "orders",
        &ForwardOutcome::Reply(event_on("x", 1)),
    )
    .ok()
    .unwrap();
    assert_eq!(response.status, 200);
    assert_eq!(response.body, "");
    let closed = finish_forward_from_basilisk(
        &mut world.manager,
        "r",
        "orders",
        &ForwardOutcome::Closed,
    );
    assert_eq!(closed.err().as_deref(), Some("Forward response channel closed"));
    assert_eq!(forward_timeout_ms(Some(500_000)), 120_000);
}

#[test]
fn sessions_begin_and_end_with_health() {
    let mut world = world();
    world.config.service_bus.connection_health_enabled = true;
    world.config.service_bus.monitoring_enabled = false;
    world
        .registry
        .update_instance_status("orders", "orders-1", InstanceStatus::Down);
    let client = connected(&mut world, "orders");
    let status = |world: &World| {
        let service = world.registry.get_service("orders").unwrap();
        service.instances.get("orders-1").unwrap().status
    };
    assert_eq!(status(&world), InstanceStatus::Up);
    end_session(&client.session, &mut world.manager, &mut world.registry, &world.config, now());
    assert_eq!(status(&world), InstanceStatus::Down);
    assert!(!world.manager.is_authenticated("orders:orders-1"));
}

#[test]
fn lines_are_limited_and_must_be_messages() {
    assert!(line_refusal(10, 10).is_none());
    let refusal = line_refusal(11, 10).expect("the line is too long");
    assert_eq!(refusal.error_code.as_deref(), Some("MESSAGE_TOO_LARGE"));
    assert_eq!(
        refusal.message.as_deref(),
        Some("Message exceeds max allowed size of 10 characters")
    );
    assert_eq!(invalid_json_reply().error_code.as_deref(), Some("INVALID_JSON"));
}

#[test]
fn messages_are_handled_under_new_identifiers() {
    let mut world = world();
    let mut client = connected(&mut world, "orders");
    let mut publish = message(protocol_types::PUBLISH);
    publish.event = Some(event_on("t", 0));
    let step = handle_message(
        &mut client.session,
        &mut world.manager,
        &mut world.registry,
        &world.config,
        publish,
        client.tx.clone(),
    );
    let id = reply_to(step).event.unwrap().event_id;
    assert!(id.starts_with("orders-1-"));
    let unique = &id["orders-1-".len()..];
    assert_eq!(unique.len(), 36);
    assert_eq!(unique.chars().nth(14), Some('7'));
}

#[test]
fn scripts_publish_events() {
    let mut manager = ConnectionManager::new();
    let (tx, mut rx) = unbounded_channel();
    manager.subscribe_internal("t".to_string(), tx);
    let object = JsonValue::Fields(vec![("a".to_string(), JsonValue::Bool(true))]);
    let payload = payload_from(&object, "service_bus.publish").ok().unwrap();
    assert_eq!(publish_from_script(&mut manager, "t".to_string(), payload), 1);
    let event = rx.try_recv().unwrap();
    assert!(event.event_id.starts_with("basilisk-lua-"));
    assert_eq!(event.message_type, "lua_event");
    assert!(matches!(event.payload.get("a"), Some(JsonValue::Bool(true))));
    let refused = payload_from(&JsonValue::Null, "service_bus.publish");
    assert_eq!(
        refused.err().as_deref(),
        Some("service_bus.publish payload must be a JSON object")
    );
    let made = make_script_event("t".to_string(), StringMap::new(), "u", 9, now());
    assert_eq!(made.event_id, "basilisk-lua-u");
    assert_eq!(made.correlation_id, 9);
}

fn text(s: &str) -> ScriptArg {
    ScriptArg::Value(Some(s.to_string()), None)
}

fn number(n: u64) -> ScriptArg {
    ScriptArg::Value(Some(n.to_string()), Some(n))
}

#[test]
fn scripts_forward_in_two_forms() {
    let call = parse_forward_args(&vec![
        text("orders"),
        text("order.query"),
        text(" {}"),
        number(1000),
    ]);
    assert!(matches!(call, Ok(ForwardCall::Message(_, _, Some(_), Some(1000)))));
    let call = parse_forward_args(&vec![text("orders"), text("order.query")]);
    assert!(matches!(call, Ok(ForwardCall::Message(_, _, None, None))));
    // A number serves as a string.
    match parse_forward_args(&vec![number(7), text("t"), ScriptArg::Nil, number(5)]) {
        Ok(ForwardCall::Message(target, _, None, Some(5))) => assert_eq!(target, "7"),
        _ => panic!("a message was expected"),
    }
    let call = parse_forward_args(&vec![
        text("orders"),
        text("/v1/orders/42"),
        text("GET"),
        text("{}"),
        ScriptArg::Nil,
        number(30000),
    ]);
    match call {
        Ok(ForwardCall::Request(target, path, method, headers, body, timeout)) => {
            assert_eq!(target, "orders");
            assert_eq!(path, "/v1/orders/42");
            assert_eq!(method, "GET");
            assert_eq!(headers.as_deref(), Some("{}"));
            assert_eq!(body, None);
            assert_eq!(timeout, Some(30000));
        }
        _ => panic!("a request was expected"),
    }
    let call = parse_forward_args(&vec![text("orders"), text("/v1/orders/42"), text("GET")]);
    assert!(matches!(call, Ok(ForwardCall::Request(_, _, _, None, None, None))));
    assert!(parse_forward_args(&vec![text("orders")]).is_err());
    let table = ScriptArg::Value(None, None);
    assert!(parse_forward_args(&vec![text("orders"), text("t"), table]).is_err());
    let late = vec![text("orders"), text("t"), ScriptArg::Nil, text("soon")];
    assert!(parse_forward_args(&late).is_err());

    let headers = JsonValue::Fields(vec![("x".to_string(), JsonValue::Text("y".to_string()))]);
    let map = forward_headers_from(&Some(headers)).ok().unwrap();
    assert_eq!(map.get("x").unwrap(), "y");
    assert!(forward_headers_from(&None).ok().unwrap().is_empty());
    assert!(forward_headers_from(&Some(JsonValue::Null)).is_err());
    let mixed = JsonValue::Fields(vec![("x".to_string(), JsonValue::Null)]);
    assert!(forward_headers_from(&Some(mixed)).is_err());
}
