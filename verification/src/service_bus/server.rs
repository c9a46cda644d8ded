//! The conversation with a service-bus client.
//!
//! A client connects under an identity, authenticates with the token that the
//! registry issued for it, and may then subscribe, publish and forward. What each
//! line of a client leads to is decided here; the socket is elsewhere.

use crate::clock::{is_uuid, time_ordered_uuid, utc_now, Timestamp};
use crate::config::GatewayConfig;
use crate::models::InstanceStatus;
use crate::registry::{RegistryModel, ServiceRegistry};
use crate::service_bus::connection_manager::{
    id_after, BusModel, ConnectionManager, ConnectionModel, Publication, ServiceBusConnection,
};
use crate::service_bus::contracts::{
    ack_reply, connection_key, connection_key_of, error_reply, protocol_types, EventModel,
    ReplyModel, ServiceBusEventEnvelope, ServiceBusProtocolMessage, BASILISK_INSTANCE_ID,
    BASILISK_SERVICE_ID,
};
use crate::service_bus::forward::{
    begin_forward_at, forward_begun, is_request_id, PendingForward,
};
use crate::string_map::StringMap;
use crate::text::{
    decimal, format_unsigned, joined3, optional_text, same_text, texts,
};
use tokio::sync::mpsc::UnboundedSender;
use vstd::prelude::*;
use vstd::string::*;

verus! {

/// Where a client stands in its conversation.
pub struct ClientSession {
    /// The service and the instance that the client has connected as.
    pub identity: Option<(String, String)>,
    /// Whether the client has shown the token of that instance.
    pub authenticated: bool,
}

/// What a session holds.
pub struct SessionModel {
    pub identity: Option<(Seq<char>, Seq<char>)>,
    pub authenticated: bool,
}

impl View for ClientSession {
    type V = SessionModel;

    open spec fn view(&self) -> SessionModel {
        SessionModel {
            identity: match self.identity {
                Some(ids) => Some((ids.0@, ids.1@)),
                None => None,
            },
            authenticated: self.authenticated,
        }
    }
}

impl SessionModel {
    /// The key of the connection of the session.
    pub open spec fn key(self) -> Seq<char> {
        connection_key_of((self.identity->0).0, (self.identity->0).1)
    }

    /// Whether the session may use the bus.
    pub open spec fn admitted(self, bus: BusModel) -> bool {
        self.identity is Some && self.authenticated && bus.authenticated(self.key())
    }
}

impl ClientSession {
    /// The session of a client that has said nothing yet.
    pub fn new() -> (session: Self)
        ensures
            session@ == (SessionModel { identity: None, authenticated: false }),
    {
        ClientSession { identity: None, authenticated: false }
    }
}

/// The answer to a line that is longer than the limit, which ends the session.
pub fn line_refusal(length: usize, max_message_chars: usize) -> (reply: Option<
    ServiceBusProtocolMessage,
>)
    ensures
        reply is Some == (length > max_message_chars),
        reply matches Some(r) ==> r.is_reply(
            error_reply(
                "MESSAGE_TOO_LARGE"@,
                "Message exceeds max allowed size of "@ + decimal(max_message_chars as nat)
                    + " characters"@,
            ),
        ),
{
    if length > max_message_chars {
        let message = joined3(
            "Message exceeds max allowed size of ",
            format_unsigned(max_message_chars as u64).as_str(),
            " characters",
        );
        Some(ServiceBusProtocolMessage::error("MESSAGE_TOO_LARGE", message.as_str()))
    } else {
        None
    }
}

/// The answer to a line that is not a message.
pub fn invalid_json_reply() -> (reply: ServiceBusProtocolMessage)
    ensures
        reply.is_reply(error_reply("INVALID_JSON"@, "Message must be valid JSON"@)),
{
    ServiceBusProtocolMessage::error("INVALID_JSON", "Message must be valid JSON")
}

/// Whether an identity is reserved: either half of it is that of the runtime.
pub open spec fn is_reserved_identity(service_id: Seq<char>, instance_id: Seq<char>) -> bool {
    service_id == BASILISK_SERVICE_ID@ || instance_id == BASILISK_INSTANCE_ID@
}

/// Whether a token is the one that the registry issued for an instance.
pub open spec fn token_is_valid(
    registry: RegistryModel,
    service_id: Seq<char>,
    instance_id: Seq<char>,
    token: Seq<char>,
) -> bool {
    registry.has_instance(service_id, instance_id) && registry.instance(
        service_id,
        instance_id,
    ).token == token
}

/// How a request to connect is decided.
pub enum ConnectVerdict {
    AlreadyConnected,
    IdentityMissing,
    Reserved,
    WrongToken,
    Connected,
    Authenticated,
}

/// How a request to connect is decided. A token may come along or follow later.
pub open spec fn connect_verdict(
    session: SessionModel,
    registry: RegistryModel,
    service_id: Option<Seq<char>>,
    instance_id: Option<Seq<char>>,
    token: Option<Seq<char>>,
) -> ConnectVerdict {
    if session.identity is Some {
        ConnectVerdict::AlreadyConnected
    } else if service_id is None || instance_id is None {
        ConnectVerdict::IdentityMissing
    } else if is_reserved_identity(service_id->0, instance_id->0) {
        ConnectVerdict::Reserved
    } else {
        match token {
            None => ConnectVerdict::Connected,
            Some(t) => if token_is_valid(registry, service_id->0, instance_id->0, t) {
                ConnectVerdict::Authenticated
            } else {
                ConnectVerdict::WrongToken
            },
        }
    }
}

/// The answer to a request to connect.
pub open spec fn connect_reply(verdict: ConnectVerdict) -> ReplyModel {
    match verdict {
        ConnectVerdict::AlreadyConnected => error_reply(
            "ALREADY_CONNECTED"@,
            "Connection is already established"@,
        ),
        ConnectVerdict::IdentityMissing => error_reply(
            "AUTH_REQUIRED"@,
            "Connect requires serviceId and instanceId"@,
        ),
        ConnectVerdict::Reserved => error_reply(
            "RESERVED_IDENTITY"@,
            "service_id 'basilisk' and instance_id 'lua-runtime' are reserved"@,
        ),
        ConnectVerdict::WrongToken => error_reply("AUTH_FAILED"@, "Authentication failed"@),
        ConnectVerdict::Connected => ack_reply("Connected to service bus"@),
        ConnectVerdict::Authenticated => ack_reply("Connected and authenticated to service bus"@),
    }
}

/// The connection that an authenticated client gets.
pub open spec fn fresh_connection(
    service_id: Seq<char>,
    instance_id: Seq<char>,
    tx: UnboundedSender<ServiceBusProtocolMessage>,
) -> ConnectionModel {
    ConnectionModel {
        service_id,
        instance_id,
        tx,
        authenticated: true,
        subscriptions: Seq::empty(),
    }
}

/// The bus after a client has been admitted.
pub open spec fn bus_with_client(
    bus: BusModel,
    service_id: Seq<char>,
    instance_id: Seq<char>,
    tx: UnboundedSender<ServiceBusProtocolMessage>,
) -> BusModel {
    bus.with_connection(
        connection_key_of(service_id, instance_id),
        fresh_connection(service_id, instance_id, tx),
    )
}

/// The registry after a client has been admitted: where connections decide on
/// health, the instance is up.
pub open spec fn registry_with_client(
    registry: RegistryModel,
    config: GatewayConfig,
    service_id: Seq<char>,
    instance_id: Seq<char>,
    now: Timestamp,
) -> RegistryModel {
    if config.service_bus.connection_health_enabled {
        registry.status_set(service_id, instance_id, InstanceStatus::Up, now)
    } else {
        registry
    }
}

/// Gives an authenticated client its connection.
fn welcome(
    session: &mut ClientSession,
    manager: &mut ConnectionManager,
    registry: &mut ServiceRegistry,
    config: &GatewayConfig,
    service_id: String,
    instance_id: String,
    tx: UnboundedSender<ServiceBusProtocolMessage>,
    now: Timestamp,
)
    requires
        old(manager).wf(),
        old(manager)@.connections.dom().len() + 1 < i32::MAX,
        old(registry).wf(),
    ensures
        final(manager).wf(),
        final(registry).wf(),
        final(session)@ == (SessionModel {
            identity: Some((service_id@, instance_id@)),
            authenticated: true,
        }),
        final(manager)@ == bus_with_client(old(manager)@, service_id@, instance_id@, tx),
        final(registry)@ == registry_with_client(
            old(registry)@,
            *config,
            service_id@,
            instance_id@,
            now,
        ),
{
    let key = connection_key(service_id.as_str(), instance_id.as_str());
    let subscriptions: Vec<String> = Vec::new();
    proof {
        assert(texts(subscriptions@) =~= Seq::<Seq<char>>::empty());
    }
    manager.add_connection(
        key,
        ServiceBusConnection {
            service_id: service_id.clone(),
            instance_id: instance_id.clone(),
            tx,
            authenticated: true,
            subscriptions,
        },
    );
    if config.service_bus.connection_health_enabled {
        registry.update_instance_status_at(
            service_id.as_str(),
            instance_id.as_str(),
            InstanceStatus::Up,
            now,
        );
    }
    session.identity = Some((service_id, instance_id));
    session.authenticated = true;
}

/// Handles a `connect` message.
pub fn handle_connect(
    session: &mut ClientSession,
    manager: &mut ConnectionManager,
    registry: &mut ServiceRegistry,
    config: &GatewayConfig,
    message: &ServiceBusProtocolMessage,
    tx: UnboundedSender<ServiceBusProtocolMessage>,
    now: Timestamp,
) -> (reply: ServiceBusProtocolMessage)
    requires
        old(manager).wf(),
        old(manager)@.connections.dom().len() + 1 < i32::MAX,
        old(registry).wf(),
    ensures
        final(manager).wf(),
        final(registry).wf(),
        ({
            let service_id = optional_text(message.service_id);
            let instance_id = optional_text(message.instance_id);
            let verdict = connect_verdict(
                old(session)@,
                old(registry)@,
                service_id,
                instance_id,
                optional_text(message.token),
            );
            &&& reply.is_reply(connect_reply(verdict))
            &&& final(session)@ == (match verdict {
                ConnectVerdict::Connected => SessionModel {
                    identity: Some((service_id->0, instance_id->0)),
                    authenticated: false,
                },
                ConnectVerdict::Authenticated => SessionModel {
                    identity: Some((service_id->0, instance_id->0)),
                    authenticated: true,
                },
                _ => old(session)@,
            })
            &&& final(manager)@ == (if verdict is Authenticated {
                bus_with_client(old(manager)@, service_id->0, instance_id->0, tx)
            } else {
                old(manager)@
            })
            &&& final(registry)@ == (if verdict is Authenticated {
                registry_with_client(old(registry)@, *config, service_id->0, instance_id->0, now)
            } else {
                old(registry)@
            })
        }),
{
    if session.identity.is_some() {
        return ServiceBusProtocolMessage::error(
            "ALREADY_CONNECTED",
            "Connection is already established",
        );
    }
    let (service_id, instance_id) = match (&message.service_id, &message.instance_id) {
        (Some(s), Some(i)) => (s, i),
        _ => {
            return ServiceBusProtocolMessage::error(
                "AUTH_REQUIRED",
                "Connect requires serviceId and instanceId",
            );
        },
    };
    // Reject attempts to impersonate the reserved basilisk identity.
    if same_text(service_id.as_str(), BASILISK_SERVICE_ID) || same_text(
        instance_id.as_str(),
        BASILISK_INSTANCE_ID,
    ) {
        return ServiceBusProtocolMessage::error(
            "RESERVED_IDENTITY",
            "service_id 'basilisk' and instance_id 'lua-runtime' are reserved",
        );
    }
    match &message.token {
        None => {
            session.identity = Some((service_id.clone(), instance_id.clone()));
            session.authenticated = false;
            ServiceBusProtocolMessage::ack("Connected to service bus")
        },
        Some(token) => {
            if !registry.validate_instance_token(
                service_id.as_str(),
                instance_id.as_str(),
                token.as_str(),
            ) {
                return ServiceBusProtocolMessage::error("AUTH_FAILED", "Authentication failed");
            }
            welcome(
                session,
                manager,
                registry,
                config,
                service_id.clone(),
                instance_id.clone(),
                tx,
                now,
            );
            ServiceBusProtocolMessage::ack("Connected and authenticated to service bus")
        },
    }
}

/// Whether an `authenticate` message admits the client: it has connected, is not
/// authenticated yet, and shows the right token.
pub open spec fn authenticates(
    session: SessionModel,
    registry: RegistryModel,
    token: Option<Seq<char>>,
) -> bool {
    session.identity is Some && !session.authenticated && token is Some && token_is_valid(
        registry,
        (session.identity->0).0,
        (session.identity->0).1,
        token->0,
    )
}

/// The answer to an `authenticate` message; none before the client has connected.
pub open spec fn authenticate_reply(
    session: SessionModel,
    registry: RegistryModel,
    token: Option<Seq<char>>,
) -> Option<ReplyModel> {
    if session.identity is None {
        None
    } else if token is None {
        Some(error_reply("AUTH_REQUIRED"@, "Authenticate requires token"@))
    } else if token_is_valid(registry, (session.identity->0).0, (session.identity->0).1, token->0) {
        Some(ack_reply("Authenticated to service bus"@))
    } else {
        Some(error_reply("AUTH_FAILED"@, "Authentication failed"@))
    }
}

/// Whether an optional message is the given reply.
pub open spec fn replies(message: Option<ServiceBusProtocolMessage>, reply: Option<ReplyModel>) -> bool {
    match (message, reply) {
        (Some(m), Some(r)) => m.is_reply(r),
        (None, None) => true,
        _ => false,
    }
}

/// Handles an `authenticate` message.
pub fn handle_authenticate(
    session: &mut ClientSession,
    manager: &mut ConnectionManager,
    registry: &mut ServiceRegistry,
    config: &GatewayConfig,
    message: &ServiceBusProtocolMessage,
    tx: UnboundedSender<ServiceBusProtocolMessage>,
    now: Timestamp,
) -> (reply: Option<ServiceBusProtocolMessage>)
    requires
        old(manager).wf(),
        old(manager)@.connections.dom().len() + 1 < i32::MAX,
        old(registry).wf(),
    ensures
        final(manager).wf(),
        final(registry).wf(),
        replies(
            reply,
            authenticate_reply(old(session)@, old(registry)@, optional_text(message.token)),
        ),
        ({
            let admitted = authenticates(
                old(session)@,
                old(registry)@,
                optional_text(message.token),
            );
            let ids = old(session)@.identity->0;
            &&& final(session)@ == (if admitted {
                SessionModel { authenticated: true, ..old(session)@ }
            } else {
                old(session)@
            })
            &&& final(manager)@ == (if admitted {
                bus_with_client(old(manager)@, ids.0, ids.1, tx)
            } else {
                old(manager)@
            })
            &&& final(registry)@ == (if admitted {
                registry_with_client(old(registry)@, *config, ids.0, ids.1, now)
            } else {
                old(registry)@
            })
        }),
{
    let (service_id, instance_id) = match &session.identity {
        Some(ids) => (ids.0.clone(), ids.1.clone()),
        None => {
            return None;
        },
    };
    let token = match &message.token {
        Some(token) => token,
        None => {
            return Some(
                ServiceBusProtocolMessage::error("AUTH_REQUIRED", "Authenticate requires token"),
            );
        },
    };
    if !registry.validate_instance_token(
        service_id.as_str(),
        instance_id.as_str(),
        token.as_str(),
    ) {
        return Some(ServiceBusProtocolMessage::error("AUTH_FAILED", "Authentication failed"));
    }
    if !session.authenticated {
        welcome(session, manager, registry, config, service_id, instance_id, tx, now);
    }
    Some(ServiceBusProtocolMessage::ack("Authenticated to service bus"))
}

/// The key of the connection of a session, where the client has connected.
fn session_key(session: &ClientSession) -> (key: Option<String>)
    ensures
        key is Some == session@.identity is Some,
        key matches Some(k) ==> k@ == session@.key(),
{
    match &session.identity {
        Some(ids) => Some(connection_key(ids.0.as_str(), ids.1.as_str())),
        None => None,
    }
}

/// The answer to a `subscribe` message; none before the client has connected, and
/// none where the message names no topics.
pub open spec fn subscribe_reply(
    session: SessionModel,
    bus: BusModel,
    topics: Option<Vec<String>>,
) -> Option<ReplyModel> {
    if session.identity is None {
        None
    } else if !session.admitted(bus) {
        Some(error_reply("NOT_AUTHENTICATED"@, "Authenticate before subscribing"@))
    } else if topics is None {
        None
    } else {
        Some(ack_reply("Subscription updated"@))
    }
}

/// Handles a `subscribe` message.
pub fn handle_subscribe(
    session: &ClientSession,
    manager: &mut ConnectionManager,
    topics: Option<Vec<String>>,
) -> (reply: Option<ServiceBusProtocolMessage>)
    requires
        old(manager).wf(),
    ensures
        final(manager).wf(),
        replies(reply, subscribe_reply(session@, old(manager)@, topics)),
        final(manager)@ == (if session@.admitted(old(manager)@) && topics is Some {
            old(manager)@.subscribed(session@.key(), texts(topics->0@))
        } else {
            old(manager)@
        }),
{
    let key = match session_key(session) {
        Some(key) => key,
        None => {
            return None;
        },
    };
    if !session.authenticated || !manager.is_authenticated(key.as_str()) {
        return Some(
            ServiceBusProtocolMessage::error(
                "NOT_AUTHENTICATED",
                "Authenticate before subscribing",
            ),
        );
    }
    match topics {
        Some(topics) => {
            manager.add_subscriptions(key.as_str(), topics);
            Some(ServiceBusProtocolMessage::ack("Subscription updated"))
        },
        None => None,
    }
}

/// An event as the server passes it on: the client decides on its topic, its
/// message type, its causation and its payload, and on its correlation id where
/// that is positive; all else is the server's.
pub open spec fn normalized_event(
    event: EventModel,
    service_id: Seq<char>,
    instance_id: Seq<char>,
    unique: Seq<char>,
    now: Timestamp,
    correlation_id: i64,
) -> EventModel {
    EventModel {
        event_id: instance_id + "-"@ + unique,
        emitted_at_utc: now,
        service_id,
        instance_id,
        correlation_id: if event.correlation_id <= 0 {
            correlation_id
        } else {
            event.correlation_id
        },
        ..event
    }
}

/// The bus after an event has been numbered: an id is used up where the client
/// gives none that is positive.
pub open spec fn numbered(bus: BusModel, correlation_id: i64) -> BusModel {
    if correlation_id <= 0 {
        BusModel { next_correlation_id: id_after(bus.next_correlation_id), ..bus }
    } else {
        bus
    }
}

/// Brings an event into the form in which the server passes it on.
pub fn normalize_event(
    event: ServiceBusEventEnvelope,
    service_id: String,
    instance_id: String,
    unique: &str,
    now: Timestamp,
    correlation_id: i64,
) -> (sent: ServiceBusEventEnvelope)
    ensures
        sent@ == normalized_event(
            event@,
            service_id@,
            instance_id@,
            unique@,
            now,
            correlation_id,
        ),
{
    ServiceBusEventEnvelope {
        event_id: joined3(instance_id.as_str(), "-", unique),
        emitted_at_utc: now,
        service_id,
        instance_id,
        topic: event.topic,
        message_type: event.message_type,
        correlation_id: if event.correlation_id <= 0 {
            correlation_id
        } else {
            event.correlation_id
        },
        causation_id: event.causation_id,
        payload: event.payload,
    }
}

/// Whether a step is what publishing an event of a client led to: the event was
/// handed out in the form of the server, and the answer counts the subscribers that
/// took it.
pub open spec fn event_published(
    session: SessionModel,
    before: BusModel,
    after: BusModel,
    event: EventModel,
    unique: Seq<char>,
    now: Timestamp,
    step: SessionStep,
) -> bool {
    let connection = before.connections[session.key()];
    let bus = numbered(before, event.correlation_id);
    let sent = normalized_event(
        event,
        connection.service_id,
        connection.instance_id,
        unique,
        now,
        before.next_correlation_id,
    );
    match step {
        SessionStep::Published(reply, publication) => {
            &&& publication.hands_out(bus, sent, session.key())
            &&& after == publication.leaves(bus)
            &&& reply.is_reply(
                ReplyModel {
                    subscriber_count: Some(publication.delivered),
                    event: Some(EventModel { payload: Map::empty(), ..sent }),
                    ..ack_reply("Event published"@)
                },
            )
        },
        _ => false,
    }
}

/// Handles a `publish` message. Nothing comes of it where the client is not
/// admitted or there is no event.
pub fn handle_publish_at(
    session: &ClientSession,
    manager: &mut ConnectionManager,
    event: Option<ServiceBusEventEnvelope>,
    unique: String,
    now: Timestamp,
) -> (step: SessionStep)
    requires
        old(manager).wf(),
    ensures
        final(manager).wf(),
        if !session@.admitted(old(manager)@) || event is None {
            step is Nothing && final(manager)@ == old(manager)@
        } else if event->0@.topic.len() == 0 {
            step_replies(
                step,
                Some(error_reply("TOPIC_REQUIRED"@, "Event topic is required"@)),
            ) && final(manager)@ == old(manager)@
        } else {
            event_published(
                session@,
                old(manager)@,
                final(manager)@,
                event->0@,
                unique@,
                now,
                step,
            )
        },
{
    let key = match session_key(session) {
        Some(key) => key,
        None => {
            return SessionStep::Nothing;
        },
    };
    if !session.authenticated || !manager.is_authenticated(key.as_str()) {
        return SessionStep::Nothing;
    }
    let event = match event {
        Some(event) => event,
        None => {
            return SessionStep::Nothing;
        },
    };
    if event.topic.as_str().is_empty() {
        return SessionStep::Reply(
            ServiceBusProtocolMessage::error("TOPIC_REQUIRED", "Event topic is required"),
        );
    }
    let ghost before = manager@;
    let ghost asked = event@;
    match manager.get_connection_info(key.as_str()) {
        Some((service_id, instance_id)) => {
            let correlation_id: i64 = if event.correlation_id <= 0 {
                manager.next_correlation_id()
            } else {
                event.correlation_id
            };
            proof {
                assert(manager@ == numbered(before, asked.correlation_id));
            }
            let sent = normalize_event(
                event,
                service_id,
                instance_id,
                unique.as_str(),
                now,
                correlation_id,
            );
            let publication = manager.deliver(&sent, Some(key.as_str()));
            let mut reply = ServiceBusProtocolMessage::ack("Event published");
            reply.subscriber_count = Some(publication.delivered);
            let echo = ServiceBusEventEnvelope {
                event_id: sent.event_id,
                emitted_at_utc: sent.emitted_at_utc,
                service_id: sent.service_id,
                instance_id: sent.instance_id,
                topic: sent.topic,
                message_type: sent.message_type,
                correlation_id: sent.correlation_id,
                causation_id: sent.causation_id,
                payload: StringMap::new(),
            };
            reply.event = Some(echo);
            SessionStep::Published(reply, publication)
        },
        None => SessionStep::Nothing,
    }
}

/// What a client message asks for.
#[derive(Clone, Copy, Debug, PartialEq, Eq, Structural)]
pub enum ClientRequest {
    Connect,
    Authenticate,
    Subscribe,
    Publish,
    Forward,
    Other,
}

/// What a message of a type asks for.
pub open spec fn request_of(kind: Seq<char>) -> ClientRequest {
    if kind == protocol_types::CONNECT@ {
        ClientRequest::Connect
    } else if kind == protocol_types::AUTHENTICATE@ {
        ClientRequest::Authenticate
    } else if kind == protocol_types::SUBSCRIBE@ {
        ClientRequest::Subscribe
    } else if kind == protocol_types::PUBLISH@ {
        ClientRequest::Publish
    } else if kind == protocol_types::FORWARD@ {
        ClientRequest::Forward
    } else {
        ClientRequest::Other
    }
}

/// What a message of a type asks for.
pub fn classify(kind: &str) -> (request: ClientRequest)
    ensures
        request == request_of(kind@),
{
    if same_text(kind, protocol_types::CONNECT) {
        ClientRequest::Connect
    } else if same_text(kind, protocol_types::AUTHENTICATE) {
        ClientRequest::Authenticate
    } else if same_text(kind, protocol_types::SUBSCRIBE) {
        ClientRequest::Subscribe
    } else if same_text(kind, protocol_types::PUBLISH) {
        ClientRequest::Publish
    } else if same_text(kind, protocol_types::FORWARD) {
        ClientRequest::Forward
    } else {
        ClientRequest::Other
    }
}

/// What the handling of a message leaves to be done.
pub enum SessionStep {
    /// Send the client a message.
    Reply(ServiceBusProtocolMessage),
    /// Send the client a message; its event was handed to those who listen.
    Published(ServiceBusProtocolMessage, Publication),
    /// Await the reply to a forward request.
    Await(PendingForward),
    /// Nothing.
    Nothing,
}

/// The step that an optional reply makes.
fn step_of(reply: Option<ServiceBusProtocolMessage>) -> (step: SessionStep)
    ensures
        step == (match reply {
            Some(r) => SessionStep::Reply(r),
            None => SessionStep::Nothing,
        }),
{
    match reply {
        Some(r) => SessionStep::Reply(r),
        None => SessionStep::Nothing,
    }
}

/// Whether a step is the given reply, or nothing where there is none.
pub open spec fn step_replies(step: SessionStep, reply: Option<ReplyModel>) -> bool {
    match (step, reply) {
        (SessionStep::Reply(m), Some(r)) => m.is_reply(r),
        (SessionStep::Nothing, None) => true,
        _ => false,
    }
}

/// What beginning a forward request for a session can have led to.
pub open spec fn forward_step(
    session: SessionModel,
    before: BusModel,
    after: BusModel,
    request: Option<crate::service_bus::contracts::ServiceBusForwardRequest>,
    request_id: Seq<char>,
    now: Timestamp,
    step: SessionStep,
) -> bool {
    if session.identity is None {
        step is Nothing && after == before
    } else if !session.admitted(before) {
        step_replies(
            step,
            Some(error_reply("NOT_AUTHENTICATED"@, "Authenticate before forwarding"@)),
        ) && after == before
    } else {
        match step {
            SessionStep::Await(pending) => forward_begun(
                before,
                after,
                session.key(),
                request,
                request_id,
                now,
                Ok(pending),
            ),
            SessionStep::Reply(reply) => forward_begun(
                before,
                after,
                session.key(),
                request,
                request_id,
                now,
                Err(reply),
            ),
            _ => false,
        }
    }
}

/// Handles a `forward` message as far as it goes without waiting.
pub fn handle_forward_at(
    session: &ClientSession,
    manager: &mut ConnectionManager,
    request: &Option<crate::service_bus::contracts::ServiceBusForwardRequest>,
    request_id: &str,
    now: Timestamp,
) -> (step: SessionStep)
    requires
        old(manager).wf(),
    ensures
        final(manager).wf(),
        forward_step(session@, old(manager)@, final(manager)@, *request, request_id@, now, step),
{
    let key = match session_key(session) {
        Some(key) => key,
        None => {
            return SessionStep::Nothing;
        },
    };
    if !session.authenticated || !manager.is_authenticated(key.as_str()) {
        return SessionStep::Reply(
            ServiceBusProtocolMessage::error("NOT_AUTHENTICATED", "Authenticate before forwarding"),
        );
    }
    match begin_forward_at(manager, key.as_str(), request, request_id, now) {
        Ok(pending) => SessionStep::Await(pending),
        Err(reply) => SessionStep::Reply(reply),
    }
}

/// Handles one message of a client.
///
/// `unique` and `request_id` are used where the message publishes an event or
/// forwards a request.
pub fn handle_message_at(
    session: &mut ClientSession,
    manager: &mut ConnectionManager,
    registry: &mut ServiceRegistry,
    config: &GatewayConfig,
    message: ServiceBusProtocolMessage,
    tx: UnboundedSender<ServiceBusProtocolMessage>,
    unique: String,
    request_id: String,
    now: Timestamp,
) -> (step: SessionStep)
    requires
        old(manager).wf(),
        old(manager)@.connections.dom().len() + 1 < i32::MAX,
        old(registry).wf(),
    ensures
        final(manager).wf(),
        final(registry).wf(),
        message_handled(
            (old(session)@, old(manager)@, old(registry)@),
            (final(session)@, final(manager)@, final(registry)@),
            *config,
            message,
            tx,
            unique@,
            request_id@,
            now,
            step,
        ),
{
    match classify(message.kind.as_str()) {
        ClientRequest::Connect => SessionStep::Reply(
            handle_connect(session, manager, registry, config, &message, tx, now),
        ),
        ClientRequest::Authenticate => step_of(
            handle_authenticate(session, manager, registry, config, &message, tx, now),
        ),
        ClientRequest::Subscribe => step_of(handle_subscribe(session, manager, message.topics)),
        ClientRequest::Publish => handle_publish_at(session, manager, message.event, unique, now),
        ClientRequest::Forward => handle_forward_at(
            session,
            manager,
            &message.forward_request,
            request_id.as_str(),
            now,
        ),
        ClientRequest::Other => SessionStep::Nothing,
    }
}

/// What handling a message can have led to, from a session, a bus and a registry
/// to the next ones.
pub open spec fn message_handled(
    before: (SessionModel, BusModel, RegistryModel),
    after: (SessionModel, BusModel, RegistryModel),
    config: GatewayConfig,
    message: ServiceBusProtocolMessage,
    tx: UnboundedSender<ServiceBusProtocolMessage>,
    unique: Seq<char>,
    request_id: Seq<char>,
    now: Timestamp,
    step: SessionStep,
) -> bool {
    let service_id = optional_text(message.service_id);
    let instance_id = optional_text(message.instance_id);
    let token = optional_text(message.token);
    match request_of(message.kind@) {
        ClientRequest::Connect => {
            let verdict = connect_verdict(before.0, before.2, service_id, instance_id, token);
            &&& step_replies(step, Some(connect_reply(verdict)))
            &&& after == (match verdict {
                ConnectVerdict::Connected => (
                    SessionModel {
                        identity: Some((service_id->0, instance_id->0)),
                        authenticated: false,
                    },
                    before.1,
                    before.2,
                ),
                ConnectVerdict::Authenticated => (
                    SessionModel {
                        identity: Some((service_id->0, instance_id->0)),
                        authenticated: true,
                    },
                    bus_with_client(before.1, service_id->0, instance_id->0, tx),
                    registry_with_client(before.2, config, service_id->0, instance_id->0, now),
                ),
                _ => before,
            })
        },
        ClientRequest::Authenticate => {
            let ids = before.0.identity->0;
            &&& step_replies(step, authenticate_reply(before.0, before.2, token))
            &&& after == (if authenticates(before.0, before.2, token) {
                (
                    SessionModel { authenticated: true, ..before.0 },
                    bus_with_client(before.1, ids.0, ids.1, tx),
                    registry_with_client(before.2, config, ids.0, ids.1, now),
                )
            } else {
                before
            })
        },
        ClientRequest::Subscribe => {
            &&& step_replies(step, subscribe_reply(before.0, before.1, message.topics))
            &&& after.0 == before.0
            &&& after.2 == before.2
            &&& after.1 == (if before.0.admitted(before.1) && message.topics is Some {
                before.1.subscribed(before.0.key(), texts(message.topics->0@))
            } else {
                before.1
            })
        },
        ClientRequest::Publish => {
            &&& after.0 == before.0
            &&& after.2 == before.2
            &&& if !before.0.admitted(before.1) || message.event is None {
                step is Nothing && after.1 == before.1
            } else if message.event->0@.topic.len() == 0 {
                step_replies(
                    step,
                    Some(error_reply("TOPIC_REQUIRED"@, "Event topic is required"@)),
                ) && after.1 == before.1
            } else {
                event_published(
                    before.0,
                    before.1,
                    after.1,
                    message.event->0@,
                    unique,
                    now,
                    step,
                )
            }
        },
        ClientRequest::Forward => {
            &&& after.0 == before.0
            &&& after.2 == before.2
            &&& forward_step(
                before.0,
                before.1,
                after.1,
                message.forward_request,
                request_id,
                now,
                step,
            )
        },
        ClientRequest::Other => step is Nothing && after == before,
    }
}

/// Handles one message of a client at the current time, under new identifiers.
pub fn handle_message(
    session: &mut ClientSession,
    manager: &mut ConnectionManager,
    registry: &mut ServiceRegistry,
    config: &GatewayConfig,
    message: ServiceBusProtocolMessage,
    tx: UnboundedSender<ServiceBusProtocolMessage>,
) -> (step: SessionStep)
    requires
        old(manager).wf(),
        old(manager)@.connections.dom().len() + 1 < i32::MAX,
        old(registry).wf(),
    ensures
        final(manager).wf(),
        final(registry).wf(),
        exists|unique: Seq<char>, request_id: Seq<char>, now: Timestamp|
            is_uuid(unique, '7') && is_request_id(request_id) && #[trigger] message_handled(
                (old(session)@, old(manager)@, old(registry)@),
                (final(session)@, final(manager)@, final(registry)@),
                *config,
                message,
                tx,
                unique,
                request_id,
                now,
                step,
            ),
{
    let unique = time_ordered_uuid();
    let request_id = crate::service_bus::forward::new_request_id();
    let now = utc_now();
    handle_message_at(session, manager, registry, config, message, tx, unique, request_id, now)
}

/// The registry after a session has ended: where connections decide on health and
/// metrics do not, the instance is down.
pub open spec fn registry_without_client(
    registry: RegistryModel,
    config: GatewayConfig,
    session: SessionModel,
    now: Timestamp,
) -> RegistryModel {
    if session.identity is Some && session.authenticated
        && config.service_bus.connection_health_enabled && !config.service_bus.monitoring_enabled {
        registry.status_set(
            (session.identity->0).0,
            (session.identity->0).1,
            InstanceStatus::Down,
            now,
        )
    } else {
        registry
    }
}

/// Ends a session: the connection of an authenticated client is dropped.
///
/// When monitoring is authoritative, a disconnect does not take the instance
/// down; it goes down once its metrics stop.
pub fn end_session(
    session: &ClientSession,
    manager: &mut ConnectionManager,
    registry: &mut ServiceRegistry,
    config: &GatewayConfig,
    now: Timestamp,
)
    requires
        old(manager).wf(),
        old(registry).wf(),
    ensures
        final(manager).wf(),
        final(registry).wf(),
        final(registry)@ == registry_without_client(old(registry)@, *config, session@, now),
        final(manager)@ == (if session@.identity is Some && session@.authenticated {
            old(manager)@.disconnected(session@.key())
        } else {
            old(manager)@
        }),
{
    if !session.authenticated {
        return;
    }
    if let Some(ids) = &session.identity {
        if config.service_bus.connection_health_enabled && !config.service_bus.monitoring_enabled {
            registry.update_instance_status_at(
                ids.0.as_str(),
                ids.1.as_str(),
                InstanceStatus::Down,
                now,
            );
        }
        manager.remove_connection(connection_key(ids.0.as_str(), ids.1.as_str()).as_str());
    }
}

} // verus!
