//! The messages of the service bus.

use crate::clock::Timestamp;
use crate::json::{JsonModel, JsonValue};
use crate::string_map::{Duplicate, StringMap};
use crate::text::{copy_optional, joined3, optional_text};
use vstd::prelude::*;

pub use crate::service_bus::protocol_types;

verus! {

/// Reserved service identity used by the Lua runtime on the service bus.
/// External clients are prevented from claiming this service_id.
pub const BASILISK_SERVICE_ID: &'static str = "basilisk";

/// Reserved instance identity used by the Lua runtime on the service bus.
/// External clients are prevented from claiming this instance_id.
pub const BASILISK_INSTANCE_ID: &'static str = "lua-runtime";

/// Canonical topic for service-emitted distribution metrics consumed by Basilisk.
pub const BASILISK_METRICS_DISTRIBUTION_TOPIC: &'static str = "basilisk.metrics.distribution";

/// Event envelope routed between service-bus publishers and subscribers.
pub struct ServiceBusEventEnvelope {
    pub event_id: String,
    pub emitted_at_utc: Timestamp,
    pub service_id: String,
    pub instance_id: String,
    pub topic: String,
    pub message_type: String,
    pub correlation_id: i64,
    pub causation_id: Option<String>,
    pub payload: StringMap<JsonValue>,
}

/// What an event holds.
pub struct EventModel {
    pub event_id: Seq<char>,
    pub emitted_at_utc: Timestamp,
    pub service_id: Seq<char>,
    pub instance_id: Seq<char>,
    pub topic: Seq<char>,
    pub message_type: Seq<char>,
    pub correlation_id: i64,
    pub causation_id: Option<Seq<char>>,
    pub payload: Map<Seq<char>, JsonModel>,
}

impl View for ServiceBusEventEnvelope {
    type V = EventModel;

    open spec fn view(&self) -> EventModel {
        EventModel {
            event_id: self.event_id@,
            emitted_at_utc: self.emitted_at_utc,
            service_id: self.service_id@,
            instance_id: self.instance_id@,
            topic: self.topic@,
            message_type: self.message_type@,
            correlation_id: self.correlation_id,
            causation_id: optional_text(self.causation_id),
            payload: self.payload@,
        }
    }
}

impl Duplicate for ServiceBusEventEnvelope {
    fn duplicate(&self) -> (copy: Self) {
        ServiceBusEventEnvelope {
            event_id: self.event_id.clone(),
            emitted_at_utc: self.emitted_at_utc,
            service_id: self.service_id.clone(),
            instance_id: self.instance_id.clone(),
            topic: self.topic.clone(),
            message_type: self.message_type.clone(),
            correlation_id: self.correlation_id,
            causation_id: copy_optional(&self.causation_id),
            payload: self.payload.duplicate(),
        }
    }
}

/// Request payload for service-bus-driven forwarding.
pub struct ServiceBusForwardRequest {
    pub target_service_id: String,
    pub path: String,
    pub method: String,
    pub headers: StringMap<String>,
    pub body: Option<String>,
    pub timeout_ms: Option<u64>,
}

/// Response payload for service-bus-driven forwarding.
pub struct ServiceBusForwardResponse {
    pub status: u16,
    pub headers: StringMap<String>,
    pub body: String,
}

/// What a forward response holds.
pub struct ForwardResponseModel {
    pub status: u16,
    pub headers: Map<Seq<char>, Seq<char>>,
    pub body: Seq<char>,
}

impl View for ServiceBusForwardResponse {
    type V = ForwardResponseModel;

    open spec fn view(&self) -> ForwardResponseModel {
        ForwardResponseModel { status: self.status, headers: self.headers@, body: self.body@ }
    }
}

/// Generic wire message used by service-bus clients.
pub struct ServiceBusProtocolMessage {
    /// The kind of message; the wire calls this field `type`.
    pub kind: String,
    pub service_id: Option<String>,
    pub instance_id: Option<String>,
    pub token: Option<String>,
    pub topics: Option<Vec<String>>,
    pub event: Option<ServiceBusEventEnvelope>,
    pub forward_request: Option<ServiceBusForwardRequest>,
    pub forward_response: Option<ServiceBusForwardResponse>,
    pub message: Option<String>,
    pub error_code: Option<String>,
    pub subscriber_count: Option<i32>,
}

/// What a message of the server holds; a server sends neither an identity, nor a
/// token, nor topics, nor a forward request.
pub struct ReplyModel {
    pub kind: Seq<char>,
    pub event: Option<EventModel>,
    pub forward_response: Option<ForwardResponseModel>,
    pub message: Option<Seq<char>>,
    pub error_code: Option<Seq<char>>,
    pub subscriber_count: Option<i32>,
}

impl ServiceBusProtocolMessage {
    /// Whether this is the given message of the server.
    pub open spec fn is_reply(&self, reply: ReplyModel) -> bool {
        &&& self.kind@ == reply.kind
        &&& self.service_id is None
        &&& self.instance_id is None
        &&& self.token is None
        &&& self.topics is None
        &&& self.forward_request is None
        &&& optional_event(self.event) == reply.event
        &&& (match self.forward_response {
            Some(r) => Some(r@),
            None => None,
        }) == reply.forward_response
        &&& optional_text(self.message) == reply.message
        &&& optional_text(self.error_code) == reply.error_code
        &&& self.subscriber_count == reply.subscriber_count
    }

    /// An empty message of the given kind.
    pub fn of_kind(kind: &str) -> (message: Self)
        ensures
            message.is_reply(empty_reply(kind@)),
    {
        ServiceBusProtocolMessage {
            kind: kind.to_owned(),
            service_id: None,
            instance_id: None,
            token: None,
            topics: None,
            event: None,
            forward_request: None,
            forward_response: None,
            message: None,
            error_code: None,
            subscriber_count: None,
        }
    }

    /// A message that reports an error.
    pub fn error(code: &str, message: &str) -> (reply: Self)
        ensures
            reply.is_reply(error_reply(code@, message@)),
    {
        let mut reply = ServiceBusProtocolMessage::of_kind(protocol_types::ERROR);
        reply.error_code = Some(code.to_owned());
        reply.message = Some(message.to_owned());
        reply
    }

    /// A message that acknowledges a request.
    pub fn ack(message: &str) -> (reply: Self)
        ensures
            reply.is_reply(ack_reply(message@)),
    {
        let mut reply = ServiceBusProtocolMessage::of_kind(protocol_types::ACK);
        reply.message = Some(message.to_owned());
        reply
    }

    /// A message that delivers an event.
    pub fn delivering(event: ServiceBusEventEnvelope) -> (reply: Self)
        ensures
            reply.is_reply(event_reply(event@)),
    {
        let mut reply = ServiceBusProtocolMessage::of_kind(protocol_types::EVENT);
        reply.event = Some(event);
        reply
    }
}

impl Default for ServiceBusProtocolMessage {
    fn default() -> (message: Self)
        ensures
            message.is_reply(empty_reply(""@)),
    {
        ServiceBusProtocolMessage::of_kind("")
    }
}

/// The view of an optional event.
pub open spec fn optional_event(event: Option<ServiceBusEventEnvelope>) -> Option<EventModel> {
    match event {
        Some(e) => Some(e@),
        None => None,
    }
}

/// An empty message of a kind.
pub open spec fn empty_reply(kind: Seq<char>) -> ReplyModel {
    ReplyModel {
        kind,
        event: None,
        forward_response: None,
        message: None,
        error_code: None,
        subscriber_count: None,
    }
}

/// A message that reports an error.
pub open spec fn error_reply(code: Seq<char>, message: Seq<char>) -> ReplyModel {
    ReplyModel {
        message: Some(message),
        error_code: Some(code),
        ..empty_reply(protocol_types::ERROR@)
    }
}

/// A message that acknowledges a request.
pub open spec fn ack_reply(message: Seq<char>) -> ReplyModel {
    ReplyModel { message: Some(message), ..empty_reply(protocol_types::ACK@) }
}

/// A message that delivers an event.
pub open spec fn event_reply(event: EventModel) -> ReplyModel {
    ReplyModel { event: Some(event), ..empty_reply(protocol_types::EVENT@) }
}

/// The key of a connection.
pub open spec fn connection_key_of(service_id: Seq<char>, instance_id: Seq<char>) -> Seq<char> {
    service_id + ":"@ + instance_id
}

/// The key of the connection of the reserved identity.
pub open spec fn reserved_connection() -> Seq<char> {
    connection_key_of(BASILISK_SERVICE_ID@, BASILISK_INSTANCE_ID@)
}

/// Writes the key of a connection.
pub fn connection_key(service_id: &str, instance_id: &str) -> (key: String)
    ensures
        key@ == connection_key_of(service_id@, instance_id@),
{
    joined3(service_id, ":", instance_id)
}

/// Nothing of an event is lost in its model: events with the same model agree in every
/// field.
pub proof fn event_models_hold_every_field(a: ServiceBusEventEnvelope, b: ServiceBusEventEnvelope)
    ensures
        a@ == b@ <==> a.event_id@ == b.event_id@ && a.emitted_at_utc == b.emitted_at_utc
            && a.service_id@ == b.service_id@ && a.instance_id@ == b.instance_id@ && a.topic@
            == b.topic@ && a.message_type@ == b.message_type@ && a.correlation_id
            == b.correlation_id && optional_text(a.causation_id) == optional_text(b.causation_id)
            && a.payload@ == b.payload@,
        a@.topic == a.topic@ && a@.message_type == a.message_type@ && a@.payload == a.payload@,
{
}

/// Connections of different identities that hold no colon in the service id have
/// different keys.
pub proof fn connection_keys_tell_identities_apart(
    service: Seq<char>,
    instance: Seq<char>,
    other_service: Seq<char>,
    other_instance: Seq<char>,
)
    requires
        !service.contains(':'),
        !other_service.contains(':'),
        connection_key_of(service, instance) == connection_key_of(other_service, other_instance),
    ensures
        service == other_service,
        instance == other_instance,
{
    reveal_strlit(":");
    let a = connection_key_of(service, instance);
    let b = connection_key_of(other_service, other_instance);
    let n = service.len() as int;
    let m = other_service.len() as int;
    assert(a[n] == ':' && b[m] == ':');
    if n < m {
        assert(other_service[n] == b[n]);
        assert(other_service.contains(':'));
    } else if m < n {
        assert(service[m] == a[m]);
        assert(service.contains(':'));
    }
    assert(a.take(n) =~= service && b.take(m) =~= other_service);
    assert(a.skip(n + 1) =~= instance && b.skip(m + 1) =~= other_instance);
}

} // verus!
