//! Forward requests: a request travels as an event to the topic of the target
//! service, and the reply comes back on a topic of its own.

use crate::clock::{is_uuid, time_ordered_uuid, utc_now, Timestamp};
use crate::json::{as_count, as_text, json_model, JsonModel, JsonValue};
use crate::service_bus::connection_manager::{
    basilisk_connection_key, id_after, published, published_on, successes, BusModel,
    ConnectionManager, Publication,
};
use crate::service_bus::contracts::{
    empty_reply, error_reply, protocol_types, reserved_connection, EventModel,
    ForwardResponseModel, ReplyModel, ServiceBusEventEnvelope, ServiceBusForwardRequest,
    ServiceBusForwardResponse, ServiceBusProtocolMessage, BASILISK_INSTANCE_ID, BASILISK_SERVICE_ID,
};
use crate::service_bus::delivery::{open_channel, Inbox};
use crate::string_map::StringMap;
use crate::text::{is_blank, joined, joined3, trimmed};
use tokio::sync::mpsc::UnboundedSender;
use vstd::prelude::*;
use vstd::string::*;

verus! {

// ---------------------------------------------------------------------------
// Headers inside a payload
// ---------------------------------------------------------------------------

/// Headers as a JSON object, in a given order of their names.
pub open spec fn headers_object(order: Seq<Seq<char>>, headers: Map<Seq<char>, Seq<char>>) -> JsonModel {
    JsonModel::Fields(
        order.map_values(|name: Seq<char>| (name, JsonModel::Text(headers[name]))),
    )
}

/// Whether all the fields of an object are strings.
pub open spec fn all_text(fields: Seq<(Seq<char>, JsonModel)>) -> bool {
    forall|i: int| 0 <= i < fields.len() ==> (#[trigger] fields[i]).1 is Text
}

/// The fields of an object of strings as a map; of a repeated name the last counts.
pub open spec fn text_fields(fields: Seq<(Seq<char>, JsonModel)>) -> Map<Seq<char>, Seq<char>>
    decreases fields.len(),
{
    if fields.len() == 0 {
        Map::empty()
    } else {
        text_fields(fields.drop_last()).insert(fields.last().0, fields.last().1->Text_0)
    }
}

/// The headers that a payload gives under `headers`: those of an object of
/// strings, else none.
pub open spec fn payload_headers(payload: Map<Seq<char>, JsonModel>) -> Map<Seq<char>, Seq<char>> {
    if payload.contains_key("headers"@) {
        match payload["headers"@] {
            JsonModel::Fields(fields) => if all_text(fields) {
                text_fields(fields)
            } else {
                Map::empty()
            },
            _ => Map::empty(),
        }
    } else {
        Map::empty()
    }
}

/// Writes headers as a JSON object.
pub fn headers_to_json(headers: &StringMap<String>) -> (json: JsonValue)
    ensures
        json@ == headers_object(headers.order(), headers@),
{
    let mut fields: Vec<(String, JsonValue)> = Vec::new();
    let n = headers.len();
    let ghost order = headers.order();
    let mut i: usize = 0;
    while i < n
        invariant
            order == headers.order(),
            i <= n == order.len(),
            fields@.len() == i,
            forall|j: int|
                0 <= j < i ==> (#[trigger] fields@[j]).0@ == order[j] && json_model(fields@[j].1)
                    == JsonModel::Text(headers@[order[j]]),
        decreases n - i,
    {
        fields.push((headers.key_at(i).clone(), JsonValue::Text(headers.value_at(i).clone())));
        i += 1;
    }
    let json = JsonValue::Fields(fields);
    proof {
        assert(json_model(json)->Fields_0 =~= headers_object(order, headers@)->Fields_0);
    }
    json
}

/// The headers that an event gives in its payload.
pub fn get_headers_from_event(event: &ServiceBusEventEnvelope) -> (headers: StringMap<String>)
    ensures
        headers@ == payload_headers(event@.payload),
{
    if let Some(value) = event.payload.get("headers") {
        if let JsonValue::Fields(fields) = value {
            let ghost model = json_model(*value)->Fields_0;
            let mut headers: StringMap<String> = StringMap::new();
            let mut i: usize = 0;
            proof {
                assert(model.take(0) =~= Seq::<(Seq<char>, JsonModel)>::empty());
            }
            while i < fields.len()
                invariant
                    i <= fields@.len() == model.len(),
                    *value == JsonValue::Fields(*fields),
                    model == json_model(*value)->Fields_0,
                    event@.payload.contains_key("headers"@),
                    event@.payload["headers"@] == json_model(*value),
                    forall|j: int| 0 <= j < i ==> (#[trigger] model[j]).1 is Text,
                    headers@ == text_fields(model.take(i as int)),
                decreases fields@.len() - i,
            {
                proof {
                    assert(model[i as int] == (fields@[i as int].0@, json_model(fields@[i as int].1)));
                    assert(model.take(i + 1).drop_last() =~= model.take(i as int));
                    assert(model.take(i + 1).last() == model[i as int]);
                }
                match &fields[i].1 {
                    JsonValue::Text(text) => {
                        headers.insert(fields[i].0.clone(), text.clone());
                    },
                    _ => {
                        proof {
                            assert(!(model[i as int].1 is Text));
                        }
                        return StringMap::new();
                    },
                }
                i += 1;
            }
            proof {
                assert(model.take(model.len() as int) =~= model);
            }
            return headers;
        }
    }
    StringMap::new()
}

proof fn object_fields_read_back(order: Seq<Seq<char>>, headers: Map<Seq<char>, Seq<char>>, n: int)
    requires
        order.no_duplicates(),
        0 <= n <= order.len(),
    ensures
        ({
            let fields = headers_object(order, headers)->Fields_0.take(n);
            &&& all_text(fields)
            &&& forall|k: Seq<char>| #[trigger]
                text_fields(fields).contains_key(k) <==> order.take(n).contains(k)
            &&& forall|k: Seq<char>| #[trigger]
                text_fields(fields).contains_key(k) ==> text_fields(fields)[k] == headers[k]
        }),
    decreases n,
{
    let all = headers_object(order, headers)->Fields_0;
    if n > 0 {
        object_fields_read_back(order, headers, n - 1);
        let fields = all.take(n);
        assert(fields.drop_last() =~= all.take(n - 1));
        assert(fields.last() == (order[n - 1], JsonModel::Text(headers[order[n - 1]])));
        assert(all_text(fields)) by {
            assert forall|i: int| 0 <= i < fields.len() implies (#[trigger] fields[i]).1 is Text by {
                if i < n - 1 {
                    assert(fields[i] == all.take(n - 1)[i]);
                }
            }
        }
        assert(text_fields(fields) == text_fields(all.take(n - 1)).insert(
            order[n - 1],
            headers[order[n - 1]],
        ));
        let done = order.take(n);
        assert(done =~= order.take(n - 1).push(order[n - 1]));
        assert forall|k: Seq<char>| #[trigger] text_fields(fields).contains_key(k) <==> done.contains(
            k,
        ) by {
            if order.take(n - 1).contains(k) {
                let j = order.take(n - 1).index_of(k);
                assert(done[j] == k);
            }
            assert(done[n - 1] == order[n - 1]);
        }
    } else {
        assert(all.take(0).len() == 0);
        assert(order.take(0).len() == 0);
    }
}

/// Headers that were written into a payload are read back from it.
pub proof fn headers_survive_payload(order: Seq<Seq<char>>, headers: Map<Seq<char>, Seq<char>>)
    requires
        order.no_duplicates(),
        order.to_set() == headers.dom(),
    ensures
        forall|payload: Map<Seq<char>, JsonModel>|
            payload.contains_key("headers"@) && payload["headers"@] == headers_object(order, headers)
                ==> #[trigger] payload_headers(payload) == headers,
{
    let all = headers_object(order, headers)->Fields_0;
    object_fields_read_back(order, headers, order.len() as int);
    assert(all.take(order.len() as int) =~= all);
    assert(order.take(order.len() as int) =~= order);
    assert forall|k: Seq<char>| text_fields(all).contains_key(k) == headers.contains_key(k) by {
        assert(order.to_set().contains(k) == order.contains(k));
    }
    assert(text_fields(all) =~= headers);
}

// ---------------------------------------------------------------------------
// The request on its way out
// ---------------------------------------------------------------------------

/// The topic on which the reply to a request is awaited.
pub open spec fn reply_topic(request_id: Seq<char>) -> Seq<char> {
    "reply-to-"@ + request_id
}

/// The payload of a forward request.
pub open spec fn request_payload(request: ServiceBusForwardRequest) -> Map<Seq<char>, JsonModel> {
    let base = Map::<Seq<char>, JsonModel>::empty().insert(
        "path"@,
        JsonModel::Text(request.path@),
    ).insert("method"@, JsonModel::Text(request.method@)).insert(
        "headers"@,
        headers_object(request.headers.order(), request.headers@),
    );
    match request.body {
        Some(body) => base.insert("body"@, JsonModel::Text(body@)),
        None => base,
    }
}

/// Makes the payload of a forward request.
pub fn make_request_payload(request: &ServiceBusForwardRequest) -> (payload: StringMap<JsonValue>)
    ensures
        payload@ == request_payload(*request),
{
    let mut payload: StringMap<JsonValue> = StringMap::new();
    payload.insert("path".to_owned(), JsonValue::Text(request.path.clone()));
    payload.insert("method".to_owned(), JsonValue::Text(request.method.clone()));
    payload.insert("headers".to_owned(), headers_to_json(&request.headers));
    if let Some(body) = &request.body {
        payload.insert("body".to_owned(), JsonValue::Text(body.clone()));
    }
    payload
}

/// Who sends a request.
pub struct Sender {
    pub service_id: String,
    pub instance_id: String,
}

/// The event that carries a request: its payload tells where the reply goes. The
/// sender is given by the ids of a service and an instance.
pub open spec fn relay_event(
    sender: (Seq<char>, Seq<char>),
    target: Seq<char>,
    message_type: Seq<char>,
    payload: Map<Seq<char>, JsonModel>,
    request_id: Seq<char>,
    correlation_id: i64,
    now: Timestamp,
) -> EventModel {
    EventModel {
        event_id: request_id,
        emitted_at_utc: now,
        service_id: sender.0,
        instance_id: sender.1,
        topic: service_topic(target),
        message_type,
        correlation_id,
        causation_id: None,
        payload: payload.insert("reply_to"@, JsonModel::Text(reply_topic(request_id))),
    }
}

/// The topic to which the instances of a service listen for requests.
pub open spec fn service_topic(target: Seq<char>) -> Seq<char> {
    "service-"@ + target
}

/// Makes the event that carries a request.
pub fn make_relay_event(
    sender: Sender,
    target: &str,
    message_type: &str,
    payload: StringMap<JsonValue>,
    request_id: &str,
    correlation_id: i64,
    now: Timestamp,
) -> (event: ServiceBusEventEnvelope)
    ensures
        event@ == relay_event(
            (sender.service_id@, sender.instance_id@),
            target@,
            message_type@,
            payload@,
            request_id@,
            correlation_id,
            now,
        ),
{
    let mut payload = payload;
    payload.insert("reply_to".to_owned(), JsonValue::Text(joined("reply-to-", request_id)));
    ServiceBusEventEnvelope {
        event_id: request_id.to_owned(),
        emitted_at_utc: now,
        service_id: sender.service_id,
        instance_id: sender.instance_id,
        topic: joined("service-", target),
        message_type: message_type.to_owned(),
        correlation_id,
        causation_id: None,
        payload,
    }
}

/// How long a reply is awaited: what the request asks for, half a minute where it
/// does not say, and two minutes at most.
pub open spec fn reply_timeout(timeout_ms: Option<u64>) -> u64 {
    let asked: u64 = match timeout_ms {
        Some(t) => t,
        None => 30_000,
    };
    if asked < 120_000 {
        asked
    } else {
        120_000
    }
}

/// How long a reply is awaited, in milliseconds.
pub fn forward_timeout_ms(timeout_ms: Option<u64>) -> (used: u64)
    ensures
        used == reply_timeout(timeout_ms),
{
    let asked: u64 = match timeout_ms {
        Some(t) => t,
        None => 30_000,
    };
    if asked < 120_000 {
        asked
    } else {
        120_000
    }
}

/// A forward request that is on its way.
pub struct PendingForward {
    pub request_id: String,
    pub target_service_id: String,
    pub timeout_ms: u64,
    /// To whom the request was handed.
    pub publication: Publication,
    /// Where the reply arrives.
    pub replies: Inbox<ServiceBusEventEnvelope>,
}

/// The bus while the reply to a request is awaited, before the request is published.
pub open spec fn awaiting(
    bus: BusModel,
    request_id: Seq<char>,
    tx: UnboundedSender<ServiceBusEventEnvelope>,
) -> BusModel {
    BusModel {
        internal_subscribers: bus.internal_subscribers.insert(reply_topic(request_id), tx),
        next_correlation_id: id_after(bus.next_correlation_id),
        ..bus
    }
}

/// The bus when the reply to a request is awaited no more.
pub open spec fn no_longer_awaiting(bus: BusModel, request_id: Seq<char>) -> BusModel {
    BusModel {
        internal_subscribers: bus.internal_subscribers.remove(reply_topic(request_id)),
        ..bus
    }
}

/// Where nobody listens to a topic, nothing is delivered and nothing changes.
pub proof fn unheard_topic_delivers_nothing(
    before: BusModel,
    after: BusModel,
    topic: Seq<char>,
    exclude_key: Seq<char>,
    delivered: int,
)
    requires
        published_on(before, after, topic, exclude_key, delivered),
        before.subscribers(topic, exclude_key) == Set::<Seq<char>>::empty(),
        !before.internal_subscribers.contains_key(topic),
    ensures
        delivered == 0,
        after == before,
{
    let (keys, outcomes, internal) = choose|
        keys: Seq<Seq<char>>,
        outcomes: Seq<bool>,
        internal: bool,
    |
        #![trigger before.settled(keys, outcomes), published(internal)]
        keys.no_duplicates() && keys.to_set() == before.subscribers(topic, exclude_key)
            && outcomes.len() == keys.len() && (internal
            ==> before.internal_subscribers.contains_key(topic)) && delivered == successes(outcomes)
            + published(internal) && after == before.settled(keys, outcomes);
    if keys.len() > 0 {
        assert(keys.to_set().contains(keys[0]));
    }
}

/// Whether a request found nobody: the event that carries it was handed to those who
/// listen for requests to the target, none of them took it, and the reply topic is
/// closed again.
pub open spec fn found_nobody(
    before: BusModel,
    after: BusModel,
    event: EventModel,
    exclude_key: Seq<char>,
) -> bool {
    exists|p: Publication, tx: UnboundedSender<ServiceBusEventEnvelope>| #[trigger]
        p.hands_out(awaiting(before, event.event_id, tx), event, exclude_key) && p.delivered == 0
            && after == no_longer_awaiting(
            p.leaves(awaiting(before, event.event_id, tx)),
            event.event_id,
        )
}

/// Whether a pending request is the one that was relayed: the event that carries
/// it was handed to those who listen for requests to the target, while what is
/// published on its reply topic went to the place where the reply is awaited.
pub open spec fn is_pending(
    pending: PendingForward,
    before: BusModel,
    after: BusModel,
    event: EventModel,
    target: Seq<char>,
    timeout_ms: Option<u64>,
    exclude_key: Seq<char>,
) -> bool {
    &&& pending.request_id@ == event.event_id
    &&& pending.target_service_id@ == target
    &&& pending.timeout_ms == reply_timeout(timeout_ms)
    &&& pending.publication.hands_out(
        awaiting(before, event.event_id, pending.replies.fed_by()),
        event,
        exclude_key,
    )
    &&& pending.publication.delivered != 0
    &&& after == pending.publication.leaves(
        awaiting(before, event.event_id, pending.replies.fed_by()),
    )
}

/// Opens a topic for the reply and publishes the event that carries a request.
/// Where it reaches nobody, the topic is closed again and nothing is pending.
fn relay(
    manager: &mut ConnectionManager,
    sender: Sender,
    target: &str,
    message_type: &str,
    payload: StringMap<JsonValue>,
    timeout_ms: Option<u64>,
    request_id: &str,
    now: Timestamp,
    exclude_key: &str,
) -> (pending: Option<PendingForward>)
    requires
        old(manager).wf(),
    ensures
        final(manager).wf(),
        ({
            let event = relay_event(
                (sender.service_id@, sender.instance_id@),
                target@,
                message_type@,
                payload@,
                request_id@,
                old(manager)@.next_correlation_id,
                now,
            );
            match pending {
                Some(p) => is_pending(
                    p,
                    old(manager)@,
                    final(manager)@,
                    event,
                    target@,
                    timeout_ms,
                    exclude_key@,
                ),
                None => found_nobody(old(manager)@, final(manager)@, event, exclude_key@),
            }
        }),
{
    let ghost before = manager@;
    let reply_to = joined("reply-to-", request_id);
    let (tx, replies) = open_channel();
    manager.subscribe_internal(reply_to.clone(), tx);
    let correlation_id: i64 = manager.next_correlation_id();
    let event = make_relay_event(
        sender,
        target,
        message_type,
        payload,
        request_id,
        correlation_id,
        now,
    );
    let ghost open = manager@;
    proof {
        assert(open == awaiting(before, request_id@, tx));
    }
    let publication = manager.deliver(&event, Some(exclude_key));
    if publication.delivered == 0 {
        manager.unsubscribe_internal(reply_to.as_str());
        proof {
            assert(publication.hands_out(
                awaiting(before, event@.event_id, tx),
                event@,
                exclude_key@,
            ));
        }
        return None;
    }
    Some(
        PendingForward {
            request_id: request_id.to_owned(),
            target_service_id: target.to_owned(),
            timeout_ms: forward_timeout_ms(timeout_ms),
            publication,
            replies,
        },
    )
}

/// What a forward request is refused for before it is sent.
pub open spec fn refusal(bus: BusModel, key: Seq<char>, request: Option<ServiceBusForwardRequest>) -> Option<
    ReplyModel,
> {
    match request {
        None => Some(
            error_reply(
                "INVALID_FORWARD_REQUEST"@,
                "forwardRequest is required for forward messages"@,
            ),
        ),
        Some(r) => if trimmed(r.target_service_id@).len() == 0 {
            Some(
                error_reply(
                    "TARGET_SERVICE_REQUIRED"@,
                    "forwardRequest.targetServiceId is required"@,
                ),
            )
        } else if !bus.connections.contains_key(key) {
            Some(
                error_reply("CONNECTION_NOT_FOUND"@, "Forwarding connection is not available"@),
            )
        } else {
            None
        },
    }
}

/// The identifier of a forward request.
pub open spec fn is_request_id(id: Seq<char>) -> bool {
    exists|unique: Seq<char>| is_uuid(unique, '7') && id == #[trigger] ("basilisk-"@ + unique)
}

/// A new identifier for a forward request.
pub fn new_request_id() -> (id: String)
    ensures
        is_request_id(id@),
{
    let unique = time_ordered_uuid();
    joined("basilisk-", unique.as_str())
}

/// Handles the outgoing half of a `forward` protocol request: refuses it, or
/// sends it on and leaves it pending.
pub fn begin_forward_at(
    manager: &mut ConnectionManager,
    key: &str,
    request: &Option<ServiceBusForwardRequest>,
    request_id: &str,
    now: Timestamp,
) -> (begun: Result<PendingForward, ServiceBusProtocolMessage>)
    requires
        old(manager).wf(),
    ensures
        final(manager).wf(),
        forward_begun(old(manager)@, final(manager)@, key@, *request, request_id@, now, begun),
{
    let request = match request {
        Some(r) => r,
        None => {
            return Err(
                ServiceBusProtocolMessage::error(
                    "INVALID_FORWARD_REQUEST",
                    "forwardRequest is required for forward messages",
                ),
            );
        },
    };
    if is_blank(request.target_service_id.as_str()) {
        return Err(
            ServiceBusProtocolMessage::error(
                "TARGET_SERVICE_REQUIRED",
                "forwardRequest.targetServiceId is required",
            ),
        );
    }
    let (service_id, instance_id) = match manager.get_connection_info(key) {
        Some(ids) => ids,
        None => {
            return Err(
                ServiceBusProtocolMessage::error(
                    "CONNECTION_NOT_FOUND",
                    "Forwarding connection is not available",
                ),
            );
        },
    };
    match relay(
        manager,
        Sender { service_id, instance_id },
        request.target_service_id.as_str(),
        protocol_types::FORWARD,
        make_request_payload(request),
        request.timeout_ms,
        request_id,
        now,
        key,
    ) {
        Some(pending) => Ok(pending),
        None => Err(
            ServiceBusProtocolMessage::error(
                "TARGET_NOT_AVAILABLE",
                "No subscribers available for target service",
            ),
        ),
    }
}

/// What beginning a forward request can have led to.
pub open spec fn forward_begun(
    before: BusModel,
    after: BusModel,
    key: Seq<char>,
    request: Option<ServiceBusForwardRequest>,
    request_id: Seq<char>,
    now: Timestamp,
    begun: Result<PendingForward, ServiceBusProtocolMessage>,
) -> bool {
    match refusal(before, key, request) {
        Some(reply) => after == before && begun is Err && begun->Err_0.is_reply(reply),
        None => {
            let target = (request->0).target_service_id@;
            let connection = before.connections[key];
            let event = relay_event(
                (connection.service_id, connection.instance_id),
                target,
                protocol_types::FORWARD@,
                request_payload(request->0),
                request_id,
                before.next_correlation_id,
                now,
            );
            match begun {
                Ok(p) => is_pending(p, before, after, event, target, (request->0).timeout_ms, key),
                Err(reply) => found_nobody(before, after, event, key) && reply.is_reply(
                    error_reply(
                        "TARGET_NOT_AVAILABLE"@,
                        "No subscribers available for target service"@,
                    ),
                ),
            }
        },
    }
}

/// Handles the outgoing half of a `forward` protocol request under a new identifier.
pub fn begin_forward(
    manager: &mut ConnectionManager,
    key: &str,
    request: &Option<ServiceBusForwardRequest>,
) -> (begun: Result<PendingForward, ServiceBusProtocolMessage>)
    requires
        old(manager).wf(),
    ensures
        final(manager).wf(),
        exists|id: Seq<char>, now: Timestamp|
            is_request_id(id) && #[trigger] forward_begun(
                old(manager)@,
                final(manager)@,
                key@,
                *request,
                id,
                now,
                begun,
            ),
{
    let id = new_request_id();
    let now = utc_now();
    begin_forward_at(manager, key, request, id.as_str(), now)
}

// ---------------------------------------------------------------------------
// The reply on its way back
// ---------------------------------------------------------------------------

/// How the wait for a reply ended.
pub enum ForwardOutcome {
    Reply(ServiceBusEventEnvelope),
    Closed,
    TimedOut,
}

/// The response that the payload of a reply gives: status 200 and an empty body
/// where it does not say. A status counts modulo 2^16.
pub open spec fn response_in(payload: Map<Seq<char>, JsonModel>) -> ForwardResponseModel {
    ForwardResponseModel {
        status: if payload.contains_key("status"@) && as_count(payload["status"@]) is Some {
            (as_count(payload["status"@])->0 % 0x1_0000) as u16
        } else {
            200
        },
        headers: payload_headers(payload),
        body: if payload.contains_key("body"@) && as_text(payload["body"@]) is Some {
            as_text(payload["body"@])->0
        } else {
            ""@
        },
    }
}

/// Reads the response out of the event that replies.
pub fn response_from(event: &ServiceBusEventEnvelope) -> (response: ServiceBusForwardResponse)
    ensures
        response@ == response_in(event@.payload),
{
    let status: u16 = match event.payload.get("status") {
        Some(value) => match value.as_u64() {
            Some(n) => (n % 0x1_0000) as u16,
            None => 200,
        },
        None => 200,
    };
    let body = match event.payload.get("body") {
        Some(value) => match value.as_str() {
            Some(text) => text.clone(),
            None => "".to_owned(),
        },
        None => "".to_owned(),
    };
    ServiceBusForwardResponse { status, headers: get_headers_from_event(event), body }
}

/// The reply to a client whose forward request has ended.
pub open spec fn forward_reply(outcome: ForwardOutcome) -> ReplyModel {
    match outcome {
        ForwardOutcome::Reply(event) => ReplyModel {
            forward_response: Some(response_in(event@.payload)),
            message: Some("Forward request completed"@),
            ..empty_reply(protocol_types::FORWARD_RESPONSE@)
        },
        ForwardOutcome::Closed => error_reply(
            "FORWARD_CHANNEL_CLOSED"@,
            "Forward response channel closed"@,
        ),
        ForwardOutcome::TimedOut => error_reply(
            "FORWARD_TIMEOUT"@,
            "Timeout waiting for forward response"@,
        ),
    }
}

/// Handles the returning half of a `forward` protocol request: closes the reply
/// topic and answers the client.
pub fn finish_forward(
    manager: &mut ConnectionManager,
    request_id: &str,
    outcome: &ForwardOutcome,
) -> (reply: ServiceBusProtocolMessage)
    requires
        old(manager).wf(),
    ensures
        final(manager).wf(),
        final(manager)@ == no_longer_awaiting(old(manager)@, request_id@),
        reply.is_reply(forward_reply(*outcome)),
{
    manager.unsubscribe_internal(joined("reply-to-", request_id).as_str());
    match outcome {
        ForwardOutcome::Reply(event) => {
            let mut reply = ServiceBusProtocolMessage::of_kind(protocol_types::FORWARD_RESPONSE);
            reply.forward_response = Some(response_from(event));
            reply.message = Some("Forward request completed".to_owned());
            reply
        },
        ForwardOutcome::Closed => ServiceBusProtocolMessage::error(
            "FORWARD_CHANNEL_CLOSED",
            "Forward response channel closed",
        ),
        ForwardOutcome::TimedOut => ServiceBusProtocolMessage::error(
            "FORWARD_TIMEOUT",
            "Timeout waiting for forward response",
        ),
    }
}

// ---------------------------------------------------------------------------
// Requests of the gateway's own
// ---------------------------------------------------------------------------

/// What beginning a request of the gateway's own can have led to.
pub open spec fn own_forward_begun(
    before: BusModel,
    after: BusModel,
    target: Seq<char>,
    message_type: Seq<char>,
    payload: Map<Seq<char>, JsonModel>,
    timeout_ms: Option<u64>,
    request_id: Seq<char>,
    now: Timestamp,
    begun: Result<PendingForward, String>,
) -> bool {
    if trimmed(target).len() == 0 {
        after == before && begun is Err && begun->Err_0@
            == "forwardRequest.targetServiceId is required"@
    } else {
        let event = relay_event(
            (BASILISK_SERVICE_ID@, BASILISK_INSTANCE_ID@),
            target,
            message_type,
            payload,
            request_id,
            before.next_correlation_id,
            now,
        );
        match begun {
            Ok(p) => is_pending(
                p,
                before,
                after,
                event,
                target,
                timeout_ms,
                reserved_connection(),
            ),
            Err(message) => found_nobody(before, after, event, reserved_connection()) && message@
                == "No subscribers available for target service '"@ + target + "'"@,
        }
    }
}

/// Sends a message with a payload from the basilisk identity, or says why it cannot
/// be sent.
pub fn begin_message_from_basilisk_at(
    manager: &mut ConnectionManager,
    target: &str,
    message_type: &str,
    payload: StringMap<JsonValue>,
    timeout_ms: Option<u64>,
    request_id: &str,
    now: Timestamp,
) -> (begun: Result<PendingForward, String>)
    requires
        old(manager).wf(),
    ensures
        final(manager).wf(),
        own_forward_begun(
            old(manager)@,
            final(manager)@,
            target@,
            message_type@,
            payload@,
            timeout_ms,
            request_id@,
            now,
            begun,
        ),
{
    if is_blank(target) {
        return Err("forwardRequest.targetServiceId is required".to_owned());
    }
    let key = basilisk_connection_key();
    let sender = Sender {
        service_id: BASILISK_SERVICE_ID.to_owned(),
        instance_id: BASILISK_INSTANCE_ID.to_owned(),
    };
    match relay(
        manager,
        sender,
        target,
        message_type,
        payload,
        timeout_ms,
        request_id,
        now,
        key.as_str(),
    ) {
        Some(pending) => Ok(pending),
        None => Err(joined3("No subscribers available for target service '", target, "'")),
    }
}

/// Sends a message with a payload from the basilisk identity under a new identifier.
pub fn begin_message_from_basilisk(
    manager: &mut ConnectionManager,
    target: &str,
    message_type: &str,
    payload: StringMap<JsonValue>,
    timeout_ms: Option<u64>,
) -> (begun: Result<PendingForward, String>)
    requires
        old(manager).wf(),
    ensures
        final(manager).wf(),
        exists|id: Seq<char>, now: Timestamp|
            is_request_id(id) && #[trigger] own_forward_begun(
                old(manager)@,
                final(manager)@,
                target@,
                message_type@,
                payload@,
                timeout_ms,
                id,
                now,
                begun,
            ),
{
    let id = new_request_id();
    let now = utc_now();
    begin_message_from_basilisk_at(
        manager,
        target,
        message_type,
        payload,
        timeout_ms,
        id.as_str(),
        now,
    )
}

/// Sends a forward request from the basilisk identity, or says why it cannot be sent.
pub fn begin_forward_from_basilisk(
    manager: &mut ConnectionManager,
    request: &ServiceBusForwardRequest,
) -> (begun: Result<PendingForward, String>)
    requires
        old(manager).wf(),
    ensures
        final(manager).wf(),
        exists|id: Seq<char>, now: Timestamp|
            is_request_id(id) && #[trigger] own_forward_begun(
                old(manager)@,
                final(manager)@,
                request.target_service_id@,
                protocol_types::FORWARD@,
                request_payload(*request),
                request.timeout_ms,
                id,
                now,
                begun,
            ),
{
    begin_message_from_basilisk(
        manager,
        request.target_service_id.as_str(),
        protocol_types::FORWARD,
        make_request_payload(request),
        request.timeout_ms,
    )
}

/// Closes the reply topic of a request of the gateway's own, and returns the
/// response or says what kept it away.
pub fn finish_forward_from_basilisk(
    manager: &mut ConnectionManager,
    request_id: &str,
    target_service_id: &str,
    outcome: &ForwardOutcome,
) -> (response: Result<ServiceBusForwardResponse, String>)
    requires
        old(manager).wf(),
    ensures
        final(manager).wf(),
        final(manager)@ == no_longer_awaiting(old(manager)@, request_id@),
        match *outcome {
            ForwardOutcome::Reply(event) => response is Ok && response->Ok_0@ == response_in(
                event@.payload,
            ),
            ForwardOutcome::Closed => response is Err && response->Err_0@
                == "Forward response channel closed"@,
            ForwardOutcome::TimedOut => response is Err && response->Err_0@
                == "Timeout waiting for forward response from '"@ + target_service_id@ + "'"@,
        },
{
    manager.unsubscribe_internal(joined("reply-to-", request_id).as_str());
    match outcome {
        ForwardOutcome::Reply(event) => Ok(response_from(event)),
        ForwardOutcome::Closed => Err(missing_reply(target_service_id, false)),
        ForwardOutcome::TimedOut => Err(missing_reply(target_service_id, true)),
    }
}

/// What keeps the reply to a request of the gateway's own away.
fn missing_reply(target_service_id: &str, timed_out: bool) -> (message: String)
    ensures
        message@ == (if timed_out {
            "Timeout waiting for forward response from '"@ + target_service_id@ + "'"@
        } else {
            "Forward response channel closed"@
        }),
{
    if timed_out {
        joined3("Timeout waiting for forward response from '", target_service_id, "'")
    } else {
        "Forward response channel closed".to_owned()
    }
}

/// Closes the reply topic of a message of the gateway's own, and returns the event
/// that replied or says what kept it away.
pub fn finish_message_from_basilisk(
    manager: &mut ConnectionManager,
    request_id: &str,
    target_service_id: &str,
    outcome: ForwardOutcome,
) -> (reply: Result<ServiceBusEventEnvelope, String>)
    requires
        old(manager).wf(),
    ensures
        final(manager).wf(),
        final(manager)@ == no_longer_awaiting(old(manager)@, request_id@),
        match outcome {
            ForwardOutcome::Reply(event) => reply == Ok::<ServiceBusEventEnvelope, String>(event),
            ForwardOutcome::Closed => reply is Err && reply->Err_0@
                == "Forward response channel closed"@,
            ForwardOutcome::TimedOut => reply is Err && reply->Err_0@
                == "Timeout waiting for forward response from '"@ + target_service_id@ + "'"@,
        },
{
    manager.unsubscribe_internal(joined("reply-to-", request_id).as_str());
    match outcome {
        ForwardOutcome::Reply(event) => Ok(event),
        ForwardOutcome::Closed => Err(missing_reply(target_service_id, false)),
        ForwardOutcome::TimedOut => Err(missing_reply(target_service_id, true)),
    }
}

} // verus!
