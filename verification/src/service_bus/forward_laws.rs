//! What holds of forward requests and their replies.

use crate::clock::{is_uuid, Timestamp};
use crate::json::{as_count, as_text, JsonModel};
use crate::service_bus::connection_manager::{
    id_after, keys_of_subscribers, outcomes_of, successes, BusModel, Publication,
};
use crate::service_bus::contracts::{
    EventModel, ServiceBusEventEnvelope, ServiceBusForwardRequest, ServiceBusProtocolMessage,
};
use crate::service_bus::forward::{
    awaiting, forward_begun, forward_reply, headers_survive_payload, is_request_id,
    no_longer_awaiting, own_forward_begun, payload_headers, refusal, relay_event, reply_timeout,
    reply_topic, request_payload, response_in, service_topic, text_fields, ForwardOutcome,
    PendingForward,
};
use crate::service_bus::session_laws::{deliveries_are_counted, deliveries_touch_connections_only};
use crate::text::{decimal, decimal_reads_back, is_space};
use crate::text_laws::blank_is_white_space;
use tokio::sync::mpsc::UnboundedSender;
use vstd::prelude::*;

verus! {

proof fn payload_names_differ()
    ensures
        "path"@ != "method"@,
        "path"@ != "headers"@,
        "path"@ != "body"@,
        "path"@ != "reply_to"@,
        "method"@ != "headers"@,
        "method"@ != "body"@,
        "method"@ != "reply_to"@,
        "headers"@ != "body"@,
        "headers"@ != "reply_to"@,
        "body"@ != "reply_to"@,
        "status"@ != "body"@,
        "status"@ != "headers"@,
{
    reveal_strlit("path");
    reveal_strlit("method");
    reveal_strlit("headers");
    reveal_strlit("body");
    reveal_strlit("reply_to");
    reveal_strlit("status");
    assert("path"@[0] == 'p' && "body"@[0] == 'b');
    assert("method"@.len() == 6 && "method"@[0] == 'm' && "status"@[0] == 's');
    assert("headers"@.len() == 7);
    assert("reply_to"@.len() == 8);
    assert("path"@.len() == 4 && "body"@.len() == 4 && "status"@.len() == 6);
}

/// The payload of a forward request holds its path and its method, its headers, and its
/// body exactly when it has one; and nothing else.
pub proof fn payload_holds_the_request(request: ServiceBusForwardRequest, name: Seq<char>)
    ensures
        ({
            let payload = request_payload(request);
            &&& payload.contains_key("path"@) && payload["path"@] == JsonModel::Text(request.path@)
            &&& payload.contains_key("method"@) && payload["method"@] == JsonModel::Text(
                request.method@,
            )
            &&& payload.contains_key("body"@) == request.body is Some
            &&& request.body matches Some(body) ==> payload["body"@] == JsonModel::Text(body@)
            &&& payload.contains_key("headers"@)
            &&& payload.contains_key(name) ==> name == "path"@ || name == "method"@ || name
                == "headers"@ || name == "body"@
        }),
{
    payload_names_differ();
}

/// The headers of a forward request are read from its payload as they were.
pub proof fn payload_holds_the_headers(request: ServiceBusForwardRequest)
    requires
        request.headers.order().no_duplicates(),
        request.headers.order().to_set() == request.headers@.dom(),
    ensures
        payload_headers(request_payload(request)) == request.headers@,
{
    payload_names_differ();
    headers_survive_payload(request.headers.order(), request.headers@);
}

/// What a client asks to be forwarded reaches the instances of the target as one event:
/// on their topic, from the client, with the path, the method and the body of the
/// request and the topic on which the reply is awaited.
pub proof fn forwarded_event_holds_the_request(
    before: BusModel,
    after: BusModel,
    key: Seq<char>,
    request: ServiceBusForwardRequest,
    request_id: Seq<char>,
    now: Timestamp,
    pending: PendingForward,
    i: int,
)
    requires
        forward_begun(before, after, key, Some(request), request_id, now, Ok(pending)),
        0 <= i < pending.publication.receipts@.len(),
    ensures
        ({
            let message = pending.publication.receipts@[i].value();
            let event = message.event->0@;
            &&& message.kind@ == "event"@
            &&& message.event is Some
            &&& event.payload.contains_key("path"@) && event.payload["path"@] == JsonModel::Text(
                request.path@,
            )
            &&& event.payload.contains_key("method"@) && event.payload["method"@]
                == JsonModel::Text(request.method@)
            &&& event.payload.contains_key("body"@) == request.body is Some
            &&& request.body matches Some(body) ==> event.payload["body"@] == JsonModel::Text(body@)
            &&& event.payload.contains_key("reply_to"@) && event.payload["reply_to"@]
                == JsonModel::Text("reply-to-"@ + request_id)
            &&& event.topic == "service-"@ + request.target_service_id@
            &&& event.message_type == "forward"@
            &&& event.service_id == before.connections[key].service_id
            &&& event.instance_id == before.connections[key].instance_id
            &&& event.event_id == request_id
            &&& event.correlation_id == before.next_correlation_id
            &&& event.emitted_at_utc == now
            &&& pending.request_id@ == request_id
            &&& pending.target_service_id@ == request.target_service_id@
        }),
{
    payload_names_differ();
    payload_holds_the_request(request, "path"@);
    let keys = keys_of_subscribers(pending.publication.subscribers@);
    assert(pending.publication.receipts@.len() == keys.len());
}

/// A message of the gateway's own goes out with its payload as it is, but for the topic
/// on which the reply is awaited; the gateway is its sender.
pub proof fn own_event_holds_the_payload(
    before: BusModel,
    after: BusModel,
    target: Seq<char>,
    message_type: Seq<char>,
    payload: Map<Seq<char>, JsonModel>,
    timeout_ms: Option<u64>,
    request_id: Seq<char>,
    now: Timestamp,
    pending: PendingForward,
    i: int,
    name: Seq<char>,
)
    requires
        own_forward_begun(
            before,
            after,
            target,
            message_type,
            payload,
            timeout_ms,
            request_id,
            now,
            Ok(pending),
        ),
        0 <= i < pending.publication.receipts@.len(),
        name != "reply_to"@,
    ensures
        ({
            let message = pending.publication.receipts@[i].value();
            let event = message.event->0@;
            &&& message.event is Some
            &&& event.payload.contains_key(name) == payload.contains_key(name)
            &&& payload.contains_key(name) ==> event.payload[name] == payload[name]
            &&& event.payload.contains_key("reply_to"@) && event.payload["reply_to"@]
                == JsonModel::Text("reply-to-"@ + request_id)
            &&& event.topic == "service-"@ + target
            &&& event.message_type == message_type
            &&& event.service_id == "basilisk"@
            &&& event.instance_id == "lua-runtime"@
            &&& event.event_id == request_id
            &&& event.correlation_id == before.next_correlation_id
            &&& event.emitted_at_utc == now
        }),
{
    let keys = keys_of_subscribers(pending.publication.subscribers@);
    assert(pending.publication.receipts@.len() == keys.len());
}

/// While a reply is awaited, the bus knows the reply topic; it uses up one correlation
/// id, and a request that found nobody leaves no trace but that.
pub proof fn pending_requests_are_numbered(
    before: BusModel,
    after: BusModel,
    key: Seq<char>,
    request: ServiceBusForwardRequest,
    request_id: Seq<char>,
    now: Timestamp,
    pending: PendingForward,
)
    requires
        forward_begun(before, after, key, Some(request), request_id, now, Ok(pending)),
        before.next_correlation_id < i64::MAX,
    ensures
        after.next_correlation_id == before.next_correlation_id + 1,
        after.internal_subscribers.contains_key("reply-to-"@ + request_id),
        after.internal_subscribers["reply-to-"@ + request_id] == pending.replies.fed_by(),
        pending.publication.delivered != 0,
{
    let bus = awaiting(before, request_id, pending.replies.fed_by());
    deliveries_touch_connections_only(
        bus,
        keys_of_subscribers(pending.publication.subscribers@),
        outcomes_of(pending.publication.receipts@),
    );
}

/// A reply is awaited for as long as the request asks, up to two minutes; for half a
/// minute where it does not say.
pub proof fn replies_are_awaited_up_to_two_minutes(asked: u64)
    ensures
        asked <= 120_000 ==> reply_timeout(Some(asked)) == asked,
        asked >= 120_000 ==> reply_timeout(Some(asked)) == 120_000,
        reply_timeout(None) == reply_timeout(Some(30_000)),
{
}

/// A forward request is refused for having no request, for a blank target, and for a
/// connection that is gone, in this order; else it is sent.
pub proof fn forward_requests_are_refused_when_due(
    bus: BusModel,
    key: Seq<char>,
    request: ServiceBusForwardRequest,
)
    ensures
        ({
            let target = request.target_service_id@;
            let blank = forall|i: int| 0 <= i < target.len() ==> is_space(#[trigger] target[i]);
            let reply = refusal(bus, key, Some(request));
            &&& reply is None <==> !blank && bus.connections.contains_key(key)
            &&& blank ==> (reply->0).error_code == Some("TARGET_SERVICE_REQUIRED"@)
            &&& !blank && !bus.connections.contains_key(key) ==> (reply->0).error_code == Some(
                "CONNECTION_NOT_FOUND"@,
            )
        }),
        refusal(bus, key, None) is Some,
        (refusal(bus, key, None)->0).error_code == Some("INVALID_FORWARD_REQUEST"@),
        (refusal(bus, key, None)->0).kind == "error"@,
{
    blank_is_white_space(request.target_service_id@);
}

/// A count is read from the number that writes it in digits alone, and a text from a
/// text.
pub proof fn counts_are_read(n: nat, s: Seq<char>, at: int)
    ensures
        as_count(JsonModel::Number(decimal(n))) == (if n <= u64::MAX {
            Some(n)
        } else {
            None::<nat>
        }),
        s.len() == 0 || (0 <= at < s.len() && !('0' <= s[at] <= '9')) ==> as_count(
            JsonModel::Number(s),
        ) is None,
        as_count(JsonModel::Text(s)) is None,
        as_count(JsonModel::Null) is None,
        as_text(JsonModel::Text(s)) == Some(s),
        as_text(JsonModel::Number(s)) is None,
        as_text(JsonModel::Null) is None,
{
    decimal_reads_back(n);
}

/// The response of a reply has the status, of which the last sixteen bits count, and the
/// body that the payload gives; 200 and an empty body where it gives none.
pub proof fn responses_are_read_from_the_reply(
    payload: Map<Seq<char>, JsonModel>,
    status: u64,
    body: Seq<char>,
)
    ensures
        payload.contains_key("status"@) && payload["status"@] == JsonModel::Number(
            decimal(status as nat),
        ) ==> response_in(payload).status == status % 0x1_0000,
        !payload.contains_key("status"@) ==> response_in(payload).status == 200,
        payload.contains_key("status"@) && payload["status"@] == JsonModel::Text(body)
            ==> response_in(payload).status == 200,
        payload.contains_key("body"@) && payload["body"@] == JsonModel::Text(body) ==> response_in(
            payload,
        ).body == body,
        !payload.contains_key("body"@) ==> response_in(payload).body.len() == 0,
        payload.contains_key("body"@) && payload["body"@] == JsonModel::Number(body)
            ==> response_in(payload).body.len() == 0,
        !payload.contains_key("headers"@) ==> response_in(payload).headers == Map::<
            Seq<char>,
            Seq<char>,
        >::empty(),
{
    counts_are_read(status as nat, body, 0);
    reveal_strlit("");
}

/// The headers of a response are those of the payload, where they are an object of
/// strings.
pub proof fn response_headers_are_read_from_the_reply(
    payload: Map<Seq<char>, JsonModel>,
    name: Seq<char>,
    value: Seq<char>,
)
    ensures
        payload.contains_key("headers"@) && payload["headers"@] == JsonModel::Fields(
            seq![(name, JsonModel::Text(value))],
        ) ==> response_in(payload).headers == map![name => value],
        payload.contains_key("headers"@) && payload["headers"@] == JsonModel::Fields(
            seq![(name, JsonModel::Number(value))],
        ) ==> response_in(payload).headers == Map::<Seq<char>, Seq<char>>::empty(),
        payload.contains_key("headers"@) && payload["headers"@] == JsonModel::Text(value)
            ==> response_in(payload).headers == Map::<Seq<char>, Seq<char>>::empty(),
{
    let one = seq![(name, JsonModel::Text(value))];
    assert(one.drop_last() =~= Seq::<(Seq<char>, JsonModel)>::empty());
    assert(one.last() == (name, JsonModel::Text(value)));
    assert(text_fields(one.drop_last()) == Map::<
        Seq<char>,
        Seq<char>,
    >::empty());
    assert(text_fields(one) =~= map![name => value]);
    let bad = seq![(name, JsonModel::Number(value))];
    assert(!(bad[0].1 is Text));
}

/// A client whose forward request has ended gets the response of the reply, or an error
/// that says what ended it.
pub proof fn ended_forwards_are_answered(
    event: ServiceBusEventEnvelope,
    message: ServiceBusProtocolMessage,
)
    ensures
        message.is_reply(forward_reply(ForwardOutcome::Reply(event))) ==> message.kind@
            == "forward_response"@ && message.forward_response is Some && message.error_code is None
            && (message.forward_response->0)@ == response_in(event@.payload),
        message.is_reply(forward_reply(ForwardOutcome::Closed)) ==> message.kind@ == "error"@
            && message.forward_response is None && message.error_code is Some && (
        message.error_code->0)@ == "FORWARD_CHANNEL_CLOSED"@,
        message.is_reply(forward_reply(ForwardOutcome::TimedOut)) ==> message.kind@ == "error"@
            && message.forward_response is None && message.error_code is Some && (
        message.error_code->0)@ == "FORWARD_TIMEOUT"@,
{
}

/// Services and requests have topics of their own, different ones different topics, and
/// no reply comes in on the topic of a service.
pub proof fn topics_tell_apart(a: Seq<char>, b: Seq<char>)
    ensures
        service_topic(a) == service_topic(b) ==> a == b,
        reply_topic(a) == reply_topic(b) ==> a == b,
        service_topic(a) != reply_topic(b),
{
    reveal_strlit("service-");
    reveal_strlit("reply-to-");
    assert(service_topic(a)[0] == 's' && reply_topic(b)[0] == 'r');
    assert(service_topic(a).skip(8) =~= a);
    assert(service_topic(b).skip(8) =~= b);
    assert(reply_topic(a).skip(9) =~= a);
    assert(reply_topic(b).skip(9) =~= b);
}

/// A request that was sent and found nobody is answered with `TARGET_NOT_AVAILABLE`; it has
/// used up a correlation id, and its reply topic is closed again.
pub proof fn requests_that_find_nobody_are_answered(
    before: BusModel,
    after: BusModel,
    key: Seq<char>,
    request: ServiceBusForwardRequest,
    request_id: Seq<char>,
    now: Timestamp,
    reply: ServiceBusProtocolMessage,
)
    requires
        refusal(before, key, Some(request)) is None,
        forward_begun(before, after, key, Some(request), request_id, now, Err(reply)),
    ensures
        reply.kind@ == "error"@,
        reply.error_code is Some && (reply.error_code->0)@ == "TARGET_NOT_AVAILABLE"@,
        reply.forward_response is None,
        reply.event is None,
        !after.internal_subscribers.contains_key("reply-to-"@ + request_id),
        after.next_correlation_id == id_after(before.next_correlation_id),
{
    let connection = before.connections[key];
    let event = relay_event(
        (connection.service_id, connection.instance_id),
        request.target_service_id@,
        "forward"@,
        request_payload(request),
        request_id,
        before.next_correlation_id,
        now,
    );
    let (p, tx) = choose|p: Publication, tx: UnboundedSender<ServiceBusEventEnvelope>| #[trigger]
        p.hands_out(awaiting(before, event.event_id, tx), event, key) && p.delivered == 0 && after
            == no_longer_awaiting(p.leaves(awaiting(before, event.event_id, tx)), event.event_id);
    deliveries_touch_connections_only(
        awaiting(before, request_id, tx),
        keys_of_subscribers(p.subscribers@),
        outcomes_of(p.receipts@),
    );
}

/// A publication counts the channels that took the event: those of the subscribers, and
/// that of the internal one.
pub proof fn publications_count_who_took_the_event(
    publication: Publication,
    bus: BusModel,
    event: EventModel,
    exclude_key: Seq<char>,
)
    requires
        publication.hands_out(bus, event, exclude_key),
    ensures
        ({
            let n = publication.receipts@.len();
            let inside = publication.internal;
            let all = forall|i: int|
                0 <= i < n ==> (#[trigger] publication.receipts@[i]).accepted();
            let none = forall|i: int|
                0 <= i < n ==> !(#[trigger] publication.receipts@[i]).accepted();
            &&& inside is None && all ==> publication.delivered == n
            &&& inside is None && none ==> publication.delivered == 0
            &&& inside is Some && (inside->0).accepted() && all ==> publication.delivered == n + 1
            &&& inside is Some && (inside->0).accepted() && none ==> publication.delivered == 1
            &&& inside is Some && !(inside->0).accepted() && all ==> publication.delivered == n
            &&& publication.delivered == 0 ==> none
        }),
{
    let outcomes = outcomes_of(publication.receipts@);
    deliveries_are_counted(outcomes, Seq::empty());
    assert forall|i: int| 0 <= i < outcomes.len() implies #[trigger] outcomes[i]
        == publication.receipts@[i].accepted() by {}
    if publication.delivered == 0 {
        assert(successes(outcomes) == 0);
        assert forall|i: int| 0 <= i < publication.receipts@.len() implies !(
        #[trigger] publication.receipts@[i]).accepted() by {
            assert(!outcomes[i]);
        }
    }
}

/// The id of a forward request says where it comes from and ends with a UUID.
pub proof fn request_ids_say_where_they_come_from(id: Seq<char>)
    requires
        is_request_id(id),
    ensures
        "basilisk-"@.is_prefix_of(id),
        id.len() == 9 + 36,
{
    reveal_strlit("basilisk-");
    let unique = choose|unique: Seq<char>|
        is_uuid(unique, '7') && id == #[trigger] ("basilisk-"@ + unique);
    assert(id == "basilisk-"@ + unique);
    assert("basilisk-"@.is_prefix_of(id));
}

} // verus!
