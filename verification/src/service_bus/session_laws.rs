//! What holds of the sessions of clients and of deliveries.

use crate::clock::Timestamp;
use crate::config::GatewayConfig;
use crate::json::JsonModel;
use crate::models::InstanceStatus;
use crate::registry::RegistryModel;
use crate::service_bus::connection_manager::{
    excluded, id_after, joined_topics, keys_of_subscribers, outcomes_of, successes, BusModel,
    ServiceBusConnection,
};
use crate::service_bus::contracts::{connection_key_of, EventModel, ServiceBusProtocolMessage};
use crate::service_bus::laws::joined_topics_hold;
use crate::service_bus::server::{
    message_handled, normalized_event, numbered, registry_with_client, registry_without_client,
    request_of, ClientRequest, ClientSession, SessionModel, SessionStep,
};
use crate::text::texts;
use tokio::sync::mpsc::UnboundedSender;
use vstd::prelude::*;

verus! {

/// Five kinds of message ask for something, each in its own word; all others ask for
/// nothing.
pub proof fn requests_have_one_word_each(kind: Seq<char>)
    ensures
        request_of(kind) == ClientRequest::Connect <==> kind == "connect"@,
        request_of(kind) == ClientRequest::Authenticate <==> kind == "authenticate"@,
        request_of(kind) == ClientRequest::Subscribe <==> kind == "subscribe"@,
        request_of(kind) == ClientRequest::Publish <==> kind == "publish"@,
        request_of(kind) == ClientRequest::Forward <==> kind == "forward"@,
{
    reveal_strlit("connect");
    reveal_strlit("authenticate");
    reveal_strlit("subscribe");
    reveal_strlit("publish");
    reveal_strlit("forward");
    assert("connect"@[0] == 'c');
    assert("authenticate"@[0] == 'a');
    assert("subscribe"@[0] == 's');
    assert("publish"@[0] == 'p');
    assert("forward"@[0] == 'f');
}

/// Whether a step is a message that reports an error under a code.
pub open spec fn reports(step: SessionStep, code: Seq<char>) -> bool {
    step matches SessionStep::Reply(m) && m.kind@ == "error"@ && m.error_code is Some && (
    m.error_code->0)@ == code && m.message is Some && m.event is None && m.forward_response is None
        && m.subscriber_count is None
}

/// Whether a step is a message that acknowledges a request in some words.
pub open spec fn acknowledges(step: SessionStep, words: Seq<char>) -> bool {
    step matches SessionStep::Reply(m) && m.kind@ == "ack"@ && m.error_code is None && m.message
        is Some && (m.message->0)@ == words && m.event is None && m.forward_response is None
        && m.subscriber_count is None
}

/// What a request to connect is answered, and what it leads to: an identity is taken
/// once, in full and never the reserved one; a token may be left out and must be the
/// right one where it is shown. A refused request changes nothing.
pub proof fn connecting_is_decided_by_identity_and_token(
    before: (SessionModel, BusModel, RegistryModel),
    after: (SessionModel, BusModel, RegistryModel),
    config: GatewayConfig,
    message: ServiceBusProtocolMessage,
    tx: UnboundedSender<ServiceBusProtocolMessage>,
    unique: Seq<char>,
    request_id: Seq<char>,
    now: Timestamp,
    step: SessionStep,
)
    requires
        message.kind@ == "connect"@,
        message_handled(before, after, config, message, tx, unique, request_id, now, step),
    ensures
        ({
            let service = (message.service_id->0)@;
            let instance = (message.instance_id->0)@;
            let named = message.service_id is Some && message.instance_id is Some;
            let reserved = service == "basilisk"@ || instance == "lua-runtime"@;
            let right = before.2.has_instance(service, instance) && before.2.instance(
                service,
                instance,
            ).token == (message.token->0)@;
            if before.0.identity is Some {
                reports(step, "ALREADY_CONNECTED"@) && after == before
            } else if !named {
                reports(step, "AUTH_REQUIRED"@) && after == before
            } else if reserved {
                reports(step, "RESERVED_IDENTITY"@) && after == before
            } else if message.token is None {
                &&& acknowledges(step, "Connected to service bus"@)
                &&& after.0.identity == Some((service, instance))
                &&& !after.0.authenticated
                &&& after.1 == before.1
                &&& after.2 == before.2
            } else if right {
                &&& acknowledges(step, "Connected and authenticated to service bus"@)
                &&& after.0.identity == Some((service, instance))
                &&& after.0.authenticated
                &&& client_was_admitted(before.1, after.1, service, instance, tx)
                &&& after.2 == registry_with_client(before.2, config, service, instance, now)
            } else {
                reports(step, "AUTH_FAILED"@) && after == before
            }
        }),
{
    requests_have_one_word_each(message.kind@);
}

/// Whether a bus is another one with a new connection of a client, which listens to no
/// topic yet.
pub open spec fn client_was_admitted(
    before: BusModel,
    after: BusModel,
    service: Seq<char>,
    instance: Seq<char>,
    tx: UnboundedSender<ServiceBusProtocolMessage>,
) -> bool {
    let key = service + ":"@ + instance;
    &&& after.connections.contains_key(key)
    &&& after.connections[key].service_id == service
    &&& after.connections[key].instance_id == instance
    &&& after.connections[key].tx == tx
    &&& after.connections[key].authenticated
    &&& after.connections[key].subscriptions.len() == 0
    &&& forall|other: Seq<char>|
        other != key ==> #[trigger] after.connections.contains_key(other)
            == before.connections.contains_key(other)
    &&& forall|other: Seq<char>|
        other != key && #[trigger] before.connections.contains_key(other)
            ==> after.connections[other] == before.connections[other]
    &&& after.internal_subscribers == before.internal_subscribers
    &&& after.next_correlation_id == before.next_correlation_id
    &&& after.outlet == before.outlet
}

/// What an `authenticate` message is answered, and what it leads to: only one who has
/// connected is answered, and only the right token admits.
pub proof fn authenticating_is_decided_by_the_token(
    before: (SessionModel, BusModel, RegistryModel),
    after: (SessionModel, BusModel, RegistryModel),
    config: GatewayConfig,
    message: ServiceBusProtocolMessage,
    tx: UnboundedSender<ServiceBusProtocolMessage>,
    unique: Seq<char>,
    request_id: Seq<char>,
    now: Timestamp,
    step: SessionStep,
)
    requires
        message.kind@ == "authenticate"@,
        message_handled(before, after, config, message, tx, unique, request_id, now, step),
    ensures
        ({
            let service = (before.0.identity->0).0;
            let instance = (before.0.identity->0).1;
            let right = before.2.has_instance(service, instance) && before.2.instance(
                service,
                instance,
            ).token == (message.token->0)@;
            if before.0.identity is None {
                step is Nothing && after == before
            } else if message.token is None {
                reports(step, "AUTH_REQUIRED"@) && after == before
            } else if !right {
                reports(step, "AUTH_FAILED"@) && after == before
            } else if before.0.authenticated {
                acknowledges(step, "Authenticated to service bus"@) && after == before
            } else {
                &&& acknowledges(step, "Authenticated to service bus"@)
                &&& after.0.identity == before.0.identity
                &&& after.0.authenticated
                &&& client_was_admitted(before.1, after.1, service, instance, tx)
                &&& after.2 == registry_with_client(before.2, config, service, instance, now)
            }
        }),
{
    requests_have_one_word_each(message.kind@);
}

/// Where connections decide on health, an instance is up from the moment on at which its
/// client is admitted, and, unless metrics decide, down from its end on. Else sessions
/// change nothing in the registry.
pub proof fn sessions_decide_on_health_where_they_should(
    registry: RegistryModel,
    config: GatewayConfig,
    service: Seq<char>,
    instance: Seq<char>,
    authenticated: bool,
    now: Timestamp,
)
    requires
        registry.has_instance(service, instance),
    ensures
        ({
            let begun = registry_with_client(registry, config, service, instance, now);
            let session = SessionModel { identity: Some((service, instance)), authenticated };
            let ended = registry_without_client(registry, config, session, now);
            let by_connection = config.service_bus.connection_health_enabled;
            let by_metrics = config.service_bus.monitoring_enabled;
            &&& by_connection ==> begun.instance(service, instance).status == InstanceStatus::Up
                && begun.instance(service, instance).last_heartbeat_utc == now
            &&& !by_connection ==> begun == registry
            &&& by_connection && !by_metrics && authenticated ==> ended.instance(
                service,
                instance,
            ).status == InstanceStatus::Down
            &&& !by_connection || by_metrics || !authenticated ==> ended == registry
            &&& registry_without_client(
                registry,
                config,
                SessionModel { identity: None, authenticated },
                now,
            ) == registry
        }),
{
}

/// What a `subscribe` message is answered, and what it leads to: an admitted client
/// listens to the topics from then on, each other one as before.
pub proof fn subscribing_takes_an_admitted_client(
    before: (SessionModel, BusModel, RegistryModel),
    after: (SessionModel, BusModel, RegistryModel),
    config: GatewayConfig,
    message: ServiceBusProtocolMessage,
    tx: UnboundedSender<ServiceBusProtocolMessage>,
    unique: Seq<char>,
    request_id: Seq<char>,
    now: Timestamp,
    step: SessionStep,
    other: Seq<char>,
)
    requires
        message.kind@ == "subscribe"@,
        message_handled(before, after, config, message, tx, unique, request_id, now, step),
    ensures
        ({
            let ids = before.0.identity->0;
            let key = ids.0 + ":"@ + ids.1;
            let admitted = before.0.authenticated && before.1.connections.contains_key(key)
                && before.1.connections[key].authenticated;
            &&& after.0 == before.0
            &&& after.2 == before.2
            &&& if before.0.identity is None {
                step is Nothing && after == before
            } else if !admitted {
                reports(step, "NOT_AUTHENTICATED"@) && after == before
            } else if message.topics is None {
                step is Nothing && after == before
            } else {
                let topics = (message.topics->0)@;
                &&& acknowledges(step, "Subscription updated"@)
                &&& after.1.connections.contains_key(key)
                &&& after.1.connections[key].authenticated
                &&& after.1.connections[key].tx == before.1.connections[key].tx
                &&& forall|i: int|
                    0 <= i < topics.len() ==> after.1.connections[key].subscriptions.contains(
                        (#[trigger] topics[i])@,
                    )
                &&& other != key ==> after.1.connections.contains_key(other)
                    == before.1.connections.contains_key(other)
                &&& other != key && before.1.connections.contains_key(other)
                    ==> after.1.connections[other] == before.1.connections[other]
                &&& after.1.internal_subscribers == before.1.internal_subscribers
                &&& after.1.next_correlation_id == before.1.next_correlation_id
            }
        }),
{
    requests_have_one_word_each(message.kind@);
    if message.topics is Some && before.0.admitted(before.1) {
        let topics = texts((message.topics->0)@);
        let key = before.0.key();
        assert forall|i: int| 0 <= i < (message.topics->0)@.len() implies #[trigger] topics[i]
            == (message.topics->0)@[i]@ by {}
        assert forall|i: int|
            0 <= i < (message.topics->0)@.len() implies after.1.connections[key].subscriptions.contains(
            (#[trigger] (message.topics->0)@[i])@,
        ) by {
            assert(topics[i] == (message.topics->0)@[i]@);
            assert(topics.contains(topics[i]));
            joined_topics_hold(before.1.connections[key].subscriptions, topics);
        }
    }
}

/// What a `publish` message leads to: the event of an admitted client goes out in the
/// form of the server, and the answer counts who took it.
pub proof fn publishing_takes_an_admitted_client(
    before: (SessionModel, BusModel, RegistryModel),
    after: (SessionModel, BusModel, RegistryModel),
    config: GatewayConfig,
    message: ServiceBusProtocolMessage,
    tx: UnboundedSender<ServiceBusProtocolMessage>,
    unique: Seq<char>,
    request_id: Seq<char>,
    now: Timestamp,
    step: SessionStep,
)
    requires
        message.kind@ == "publish"@,
        message_handled(before, after, config, message, tx, unique, request_id, now, step),
    ensures
        ({
            let ids = before.0.identity->0;
            let key = ids.0 + ":"@ + ids.1;
            let admitted = before.0.identity is Some && before.0.authenticated
                && before.1.connections.contains_key(key)
                && before.1.connections[key].authenticated;
            let event = message.event->0@;
            let from = before.1.connections[key];
            &&& after.0 == before.0
            &&& after.2 == before.2
            &&& if !admitted || message.event is None {
                step is Nothing && after == before
            } else if event.topic.len() == 0 {
                reports(step, "TOPIC_REQUIRED"@) && after == before
            } else {
                &&& step is Published
                &&& {
                    let reply = step->Published_0;
                    let sent = (reply.event->0)@;
                    let given = event.correlation_id > 0;
                    &&& reply.kind@ == "ack"@
                    &&& reply.message is Some && (reply.message->0)@ == "Event published"@
                    &&& reply.error_code is None
                    &&& reply.subscriber_count == Some(step->Published_1.delivered)
                    &&& reply.event is Some
                    &&& sent.topic == event.topic
                    &&& sent.message_type == event.message_type
                    &&& sent.causation_id == event.causation_id
                    &&& sent.payload == Map::<Seq<char>, JsonModel>::empty()
                    &&& sent.service_id == from.service_id
                    &&& sent.instance_id == from.instance_id
                    &&& sent.event_id == from.instance_id + "-"@ + unique
                    &&& sent.emitted_at_utc == now
                    &&& given ==> sent.correlation_id == event.correlation_id
                        && after.1.next_correlation_id == before.1.next_correlation_id
                    &&& !given ==> sent.correlation_id == before.1.next_correlation_id
                        && after.1.next_correlation_id == id_after(before.1.next_correlation_id)
                }
            }
        }),
{
    requests_have_one_word_each(message.kind@);
    if step is Published {
        let publication = step->Published_1;
        let bus = numbered(before.1, message.event->0@.correlation_id);
        deliveries_touch_connections_only(
            bus,
            keys_of_subscribers(publication.subscribers@),
            outcomes_of(publication.receipts@),
        );
    }
}

/// What a client writes into an event stays: the topic, the message type, the causation,
/// the payload, and a positive correlation id.
pub proof fn events_keep_what_clients_say(
    event: EventModel,
    service: Seq<char>,
    instance: Seq<char>,
    unique: Seq<char>,
    now: Timestamp,
    fresh: i64,
)
    ensures
        ({
            let sent = normalized_event(event, service, instance, unique, now, fresh);
            &&& sent.topic == event.topic
            &&& sent.message_type == event.message_type
            &&& sent.causation_id == event.causation_id
            &&& sent.payload == event.payload
            &&& event.correlation_id > 0 ==> sent.correlation_id == event.correlation_id
            &&& event.correlation_id <= 0 ==> sent.correlation_id == fresh
            &&& sent.event_id == instance + "-"@ + unique
        }),
{
}

/// Messages of a kind that asks for nothing are not answered and change nothing.
pub proof fn other_messages_do_nothing(
    before: (SessionModel, BusModel, RegistryModel),
    after: (SessionModel, BusModel, RegistryModel),
    config: GatewayConfig,
    message: ServiceBusProtocolMessage,
    tx: UnboundedSender<ServiceBusProtocolMessage>,
    unique: Seq<char>,
    request_id: Seq<char>,
    now: Timestamp,
    step: SessionStep,
)
    requires
        message.kind@ != "connect"@,
        message.kind@ != "authenticate"@,
        message.kind@ != "subscribe"@,
        message.kind@ != "publish"@,
        message.kind@ != "forward"@,
        message_handled(before, after, config, message, tx, unique, request_id, now, step),
    ensures
        step is Nothing,
        after == before,
{
    requests_have_one_word_each(message.kind@);
}

/// A `forward` message of one who has not connected is not answered, and of one who is
/// not admitted refused; neither changes anything.
pub proof fn forwarding_takes_an_admitted_client(
    before: (SessionModel, BusModel, RegistryModel),
    after: (SessionModel, BusModel, RegistryModel),
    config: GatewayConfig,
    message: ServiceBusProtocolMessage,
    tx: UnboundedSender<ServiceBusProtocolMessage>,
    unique: Seq<char>,
    request_id: Seq<char>,
    now: Timestamp,
    step: SessionStep,
)
    requires
        message.kind@ == "forward"@,
        message_handled(before, after, config, message, tx, unique, request_id, now, step),
    ensures
        ({
            let ids = before.0.identity->0;
            let key = ids.0 + ":"@ + ids.1;
            let admitted = before.0.authenticated && before.1.connections.contains_key(key)
                && before.1.connections[key].authenticated;
            &&& after.0 == before.0
            &&& after.2 == before.2
            &&& before.0.identity is None ==> step is Nothing && after == before
            &&& before.0.identity is Some && !admitted ==> reports(step, "NOT_AUTHENTICATED"@)
                && after == before
            &&& before.0.identity is Some && admitted ==> step is Await || step is Reply
            &&& before.0.identity is Some && admitted && message.forward_request is None
                ==> reports(step, "INVALID_FORWARD_REQUEST"@) && after == before
        }),
{
    requests_have_one_word_each(message.kind@);
}

/// Deliveries are counted one by one.
pub proof fn deliveries_are_counted(outcomes: Seq<bool>, more: Seq<bool>)
    ensures
        successes(outcomes + more) == successes(outcomes) + successes(more),
        successes(seq![true]) == 1,
        successes(seq![false]) == 0,
        0 <= successes(outcomes) <= outcomes.len(),
        successes(outcomes) == 0 <==> forall|i: int| 0 <= i < outcomes.len() ==> !#[trigger] outcomes[i],
        successes(outcomes) == outcomes.len() <==> forall|i: int|
            0 <= i < outcomes.len() ==> #[trigger] outcomes[i],
    decreases outcomes.len() + more.len(),
{
    let none = Seq::<bool>::empty();
    assert(seq![true].drop_last() =~= none);
    assert(seq![false].drop_last() =~= none);
    assert(successes(none) == 0);
    assert(successes(seq![true]) == 1);
    assert(successes(seq![false]) == 0);
    if more.len() > 0 {
        deliveries_are_counted(outcomes, more.drop_last());
        assert((outcomes + more).drop_last() =~= outcomes + more.drop_last());
        assert((outcomes + more).last() == more.last());
    } else {
        assert(outcomes + more =~= outcomes);
        if outcomes.len() > 0 {
            let rest = outcomes.drop_last();
            deliveries_are_counted(rest, none);
            let last = outcomes.len() - 1;
            assert(outcomes[last] == outcomes.last());
            if forall|i: int| 0 <= i < outcomes.len() ==> !#[trigger] outcomes[i] {
                assert forall|i: int| 0 <= i < rest.len() implies !#[trigger] rest[i] by {
                    assert(rest[i] == outcomes[i]);
                }
            }
            if forall|i: int| 0 <= i < outcomes.len() ==> #[trigger] outcomes[i] {
                assert forall|i: int| 0 <= i < rest.len() implies #[trigger] rest[i] by {
                    assert(rest[i] == outcomes[i]);
                }
            }
            if successes(outcomes) == 0 {
                assert forall|i: int| 0 <= i < outcomes.len() implies !#[trigger] outcomes[i] by {
                    if i < last {
                        assert(rest[i] == outcomes[i]);
                    }
                }
            }
            if successes(outcomes) == outcomes.len() {
                assert forall|i: int| 0 <= i < outcomes.len() implies #[trigger] outcomes[i] by {
                    if i < last {
                        assert(rest[i] == outcomes[i]);
                    }
                }
            }
        }
    }
}

/// Deliveries touch nothing of a bus but its connections.
pub proof fn deliveries_touch_connections_only(
    bus: BusModel,
    keys: Seq<Seq<char>>,
    outcomes: Seq<bool>,
)
    ensures
        bus.settled(keys, outcomes).internal_subscribers == bus.internal_subscribers,
        bus.settled(keys, outcomes).next_correlation_id == bus.next_correlation_id,
        bus.settled(keys, outcomes).outlet == bus.outlet,
    decreases keys.len(),
{
    if keys.len() > 0 {
        deliveries_touch_connections_only(bus, keys.drop_last(), outcomes.drop_last());
    }
}

/// A connection is lost exactly when a delivery to it has failed, that of the reserved
/// identity never; what stays is as it was.
pub proof fn failed_deliveries_cost_the_connection(
    bus: BusModel,
    keys: Seq<Seq<char>>,
    outcomes: Seq<bool>,
    key: Seq<char>,
)
    requires
        outcomes.len() == keys.len(),
        bus.connections.contains_key(key),
    ensures
        ({
            let after = bus.settled(keys, outcomes);
            let failed = exists|i: int|
                0 <= i < keys.len() && #[trigger] keys[i] == key && !outcomes[i];
            &&& after.connections.contains_key(key) <==> !failed || key == "basilisk"@ + ":"@
                + "lua-runtime"@
            &&& after.connections.contains_key(key) ==> after.connections[key]
                == bus.connections[key]
        }),
    decreases keys.len(),
{
    if keys.len() > 0 {
        let rest = keys.drop_last();
        let outs = outcomes.drop_last();
        failed_deliveries_cost_the_connection(bus, rest, outs, key);
        let last = keys.len() - 1;
        assert(keys[last] == keys.last() && outcomes[last] == outcomes.last());
        if exists|i: int| 0 <= i < rest.len() && #[trigger] rest[i] == key && !outs[i] {
            let i = choose|i: int| 0 <= i < rest.len() && #[trigger] rest[i] == key && !outs[i];
            assert(keys[i] == key && !outcomes[i]);
        }
        if exists|i: int| 0 <= i < keys.len() && #[trigger] keys[i] == key && !outcomes[i] {
            let i = choose|i: int| 0 <= i < keys.len() && #[trigger] keys[i] == key && !outcomes[i];
            if i < last {
                assert(rest[i] == key && !outs[i]);
            }
        }
    }
}

/// Removing a connection removes that one alone.
pub proof fn disconnecting_keeps_the_others(bus: BusModel, key: Seq<char>, other: Seq<char>)
    ensures
        key != "basilisk"@ + ":"@ + "lua-runtime"@ ==> !bus.disconnected(
            key,
        ).connections.contains_key(key),
        other != key ==> bus.disconnected(key).connections.contains_key(other)
            == bus.connections.contains_key(other),
        other != key && bus.connections.contains_key(other) ==> bus.disconnected(
            key,
        ).connections[other] == bus.connections[other],
        bus.disconnected(key).internal_subscribers == bus.internal_subscribers,
        bus.disconnected(key).next_correlation_id == bus.next_correlation_id,
{
}

/// Topics that are asked for come after those that were there, in the order in which
/// they are first asked for.
pub proof fn topics_are_added_at_the_end(list: Seq<Seq<char>>, more: Seq<Seq<char>>, topic: Seq<char>)
    ensures
        list.is_prefix_of(joined_topics(list, more)),
        list.contains(topic) ==> joined_topics(list, seq![topic]) == list,
        !list.contains(topic) ==> joined_topics(list, seq![topic]) == list.push(topic),
        joined_topics(list, more.push(topic)) == joined_topics(
            joined_topics(list, more),
            seq![topic],
        ),
    decreases more.len(),
{
    let none = Seq::<Seq<char>>::empty();
    assert(seq![topic].drop_last() =~= none);
    assert(seq![topic].last() == topic);
    assert(joined_topics(list, none) == list);
    assert(joined_topics(joined_topics(list, more), none) == joined_topics(list, more));
    assert(more.push(topic).drop_last() =~= more);
    if more.len() > 0 {
        topics_are_added_at_the_end(list, more.drop_last(), topic);
    }
}

/// A publication leaves out the connection that it excludes, and none where it excludes
/// none: no connection has an empty key.
pub proof fn exclusions_name_one_connection(key: &str, service: Seq<char>, instance: Seq<char>)
    ensures
        excluded(Some(key)) == key@,
        excluded(None) != connection_key_of(service, instance),
{
    reveal_strlit("");
    reveal_strlit(":");
    assert(connection_key_of(service, instance).len() >= 1);
}

/// Nothing of a session or of a connection is lost in its model.
pub proof fn session_models_hold_every_field(
    session: ClientSession,
    connection: ServiceBusConnection,
    i: int,
)
    ensures
        session@.authenticated == session.authenticated,
        session@.identity is Some == session.identity is Some,
        session.identity matches Some(ids) ==> session@.identity == Some((ids.0@, ids.1@)),
        connection@.service_id == connection.service_id@,
        connection@.instance_id == connection.instance_id@,
        connection@.tx == connection.tx,
        connection@.authenticated == connection.authenticated,
        connection@.subscriptions.len() == connection.subscriptions@.len(),
        0 <= i < connection.subscriptions@.len() ==> connection@.subscriptions[i]
            == connection.subscriptions@[i]@,
{
}

} // verus!
