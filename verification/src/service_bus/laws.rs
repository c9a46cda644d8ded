//! What holds across the operations of the service bus.

use crate::clock::Timestamp;
use crate::config::GatewayConfig;
use crate::registry::RegistryModel;
use crate::service_bus::connection_manager::{
    id_after, joined_topics, keys_of_subscribers, outcomes_of, successes, BusModel, Publication,
};
use crate::service_bus::contracts::{
    connection_key_of, reserved_connection, EventModel, ServiceBusEventEnvelope,
    ServiceBusProtocolMessage, BASILISK_INSTANCE_ID, BASILISK_SERVICE_ID,
};
use crate::service_bus::forward::{
    awaiting, is_pending, no_longer_awaiting, reply_topic, PendingForward,
};
use crate::service_bus::server::{
    authenticates, connect_reply, connect_verdict, is_reserved_identity, message_handled,
    normalized_event, request_of, token_is_valid, ClientRequest, ConnectVerdict, SessionModel,
    SessionStep,
};
use tokio::sync::mpsc::UnboundedSender;
use vstd::prelude::*;

verus! {

/// The connection of the reserved identity survives every attempt to remove it.
pub proof fn reserved_connection_cannot_be_removed(bus: BusModel, key: Seq<char>)
    requires
        bus.authenticated(reserved_connection()),
    ensures
        bus.disconnected(key).authenticated(reserved_connection()),
{
}

/// Failed deliveries never cost the reserved identity its connection.
pub proof fn reserved_connection_survives_failed_deliveries(
    bus: BusModel,
    keys: Seq<Seq<char>>,
    outcomes: Seq<bool>,
)
    requires
        bus.authenticated(reserved_connection()),
    ensures
        bus.settled(keys, outcomes).authenticated(reserved_connection()),
    decreases keys.len(),
{
    if keys.len() > 0 {
        reserved_connection_survives_failed_deliveries(bus, keys.drop_last(), outcomes.drop_last());
    }
}

/// A connect attempt that uses either half of the reserved identity is refused
/// with `RESERVED_IDENTITY`, whatever token comes with it.
pub proof fn reserved_identity_is_refused(
    session: SessionModel,
    registry: RegistryModel,
    service_id: Seq<char>,
    instance_id: Seq<char>,
    token: Option<Seq<char>>,
)
    requires
        session.identity is None,
        service_id == BASILISK_SERVICE_ID@ || instance_id == BASILISK_INSTANCE_ID@,
    ensures
        connect_verdict(session, registry, Some(service_id), Some(instance_id), token)
            == ConnectVerdict::Reserved,
        connect_reply(ConnectVerdict::Reserved).error_code == Some("RESERVED_IDENTITY"@),
{
}

/// No identity that may connect has the key of the reserved connection.
pub proof fn client_keys_are_not_reserved(service_id: Seq<char>, instance_id: Seq<char>)
    requires
        !is_reserved_identity(service_id, instance_id),
    ensures
        connection_key_of(service_id, instance_id) != reserved_connection(),
{
    reveal_strlit("basilisk");
    reveal_strlit("lua-runtime");
    reveal_strlit(":");
    let key = connection_key_of(service_id, instance_id);
    let reserved = reserved_connection();
    if key == reserved {
        // The only colon of the reserved key stands at place 8.
        let n = service_id.len() as int;
        assert(key[n] == ':');
        assert(forall|i: int| 0 <= i < 8 ==> #[trigger] reserved[i] == BASILISK_SERVICE_ID@[i]);
        assert(forall|i: int|
            9 <= i < reserved.len() ==> #[trigger] reserved[i] == BASILISK_INSTANCE_ID@[i - 9]);
        assert(n == 8);
        assert(service_id =~= reserved.take(8)) by {
            assert forall|i: int| 0 <= i < 8 implies service_id[i] == reserved.take(8)[i] by {
                assert(key[i] == service_id[i]);
            }
        }
        assert(reserved.take(8) =~= BASILISK_SERVICE_ID@);
    }
}

/// A published event is handed to a connection exactly when that is authenticated,
/// subscribed to the topic and not the excluded one.
pub proof fn events_reach_exactly_the_subscribers(
    publication: Publication,
    bus: BusModel,
    event: EventModel,
    exclude_key: Seq<char>,
    key: Seq<char>,
)
    requires
        publication.hands_out(bus, event, exclude_key),
    ensures
        keys_of_subscribers(publication.subscribers@).contains(key) <==> bus.authenticated(key)
            && bus.connections[key].subscriptions.contains(event.topic) && key != exclude_key,
{
    let keys = keys_of_subscribers(publication.subscribers@);
    assert(keys.contains(key) == keys.to_set().contains(key));
}

/// Joined topics hold exactly the topics of both lists, and each once where the first
/// holds none twice.
pub proof fn joined_topics_hold(list: Seq<Seq<char>>, more: Seq<Seq<char>>)
    ensures
        forall|t: Seq<char>| #[trigger]
            joined_topics(list, more).contains(t) <==> list.contains(t) || more.contains(t),
        list.no_duplicates() ==> joined_topics(list, more).no_duplicates(),
    decreases more.len(),
{
    if more.len() > 0 {
        let rest = more.drop_last();
        let before = joined_topics(list, rest);
        let after = joined_topics(list, more);
        joined_topics_hold(list, rest);
        assert forall|t: Seq<char>| #[trigger] after.contains(t) <==> list.contains(t)
            || more.contains(t) by {
            assert(more.contains(t) == (rest.contains(t) || t == more.last())) by {
                if rest.contains(t) {
                    let j = rest.index_of(t);
                    assert(more[j] == t);
                }
                if more.contains(t) {
                    let j = more.index_of(t);
                    if j < rest.len() {
                        assert(rest[j] == t);
                    }
                }
                assert(more[more.len() - 1] == more.last());
            }
            assert(after.contains(t) == (before.contains(t) || t == more.last())) by {
                if !before.contains(more.last()) {
                    if before.contains(t) {
                        let j = before.index_of(t);
                        assert(after[j] == t);
                    }
                    assert(after[before.len() as int] == more.last());
                }
            }
        }
    } else {
        assert(joined_topics(list, more) == list);
    }
}

/// A connection is subscribed to what it was subscribed to and to what it asked
/// for, each topic once.
pub proof fn subscribing_adds_each_topic_once(
    bus: BusModel,
    key: Seq<char>,
    topics: Seq<Seq<char>>,
)
    requires
        bus.connections.contains_key(key),
    ensures
        ({
            let before = bus.connections[key].subscriptions;
            let after = bus.subscribed(key, topics).connections[key].subscriptions;
            &&& forall|t: Seq<char>| #[trigger]
                after.contains(t) <==> before.contains(t) || topics.contains(t)
            &&& before.no_duplicates() ==> after.no_duplicates()
        }),
{
    joined_topics_hold(bus.connections[key].subscriptions, topics);
}

/// After unsubscribing, a connection is subscribed to none of the topics that it
/// gave up, and to all the others as before.
pub proof fn unsubscribing_removes_topics(bus: BusModel, key: Seq<char>, topics: Seq<Seq<char>>)
    requires
        bus.connections.contains_key(key),
    ensures
        ({
            let before = bus.connections[key].subscriptions;
            let after = bus.unsubscribed(key, topics).connections[key].subscriptions;
            forall|t: Seq<char>| #[trigger]
                after.contains(t) <==> before.contains(t) && !topics.contains(t)
        }),
{
    let before = bus.connections[key].subscriptions;
    let keeps = |t: Seq<char>| !topics.contains(t);
    filter_holds(before, keeps);
}

proof fn filter_holds(list: Seq<Seq<char>>, keeps: spec_fn(Seq<char>) -> bool)
    ensures
        forall|t: Seq<char>| #[trigger]
            list.filter(keeps).contains(t) <==> list.contains(t) && keeps(t),
    decreases list.len(),
{
    reveal(Seq::filter);
    if list.len() > 0 {
        let rest = list.drop_last();
        filter_holds(rest, keeps);
        let kept = rest.filter(keeps);
        let all = list.filter(keeps);
        assert forall|t: Seq<char>| #[trigger] all.contains(t) <==> list.contains(t) && keeps(t) by {
            assert(list.contains(t) == (rest.contains(t) || t == list.last())) by {
                if rest.contains(t) {
                    let j = rest.index_of(t);
                    assert(list[j] == t);
                }
                if list.contains(t) {
                    let j = list.index_of(t);
                    if j < rest.len() {
                        assert(rest[j] == t);
                    }
                }
                assert(list[list.len() - 1] == list.last());
            }
            if keeps(list.last()) {
                assert(all == kept.push(list.last()));
                assert(all.contains(t) == (kept.contains(t) || t == list.last())) by {
                    if kept.contains(t) {
                        let j = kept.index_of(t);
                        assert(all[j] == t);
                    }
                    assert(all[kept.len() as int] == list.last());
                }
            }
        }
    }
}

/// Correlation ids increase from call to call, until the largest has been given out.
pub proof fn correlation_ids_increase(id: i64)
    requires
        id < i64::MAX,
    ensures
        id_after(id) > id,
{
}

/// Where every delivery succeeds, no connection is lost.
pub proof fn successful_deliveries_keep_connections(
    bus: BusModel,
    keys: Seq<Seq<char>>,
    outcomes: Seq<bool>,
)
    requires
        keys.len() == outcomes.len(),
        forall|i: int| 0 <= i < outcomes.len() ==> outcomes[i],
    ensures
        bus.settled(keys, outcomes) == bus,
        successes(outcomes) == outcomes.len(),
    decreases keys.len(),
{
    if keys.len() > 0 {
        assert forall|i: int| 0 <= i < outcomes.drop_last().len() implies outcomes.drop_last()[i] by {
            assert(outcomes[i]);
        }
        successful_deliveries_keep_connections(bus, keys.drop_last(), outcomes.drop_last());
    }
}

/// A client that is not admitted changes nothing on the bus by subscribing,
/// publishing or forwarding.
pub proof fn strangers_change_nothing(
    before: (SessionModel, BusModel, RegistryModel),
    after: (SessionModel, BusModel, RegistryModel),
    config: GatewayConfig,
    message: ServiceBusProtocolMessage,
    tx: UnboundedSender<ServiceBusProtocolMessage>,
    unique: Seq<char>,
    request_id: Seq<char>,
    now: Timestamp,
    step: SessionStep,
)
    requires
        message_handled(before, after, config, message, tx, unique, request_id, now, step),
        !before.0.admitted(before.1),
        request_of(message.kind@) != ClientRequest::Connect,
        request_of(message.kind@) != ClientRequest::Authenticate,
    ensures
        after == before,
        !(step is Await),
{
}

/// A client is admitted only with the token that the registry issued for the
/// identity that it connects as.
pub proof fn admission_takes_the_right_token(
    before: (SessionModel, BusModel, RegistryModel),
    after: (SessionModel, BusModel, RegistryModel),
    config: GatewayConfig,
    message: ServiceBusProtocolMessage,
    tx: UnboundedSender<ServiceBusProtocolMessage>,
    unique: Seq<char>,
    request_id: Seq<char>,
    now: Timestamp,
    step: SessionStep,
)
    requires
        message_handled(before, after, config, message, tx, unique, request_id, now, step),
        !before.0.authenticated,
        after.0.authenticated,
    ensures
        after.0.identity is Some,
        message.token is Some,
        token_is_valid(
            before.2,
            (after.0.identity->0).0,
            (after.0.identity->0).1,
            (message.token->0)@,
        ),
        after.0.admitted(after.1),
{
}

/// It makes no difference whether a client shows its token when it connects or
/// afterwards.
pub proof fn token_may_follow(
    session: SessionModel,
    registry: RegistryModel,
    service_id: Seq<char>,
    instance_id: Seq<char>,
    token: Seq<char>,
)
    requires
        session.identity is None,
        connect_verdict(session, registry, Some(service_id), Some(instance_id), None)
            == ConnectVerdict::Connected,
    ensures
        ({
            let between = SessionModel {
                identity: Some((service_id, instance_id)),
                authenticated: false,
            };
            (connect_verdict(session, registry, Some(service_id), Some(instance_id), Some(token))
                == ConnectVerdict::Authenticated) == authenticates(between, registry, Some(token))
        }),
{
}

/// Whatever identity, id or time a client writes into an event, those that reach
/// the subscribers are the server's.
pub proof fn clients_cannot_forge_events(
    event: EventModel,
    forged: EventModel,
    service_id: Seq<char>,
    instance_id: Seq<char>,
    unique: Seq<char>,
    now: Timestamp,
    correlation_id: i64,
)
    requires
        event.topic == forged.topic,
        event.message_type == forged.message_type,
        event.correlation_id == forged.correlation_id,
        event.causation_id == forged.causation_id,
        event.payload == forged.payload,
    ensures
        normalized_event(event, service_id, instance_id, unique, now, correlation_id)
            == normalized_event(forged, service_id, instance_id, unique, now, correlation_id),
{
}

proof fn settling_keeps_internal_subscribers(
    bus: BusModel,
    keys: Seq<Seq<char>>,
    outcomes: Seq<bool>,
)
    ensures
        bus.settled(keys, outcomes).internal_subscribers == bus.internal_subscribers,
    decreases keys.len(),
{
    if keys.len() > 0 {
        settling_keeps_internal_subscribers(bus, keys.drop_last(), outcomes.drop_last());
    }
}

/// What is published on the reply topic of a pending request is handed to where
/// its reply is awaited, whoever publishes it.
pub proof fn replies_reach_who_waits(
    pending: PendingForward,
    before: BusModel,
    after: BusModel,
    request: EventModel,
    target: Seq<char>,
    timeout_ms: Option<u64>,
    exclude_key: Seq<char>,
    reply: EventModel,
    publication: Publication,
    replier: Seq<char>,
)
    requires
        is_pending(pending, before, after, request, target, timeout_ms, exclude_key),
        reply.topic == reply_topic(request.event_id),
        publication.hands_out(after, reply, replier),
    ensures
        publication.internal is Some,
        (publication.internal->0).channel() == pending.replies.fed_by(),
        (publication.internal->0).value()@ == reply,
{
    let open = awaiting(before, request.event_id, pending.replies.fed_by());
    settling_keeps_internal_subscribers(
        open,
        keys_of_subscribers(pending.publication.subscribers@),
        outcomes_of(pending.publication.receipts@),
    );
}

/// A forward request that has ended leaves no reply topic behind.
pub proof fn ended_forward_leaves_no_reply_topic(
    bus: BusModel,
    request_id: Seq<char>,
    tx: UnboundedSender<ServiceBusEventEnvelope>,
)
    requires
        !bus.internal_subscribers.contains_key(reply_topic(request_id)),
    ensures
        no_longer_awaiting(awaiting(bus, request_id, tx), request_id).internal_subscribers
            == bus.internal_subscribers,
        no_longer_awaiting(awaiting(bus, request_id, tx), request_id).connections
            == bus.connections,
{
    assert(no_longer_awaiting(awaiting(bus, request_id, tx), request_id).internal_subscribers
        =~= bus.internal_subscribers);
}

/// Replies to different requests come back on different topics.
pub proof fn replies_do_not_mix(a: Seq<char>, b: Seq<char>)
    requires
        reply_topic(a) == reply_topic(b),
    ensures
        a == b,
{
    let n = "reply-to-"@.len() as int;
    assert(reply_topic(a).skip(n) =~= a);
    assert(reply_topic(b).skip(n) =~= b);
}

} // verus!
