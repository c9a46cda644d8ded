//! The connections of the service bus and what is delivered to them.

use crate::service_bus::contracts::{
    connection_key, event_reply, reserved_connection, EventModel, ServiceBusEventEnvelope,
    ServiceBusProtocolMessage, BASILISK_INSTANCE_ID, BASILISK_SERVICE_ID,
};
use crate::service_bus::delivery::{open_channel, send_to, Inbox, Receipt};
use crate::string_map::Duplicate;
use crate::table::Table;
use crate::text::{list_holds, same_text, texts};
use tokio::sync::mpsc::{UnboundedReceiver, UnboundedSender};
use vstd::prelude::*;

verus! {

/// `UnboundedSender::clone`: another sender that feeds the same channel.
#[verifier::external_body]
fn another_sender<T>(tx: &UnboundedSender<T>) -> (copy: UnboundedSender<T>)
    ensures
        copy == *tx,
{
    tx.clone()
}

/// Active service-bus connection metadata tracked by the broker.
pub struct ServiceBusConnection {
    pub service_id: String,
    pub instance_id: String,
    pub tx: UnboundedSender<ServiceBusProtocolMessage>,
    pub authenticated: bool,
    pub subscriptions: Vec<String>,
}

/// What a connection holds.
pub struct ConnectionModel {
    pub service_id: Seq<char>,
    pub instance_id: Seq<char>,
    pub tx: UnboundedSender<ServiceBusProtocolMessage>,
    pub authenticated: bool,
    pub subscriptions: Seq<Seq<char>>,
}

impl View for ServiceBusConnection {
    type V = ConnectionModel;

    open spec fn view(&self) -> ConnectionModel {
        ConnectionModel {
            service_id: self.service_id@,
            instance_id: self.instance_id@,
            tx: self.tx,
            authenticated: self.authenticated,
            subscriptions: texts(self.subscriptions@),
        }
    }
}

/// A channel that is subscribed to a topic from inside the gateway.
pub struct InternalSubscriber {
    pub tx: UnboundedSender<ServiceBusEventEnvelope>,
}

impl View for InternalSubscriber {
    type V = UnboundedSender<ServiceBusEventEnvelope>;

    open spec fn view(&self) -> UnboundedSender<ServiceBusEventEnvelope> {
        self.tx
    }
}

/// A subscriber of a topic: the key of its connection and its channel.
pub struct Subscriber {
    pub key: String,
    pub tx: UnboundedSender<ServiceBusProtocolMessage>,
}

/// What the connection manager knows.
pub struct BusModel {
    pub connections: Map<Seq<char>, ConnectionModel>,
    pub next_correlation_id: i64,
    pub internal_subscribers: Map<Seq<char>, UnboundedSender<ServiceBusEventEnvelope>>,
    /// The receiving end of the reserved connection.
    pub outlet: UnboundedReceiver<ServiceBusProtocolMessage>,
}

/// `list` with those of `more` appended, one after the other, that it does not hold.
pub open spec fn joined_topics(list: Seq<Seq<char>>, more: Seq<Seq<char>>) -> Seq<Seq<char>>
    decreases more.len(),
{
    if more.len() == 0 {
        list
    } else {
        let before = joined_topics(list, more.drop_last());
        if before.contains(more.last()) {
            before
        } else {
            before.push(more.last())
        }
    }
}

/// The number of deliveries that succeeded.
pub open spec fn successes(outcomes: Seq<bool>) -> int
    decreases outcomes.len(),
{
    if outcomes.len() == 0 {
        0
    } else {
        successes(outcomes.drop_last()) + (if outcomes.last() {
            1int
        } else {
            0
        })
    }
}

/// Whether a connection is authenticated and subscribed to a topic.
pub open spec fn listens(connection: ConnectionModel, topic: Seq<char>) -> bool {
    connection.authenticated && connection.subscriptions.contains(topic)
}

/// The correlation id after a given one; the largest is followed by the smallest.
pub open spec fn id_after(id: i64) -> i64 {
    if id == i64::MAX {
        i64::MIN
    } else {
        (id + 1) as i64
    }
}

impl BusModel {
    /// The keys of the authenticated subscribers of a topic, but for one key.
    pub open spec fn subscribers(self, topic: Seq<char>, exclude_key: Seq<char>) -> Set<Seq<char>> {
        Set::new(
            |k: Seq<char>|
                self.connections.contains_key(k) && k != exclude_key && listens(
                    self.connections[k],
                    topic,
                ),
        )
    }

    /// Whether a connection is known and authenticated.
    pub open spec fn authenticated(self, key: Seq<char>) -> bool {
        self.connections.contains_key(key) && self.connections[key].authenticated
    }

    /// The bus with another connection in place of the one of a key.
    pub open spec fn with_connection(self, key: Seq<char>, connection: ConnectionModel) -> BusModel {
        BusModel { connections: self.connections.insert(key, connection), ..self }
    }

    /// The bus without a connection; that of the reserved identity stays.
    pub open spec fn disconnected(self, key: Seq<char>) -> BusModel {
        if key == reserved_connection() {
            self
        } else {
            BusModel { connections: self.connections.remove(key), ..self }
        }
    }

    /// The bus with topics added to the subscriptions of a connection.
    pub open spec fn subscribed(self, key: Seq<char>, topics: Seq<Seq<char>>) -> BusModel {
        if self.connections.contains_key(key) {
            let connection = self.connections[key];
            self.with_connection(
                key,
                ConnectionModel {
                    subscriptions: joined_topics(connection.subscriptions, topics),
                    ..connection
                },
            )
        } else {
            self
        }
    }

    /// The bus with topics taken from the subscriptions of a connection.
    pub open spec fn unsubscribed(self, key: Seq<char>, topics: Seq<Seq<char>>) -> BusModel {
        if self.connections.contains_key(key) {
            let connection = self.connections[key];
            self.with_connection(
                key,
                ConnectionModel {
                    subscriptions: connection.subscriptions.filter(
                        |t: Seq<char>| !topics.contains(t),
                    ),
                    ..connection
                },
            )
        } else {
            self
        }
    }

    /// The bus after deliveries to the connections of some keys: those to which
    /// the delivery failed are dropped.
    pub open spec fn settled(self, keys: Seq<Seq<char>>, outcomes: Seq<bool>) -> BusModel
        decreases keys.len(),
    {
        if keys.len() == 0 {
            self
        } else {
            let before = self.settled(keys.drop_last(), outcomes.drop_last());
            if outcomes.last() {
                before
            } else {
                before.disconnected(keys.last())
            }
        }
    }
}

/// In-memory connection and subscription registry for service-bus clients.
pub struct ConnectionManager {
    connections: Table<ServiceBusConnection>,
    next_correlation_id: i64,
    internal_subscribers: Table<InternalSubscriber>,
    /// The receiving end of the reserved connection, for the Lua runtime.
    pub internal_rx: UnboundedReceiver<ServiceBusProtocolMessage>,
}

impl View for ConnectionManager {
    type V = BusModel;

    closed spec fn view(&self) -> BusModel {
        BusModel {
            connections: self.connections@,
            next_correlation_id: self.next_correlation_id,
            internal_subscribers: self.internal_subscribers@,
            outlet: self.internal_rx,
        }
    }
}

/// Connection key for the built-in reserved identity.
pub fn basilisk_connection_key() -> (key: String)
    ensures
        key@ == reserved_connection(),
{
    connection_key(BASILISK_SERVICE_ID, BASILISK_INSTANCE_ID)
}

impl ConnectionManager {
    /// The tables are in order, and there are fewer connections than an `i32`
    /// counts, one internal subscriber included.
    pub closed spec fn wf(&self) -> bool {
        &&& self.connections.wf()
        &&& self.internal_subscribers.wf()
        &&& self.connections@.dom().finite()
        &&& self.connections@.dom().len() < i32::MAX
    }

    /// How many connections a well-formed manager can have.
    pub proof fn wf_bounds_connections(&self)
        requires
            self.wf(),
        ensures
            self@.connections.dom().finite(),
            self@.connections.dom().len() < i32::MAX,
    {
    }

    /// Creates an empty manager and seeds the reserved basilisk identity as already
    /// connected and authenticated.
    pub fn new() -> (manager: Self)
        ensures
            manager.wf(),
            manager@.next_correlation_id == 1,
            manager@.internal_subscribers.dom() == Set::<Seq<char>>::empty(),
            manager@.connections.dom() == set![reserved_connection()],
            manager@.authenticated(reserved_connection()),
            manager@.connections[reserved_connection()].service_id == BASILISK_SERVICE_ID@,
            manager@.connections[reserved_connection()].instance_id == BASILISK_INSTANCE_ID@,
            manager@.connections[reserved_connection()].subscriptions.len() == 0,
            exists|inbox: Inbox<ServiceBusProtocolMessage>| #[trigger]
                inbox.fed_by() == manager@.connections[reserved_connection()].tx && inbox.receiver()
                    == manager@.outlet,
    {
        let (internal_tx, inbox) = open_channel();
        let mut connections: Table<ServiceBusConnection> = Table::new();
        connections.insert(
            basilisk_connection_key(),
            ServiceBusConnection {
                service_id: BASILISK_SERVICE_ID.to_owned(),
                instance_id: BASILISK_INSTANCE_ID.to_owned(),
                tx: internal_tx,
                authenticated: true,
                subscriptions: Vec::new(),
            },
        );
        proof {
            assert(connections@.dom() =~= set![reserved_connection()]);
        }
        let ghost opened = inbox;
        let manager = ConnectionManager {
            connections,
            next_correlation_id: 1,
            internal_subscribers: Table::new(),
            internal_rx: inbox.into_receiver(),
        };
        proof {
            assert(opened.fed_by() == manager@.connections[reserved_connection()].tx);
        }
        manager
    }

    /// The number of connections.
    pub fn connection_count(&self) -> (n: usize)
        requires
            self.wf(),
        ensures
            n == self@.connections.dom().len(),
    {
        self.connections.len()
    }

    /// Adds or replaces a connection by key.
    pub fn add_connection(&mut self, key: String, conn: ServiceBusConnection)
        requires
            old(self).wf(),
            old(self)@.connections.dom().len() + 1 < i32::MAX,
        ensures
            final(self).wf(),
            final(self)@ == old(self)@.with_connection(key@, conn@),
    {
        self.connections.insert(key, conn);
    }

    /// Removes a connection and its subscriptions.
    pub fn remove_connection(&mut self, key: &str)
        requires
            old(self).wf(),
        ensures
            final(self).wf(),
            final(self)@ == old(self)@.disconnected(key@),
    {
        // Never remove the reserved basilisk identity.
        if same_text(key, basilisk_connection_key().as_str()) {
            return;
        }
        self.connections.remove(key);
    }

    /// Marks a connection as authenticated.
    pub fn authenticate(&mut self, key: &str)
        requires
            old(self).wf(),
        ensures
            final(self).wf(),
            final(self)@ == (if old(self)@.connections.contains_key(key@) {
                old(self)@.with_connection(
                    key@,
                    (ConnectionModel { authenticated: true, ..old(self)@.connections[key@] }),
                )
            } else {
                old(self)@
            }),
    {
        let ghost before = self@;
        if let Some(mut conn) = self.connections.remove(key) {
            conn.authenticated = true;
            self.connections.insert(key.to_owned(), conn);
            proof {
                assert(self@.connections =~= before.connections.insert(key@, conn@));
                assert(self@.connections.dom() =~= before.connections.dom());
            }
        } else {
            proof {
                assert(self@.connections =~= before.connections);
            }
        }
    }

    /// Adds topic subscriptions to a connection.
    pub fn add_subscriptions(&mut self, key: &str, topics: Vec<String>)
        requires
            old(self).wf(),
        ensures
            final(self).wf(),
            final(self)@ == old(self)@.subscribed(key@, texts(topics@)),
    {
        let ghost before = self@;
        if let Some(mut conn) = self.connections.remove(key) {
            let ghost held = texts(conn.subscriptions@);
            let ghost asked = texts(topics@);
            let mut i: usize = 0;
            while i < topics.len()
                invariant
                    i <= topics@.len(),
                    asked == texts(topics@),
                    conn.service_id@ == before.connections[key@].service_id,
                    conn.instance_id@ == before.connections[key@].instance_id,
                    conn.tx == before.connections[key@].tx,
                    conn.authenticated == before.connections[key@].authenticated,
                    texts(conn.subscriptions@) == joined_topics(held, asked.take(i as int)),
                decreases topics@.len() - i,
            {
                let ghost so_far = conn.subscriptions@;
                proof {
                    assert(asked.take(i + 1).drop_last() =~= asked.take(i as int));
                    assert(asked.take(i + 1).last() == topics@[i as int]@);
                }
                if !list_holds(&conn.subscriptions, topics[i].as_str()) {
                    conn.subscriptions.push(topics[i].clone());
                    proof {
                        assert(texts(conn.subscriptions@) =~= texts(so_far).push(
                            topics@[i as int]@,
                        ));
                    }
                }
                i += 1;
            }
            proof {
                assert(asked.take(asked.len() as int) =~= asked);
            }
            let ghost after = conn@;
            self.connections.insert(key.to_owned(), conn);
            proof {
                assert(self@.connections =~= before.connections.insert(key@, after));
                assert(self@.connections.dom() =~= before.connections.dom());
            }
        } else {
            proof {
                assert(self@.connections =~= before.connections);
            }
        }
    }

    /// Removes topic subscriptions from a connection.
    pub fn remove_subscriptions(&mut self, key: &str, topics: Vec<String>)
        requires
            old(self).wf(),
        ensures
            final(self).wf(),
            final(self)@ == old(self)@.unsubscribed(key@, texts(topics@)),
    {
        let ghost before = self@;
        if let Some(conn) = self.connections.remove(key) {
            let ghost held = texts(conn.subscriptions@);
            let ghost dropped = texts(topics@);
            let ghost keeps = |t: Seq<char>| !dropped.contains(t);
            let mut kept: Vec<String> = Vec::new();
            let mut i: usize = 0;
            proof {
                reveal(Seq::filter);
                assert(held.take(0) =~= Seq::<Seq<char>>::empty());
                assert(texts(kept@) =~= held.take(0).filter(keeps));
            }
            while i < conn.subscriptions.len()
                invariant
                    i <= conn.subscriptions@.len(),
                    held == texts(conn.subscriptions@),
                    dropped == texts(topics@),
                    keeps == (|t: Seq<char>| !dropped.contains(t)),
                    texts(kept@) == held.take(i as int).filter(keeps),
                decreases conn.subscriptions@.len() - i,
            {
                let ghost so_far = kept@;
                proof {
                    reveal(Seq::filter);
                    assert(held.take(i + 1).drop_last() =~= held.take(i as int));
                    assert(held.take(i + 1).last() == conn.subscriptions@[i as int]@);
                }
                if !list_holds(&topics, conn.subscriptions[i].as_str()) {
                    kept.push(conn.subscriptions[i].clone());
                    proof {
                        assert(texts(kept@) =~= texts(so_far).push(conn.subscriptions@[i as int]@));
                    }
                }
                i += 1;
            }
            proof {
                assert(held.take(held.len() as int) =~= held);
            }
            let conn = ServiceBusConnection {
                service_id: conn.service_id,
                instance_id: conn.instance_id,
                tx: conn.tx,
                authenticated: conn.authenticated,
                subscriptions: kept,
            };
            let ghost after = conn@;
            self.connections.insert(key.to_owned(), conn);
            proof {
                assert(self@.connections =~= before.connections.insert(key@, after));
                assert(self@.connections.dom() =~= before.connections.dom());
            }
        } else {
            proof {
                assert(self@.connections =~= before.connections);
            }
        }
    }

    /// Returns authenticated subscribers for a topic, excluding one key: each
    /// once, with the channel of its connection.
    pub fn get_subscribers(&self, topic: &str, exclude_key: &str) -> (found: Vec<Subscriber>)
        requires
            self.wf(),
        ensures
            keys_of_subscribers(found@).no_duplicates(),
            keys_of_subscribers(found@).to_set() == self@.subscribers(topic@, exclude_key@),
            forall|i: int|
                0 <= i < found@.len() ==> (#[trigger] found@[i]).tx
                    == self@.connections[found@[i].key@].tx,
            found@.len() < i32::MAX,
    {
        let mut found: Vec<Subscriber> = Vec::new();
        let n = self.connections.len();
        let ghost order = self.connections.order();
        let mut i: usize = 0;
        while i < n
            invariant
                self.wf(),
                order == self.connections.order(),
                order.no_duplicates(),
                order.to_set() == self@.connections.dom(),
                i <= n == order.len(),
                found@.len() <= i,
                keys_of_subscribers(found@).no_duplicates(),
                forall|k: Seq<char>| #[trigger]
                    keys_of_subscribers(found@).contains(k) <==> order.take(i as int).contains(k) && k
                        != exclude_key@ && listens(self@.connections[k], topic@),
                forall|j: int|
                    0 <= j < found@.len() ==> (#[trigger] found@[j]).tx
                        == self@.connections[found@[j].key@].tx,
            decreases n - i,
        {
            let key = self.connections.key_at(i);
            let conn = self.connections.value_at(i);
            let ghost before = found@;
            let ghost mut added = false;
            proof {
                assert(order.to_set().contains(order[i as int]));
            }
            if !same_text(key.as_str(), exclude_key) && conn.authenticated && list_holds(
                &conn.subscriptions,
                topic,
            ) {
                found.push(Subscriber { key: key.clone(), tx: another_sender(&conn.tx) });
                proof {
                    added = true;
                }
            }
            i += 1;
            proof {
                let k = order[i - 1];
                let done = order.take(i as int);
                let older = keys_of_subscribers(before);
                let newer = keys_of_subscribers(found@);
                assert(done =~= order.take(i - 1).push(k));
                if order.take(i - 1).contains(k) {
                    let j = order.take(i - 1).index_of(k);
                    assert(order[j] == order[i - 1]);
                }
                if added {
                    assert(newer =~= older.push(k));
                    assert(!older.contains(k));
                }
                assert forall|x: Seq<char>| #[trigger] newer.contains(x) <==> done.contains(x) && x
                    != exclude_key@ && listens(self@.connections[x], topic@) by {
                    assert(newer.contains(x) == (older.contains(x) || (added && x == k))) by {
                        if added {
                            if older.contains(x) {
                                let j = older.index_of(x);
                                assert(newer[j] == x);
                            }
                            assert(newer[older.len() as int] == k);
                        }
                    }
                    assert(done.contains(x) == (order.take(i - 1).contains(x) || x == k)) by {
                        if order.take(i - 1).contains(x) {
                            let j = order.take(i - 1).index_of(x);
                            assert(done[j] == x);
                        }
                        assert(done[i - 1] == k);
                    }
                }
            }
        }
        proof {
            assert(order.take(n as int) =~= order);
            assert forall|k: Seq<char>| #[trigger] keys_of_subscribers(found@).to_set().contains(k)
                == self@.subscribers(topic@, exclude_key@).contains(k) by {
                assert(order.to_set().contains(k) == order.contains(k));
            }
            assert(keys_of_subscribers(found@).to_set() =~= self@.subscribers(
                topic@,
                exclude_key@,
            ));
        }
        found
    }

    /// Returns the next monotonic correlation id.
    pub fn next_correlation_id(&mut self) -> (id: i64)
        requires
            old(self).wf(),
        ensures
            final(self).wf(),
            id == old(self)@.next_correlation_id,
            final(self)@ == (BusModel {
                next_correlation_id: id_after(old(self)@.next_correlation_id),
                ..old(self)@
            }),
    {
        let id: i64 = self.next_correlation_id;
        self.next_correlation_id = if id == i64::MAX {
            i64::MIN
        } else {
            id + 1
        };
        id
    }

    /// Returns whether a connection is authenticated.
    pub fn is_authenticated(&self, key: &str) -> (yes: bool)
        requires
            self.wf(),
        ensures
            yes == self@.authenticated(key@),
    {
        match self.connections.get(key) {
            Some(conn) => conn.authenticated,
            None => false,
        }
    }

    /// Returns `(service_id, instance_id)` for a connection key.
    pub fn get_connection_info(&self, key: &str) -> (info: Option<(String, String)>)
        requires
            self.wf(),
        ensures
            info is Some == self@.connections.contains_key(key@),
            info matches Some(ids) ==> ids.0@ == self@.connections[key@].service_id && ids.1@
                == self@.connections[key@].instance_id,
    {
        match self.connections.get(key) {
            Some(conn) => Some((conn.service_id.clone(), conn.instance_id.clone())),
            None => None,
        }
    }

    /// Subscribes an internal channel to a topic.
    pub fn subscribe_internal(&mut self, topic: String, tx: UnboundedSender<ServiceBusEventEnvelope>)
        requires
            old(self).wf(),
        ensures
            final(self).wf(),
            final(self)@ == (BusModel {
                internal_subscribers: old(self)@.internal_subscribers.insert(topic@, tx),
                ..old(self)@
            }),
    {
        self.internal_subscribers.insert(topic, InternalSubscriber { tx });
    }

    /// Unsubscribes an internal channel from a topic.
    pub fn unsubscribe_internal(&mut self, topic: &str)
        requires
            old(self).wf(),
        ensures
            final(self).wf(),
            final(self)@ == (BusModel {
                internal_subscribers: old(self)@.internal_subscribers.remove(topic@),
                ..old(self)@
            }),
    {
        self.internal_subscribers.remove(topic);
    }

    /// Subscribes the reserved basilisk connection to the given topics so that
    /// events published to those topics reach the Lua runtime via `internal_rx`.
    pub fn subscribe_basilisk(&mut self, topics: Vec<String>)
        requires
            old(self).wf(),
        ensures
            final(self).wf(),
            final(self)@ == old(self)@.subscribed(reserved_connection(), texts(topics@)),
    {
        self.add_subscriptions(basilisk_connection_key().as_str(), topics);
    }

    /// Unsubscribes the reserved basilisk connection from the given topics.
    pub fn unsubscribe_basilisk(&mut self, topics: Vec<String>)
        requires
            old(self).wf(),
        ensures
            final(self).wf(),
            final(self)@ == old(self)@.unsubscribed(reserved_connection(), texts(topics@)),
    {
        self.remove_subscriptions(basilisk_connection_key().as_str(), topics);
    }

    /// Takes the outcomes of deliveries: drops the connections to which they
    /// failed, and returns how many succeeded.
    pub fn settle(&mut self, subscribers: &Vec<Subscriber>, outcomes: &Vec<bool>) -> (delivered: i32)
        requires
            old(self).wf(),
            subscribers@.len() == outcomes@.len() < i32::MAX,
        ensures
            final(self).wf(),
            final(self)@ == old(self)@.settled(keys_of_subscribers(subscribers@), outcomes@),
            delivered == successes(outcomes@),
            0 <= delivered <= outcomes@.len(),
    {
        let ghost before = self@;
        let ghost keys = keys_of_subscribers(subscribers@);
        let mut delivered: i32 = 0;
        let mut i: usize = 0;
        proof {
            assert(keys.take(0) =~= Seq::<Seq<char>>::empty());
        }
        while i < outcomes.len()
            invariant
                self.wf(),
                i <= outcomes@.len() == subscribers@.len() < i32::MAX,
                keys == keys_of_subscribers(subscribers@),
                self@ == before.settled(keys.take(i as int), outcomes@.take(i as int)),
                delivered == successes(outcomes@.take(i as int)),
                0 <= delivered <= i,
            decreases outcomes@.len() - i,
        {
            proof {
                assert(keys.take(i + 1).drop_last() =~= keys.take(i as int));
                assert(keys.take(i + 1).last() == subscribers@[i as int].key@);
                assert(outcomes@.take(i + 1).drop_last() =~= outcomes@.take(i as int));
                assert(outcomes@.take(i + 1).last() == outcomes@[i as int]);
            }
            if outcomes[i] {
                delivered += 1;
            } else {
                self.remove_connection(subscribers[i].key.as_str());
            }
            i += 1;
        }
        proof {
            assert(keys.take(keys.len() as int) =~= keys);
            assert(outcomes@.take(outcomes@.len() as int) =~= outcomes@);
        }
        delivered
    }

    /// The message that each subscriber of the topic of an event is sent.
    pub fn delivery(event: &ServiceBusEventEnvelope) -> (message: ServiceBusProtocolMessage)
        ensures
            message.is_reply(event_reply(event@)),
    {
        ServiceBusProtocolMessage::delivering(event.duplicate())
    }

    /// Publishes an event to matching internal and external subscribers, and tells
    /// what was handed to whom.
    ///
    /// The internal subscriber of the topic, if there is one, is sent the event;
    /// each authenticated subscriber, but for the excluded one, is sent the
    /// message that delivers it. Connections to which the delivery failed are
    /// dropped.
    pub fn deliver(&mut self, event: &ServiceBusEventEnvelope, exclude_key: Option<&str>) -> (publication:
        Publication)
        requires
            old(self).wf(),
        ensures
            final(self).wf(),
            publication.hands_out(old(self)@, event@, excluded(exclude_key)),
            final(self)@ == publication.leaves(old(self)@),
    {
        let ghost before = self@;
        let internal = match self.internal_subscribers.get(event.topic.as_str()) {
            Some(subscriber) => Some(send_to(&subscriber.tx, event.duplicate())),
            None => None,
        };
        let exclude = match exclude_key {
            Some(key) => key,
            None => "",
        };
        let subscribers = self.get_subscribers(event.topic.as_str(), exclude);
        let mut receipts: Vec<Receipt<ServiceBusProtocolMessage>> = Vec::new();
        let mut outcomes: Vec<bool> = Vec::new();
        let mut i: usize = 0;
        while i < subscribers.len()
            invariant
                i <= subscribers@.len(),
                receipts@.len() == i,
                forall|j: int|
                    0 <= j < i ==> (#[trigger] receipts@[j]).channel() == subscribers@[j].tx
                        && receipts@[j].value().is_reply(event_reply(event@)),
                outcomes@ == outcomes_of(receipts@),
            decreases subscribers@.len() - i,
        {
            let ghost so_far = receipts@;
            let receipt = send_to(&subscribers[i].tx, Self::delivery(event));
            outcomes.push(receipt.is_accepted());
            receipts.push(receipt);
            i += 1;
            proof {
                assert(outcomes_of(receipts@) =~= outcomes_of(so_far).push(receipt.accepted()));
            }
        }
        let sent: i32 = self.settle(&subscribers, &outcomes);
        let taken = match &internal {
            Some(receipt) => receipt.is_accepted(),
            None => false,
        };
        let delivered: i32 = if taken {
            sent + 1
        } else {
            sent
        };
        Publication { delivered, internal, subscribers, receipts }
    }

    /// Publishes an event to matching internal and external subscribers. Returns how
    /// many of them took it.
    pub fn publish(&mut self, event: &ServiceBusEventEnvelope, exclude_key: Option<&str>) -> (delivered:
        i32)
        requires
            old(self).wf(),
        ensures
            final(self).wf(),
            exists|p: Publication| #[trigger]
                p.hands_out(old(self)@, event@, excluded(exclude_key)) && final(self)@ == p.leaves(
                    old(self)@,
                ) && delivered == p.delivered,
            published_on(
                old(self)@,
                final(self)@,
                event@.topic,
                excluded(exclude_key),
                delivered as int,
            ),
    {
        let ghost before = self@;
        let publication = self.deliver(event, exclude_key);
        proof {
            publication.is_published(before, event@, excluded(exclude_key));
        }
        publication.delivered
    }
}

/// What became of publishing an event.
pub struct Publication {
    /// How many channels took it.
    pub delivered: i32,
    /// What was handed to the internal subscriber of the topic, if there is one.
    pub internal: Option<Receipt<ServiceBusEventEnvelope>>,
    /// The subscribers of the topic on the bus.
    pub subscribers: Vec<Subscriber>,
    /// What was handed to each of them.
    pub receipts: Vec<Receipt<ServiceBusProtocolMessage>>,
}

/// Which of some channels took what they were handed.
pub open spec fn outcomes_of(receipts: Seq<Receipt<ServiceBusProtocolMessage>>) -> Seq<bool> {
    receipts.map_values(|r: Receipt<ServiceBusProtocolMessage>| r.accepted())
}

impl Publication {
    /// Whether an internal subscriber took the event.
    pub open spec fn taken_inside(self) -> bool {
        self.internal matches Some(receipt) && receipt.accepted()
    }

    /// Whether an event was handed to exactly those that are to have it: to the
    /// internal subscriber of its topic, and in a message to each authenticated
    /// subscriber on the bus, but for the excluded one.
    pub open spec fn hands_out(self, bus: BusModel, event: EventModel, exclude_key: Seq<char>) -> bool {
        let keys = keys_of_subscribers(self.subscribers@);
        &&& keys.no_duplicates()
        &&& keys.to_set() == bus.subscribers(event.topic, exclude_key)
        &&& self.receipts@.len() == keys.len()
        &&& forall|i: int|
            0 <= i < keys.len() ==> (#[trigger] self.receipts@[i]).channel()
                == bus.connections[keys[i]].tx && self.receipts@[i].value().is_reply(
                event_reply(event),
            )
        &&& self.internal is Some == bus.internal_subscribers.contains_key(event.topic)
        &&& self.internal matches Some(receipt) ==> receipt.channel()
            == bus.internal_subscribers[event.topic] && receipt.value()@ == event
        &&& self.delivered == successes(outcomes_of(self.receipts@)) + published(
            self.taken_inside(),
        )
    }

    /// The bus after the publication: the connections that did not take the event
    /// are dropped.
    pub open spec fn leaves(self, bus: BusModel) -> BusModel {
        bus.settled(keys_of_subscribers(self.subscribers@), outcomes_of(self.receipts@))
    }

    /// Handing an event out is publishing it on its topic.
    pub proof fn is_published(self, bus: BusModel, event: EventModel, exclude_key: Seq<char>)
        requires
            self.hands_out(bus, event, exclude_key),
        ensures
            published_on(
                bus,
                self.leaves(bus),
                event.topic,
                exclude_key,
                self.delivered as int,
            ),
    {
        let keys = keys_of_subscribers(self.subscribers@);
        let outcomes = outcomes_of(self.receipts@);
        let internal = self.taken_inside();
        assert(self.leaves(bus) == bus.settled(keys, outcomes));
        assert(self.delivered == successes(outcomes) + published(internal));
    }
}

/// Whether publishing on a topic can have led from one bus to another, with a
/// number of deliveries: some order of the subscribers, and an outcome for each.
pub open spec fn published_on(
    before: BusModel,
    after: BusModel,
    topic: Seq<char>,
    exclude_key: Seq<char>,
    delivered: int,
) -> bool {
    exists|keys: Seq<Seq<char>>, outcomes: Seq<bool>, internal: bool|
        #![trigger before.settled(keys, outcomes), published(internal)]
        keys.no_duplicates() && keys.to_set() == before.subscribers(topic, exclude_key)
            && outcomes.len() == keys.len() && (internal
            ==> before.internal_subscribers.contains_key(topic)) && delivered == successes(outcomes)
            + published(internal) && after == before.settled(keys, outcomes)
}

/// The keys of a list of subscribers.
pub open spec fn keys_of_subscribers(list: Seq<Subscriber>) -> Seq<Seq<char>> {
    list.map_values(|s: Subscriber| s.key@)
}

/// The key that an optional exclusion excludes.
pub open spec fn excluded(exclude_key: Option<&str>) -> Seq<char> {
    match exclude_key {
        Some(key) => key@,
        None => ""@,
    }
}

/// How many deliveries the internal one counts for.
pub open spec fn published(internal: bool) -> int {
    if internal {
        1
    } else {
        0
    }
}

} // verus!
