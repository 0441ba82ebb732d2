//! The connection registry of the broadcast server.
//!
//! The registry maps connection identifiers to connection states. It hands
//! out the identifiers, routes the events of one connection to that
//! connection alone, fans a broadcast out to every open connection and
//! forgets connections once they are closed. The caller keeps the sockets
//! under the same identifiers and performs what the steps ask for.

use crate::connection::{
    broadcast_in, lemma_broadcasts_leave_in_order, CodecFailure, CodecOutcome, Connection,
    ConnectionEvent, ConnectionModel, Phase, ReadStep, SendStep,
};
use crate::outbox::{text_of, Message};
use crate::transport::{IoFailure, WriteState};
use std::collections::HashMap;
use std::sync::Arc;
use vstd::prelude::*;
use vstd::std_specs::iter::IteratorSpec;

verus! {

broadcast use vstd::std_specs::hash::group_hash_axioms;

/// The identifier reserved for the listening socket.
pub const LISTENER: usize = 0;

/// The identifier reserved for the receiver of the broadcast channel.
pub const BROADCAST: usize = 1;

/// What an identifier in a readiness event stands for.
#[derive(Clone, Copy, Debug, PartialEq, Eq, Structural)]
pub enum Source {
    /// The listening socket.
    Listener,
    /// The receiver of the broadcast channel.
    Broadcast,
    /// An accepted connection.
    Connection(usize),
}

/// The source that `token` stands for.
pub open spec fn source_model(token: usize) -> Source {
    if token == LISTENER {
        Source::Listener
    } else if token == BROADCAST {
        Source::Broadcast
    } else {
        Source::Connection(token)
    }
}

/// Tells the two reserved identifiers from those of connections.
pub fn source_of(token: usize) -> (source: Source)
    ensures
        source == source_model(token),
{
    if token == LISTENER {
        Source::Listener
    } else if token == BROADCAST {
        Source::Broadcast
    } else {
        Source::Connection(token)
    }
}

/// What the listener returned for one accept.
#[derive(Clone, Copy, Debug, PartialEq, Eq, Structural)]
pub enum AcceptOutcome {
    /// A connection was accepted.
    Accepted,
    /// The accept failed.
    Failed(IoFailure),
}

/// What the caller does after reporting an accept.
#[derive(Clone, Copy, Debug, PartialEq, Eq, Structural)]
pub enum AcceptStep {
    /// Register the new transport under this identifier for read and write
    /// interest, adopt it if that worked, and accept again.
    Register(usize),
    /// No connection is waiting: stop until the listener is readable again.
    Stop,
    /// The listener is broken, or the identifiers are used up: the server
    /// cannot go on.
    Fatal,
}

/// What the caller does with a connection that became readable.
#[derive(Clone, Copy, Debug, PartialEq, Eq, Structural)]
pub enum ReadPlan {
    /// Run the websocket handshake and report its result.
    Handshake,
    /// Decode frames and report each result.
    Decode,
    /// Nothing: the identifier is unknown or the connection is closed.
    Ignore,
}

/// A message that the caller hands to the codec of one connection.
#[derive(Debug)]
pub struct Delivery {
    pub id: usize,
    pub message: Message,
}

/// The identifiers of a sequence of deliveries, in order.
pub open spec fn delivery_ids(deliveries: Seq<Delivery>) -> Seq<usize> {
    deliveries.map_values(|d: Delivery| d.id)
}

/// Mathematical model of a [`Registry`]: the last identifier handed out and
/// the state of every connection by its identifier.
pub struct RegistryModel {
    pub last: usize,
    pub connections: Map<usize, ConnectionModel>,
}

impl RegistryModel {
    /// Every identifier in use lies above the reserved ones and was handed
    /// out by the counter.
    pub open spec fn wf(self) -> bool {
        &&& BROADCAST <= self.last
        &&& self.connections.dom().finite()
        &&& forall|id: usize| #[trigger]
            self.connections.contains_key(id) ==> BROADCAST < id <= self.last
    }

    /// The registry of a server that has accepted nothing yet.
    pub open spec fn empty() -> RegistryModel {
        RegistryModel { last: BROADCAST, connections: Map::empty() }
    }

    /// The model in which connection `id`, if present, is replaced by `next`.
    pub open spec fn with(self, id: usize, next: ConnectionModel) -> RegistryModel {
        if self.connections.contains_key(id) {
            RegistryModel { connections: self.connections.insert(id, next), ..self }
        } else {
            self
        }
    }

    /// The state of connection `id`, or `Closed` for an identifier that the
    /// registry does not hold: no event does anything to either.
    pub open spec fn state(self, id: usize) -> ConnectionModel {
        if self.connections.contains_key(id) {
            self.connections[id]
        } else {
            ConnectionModel::Closed
        }
    }

    /// The registry after `id` was adopted as an `Upgrading` connection.
    /// Only an identifier that the counter has handed out and that is not
    /// in use is adopted.
    pub open spec fn adoptable(self, id: usize) -> bool {
        BROADCAST < id <= self.last && !self.connections.contains_key(id)
    }

    /// What a readable event on `id` calls for.
    pub open spec fn read_plan(self, id: usize) -> ReadPlan {
        match self.state(id) {
            ConnectionModel::Upgrading => ReadPlan::Handshake,
            ConnectionModel::Open(_) => ReadPlan::Decode,
            ConnectionModel::Closed => ReadPlan::Ignore,
        }
    }

    /// The step after the handshake of `id` was reported.
    pub open spec fn handshake_step(self, id: usize, accepted: bool) -> ReadStep {
        if self.state(id) is Upgrading {
            if accepted {
                ReadStep::Again
            } else {
                ReadStep::Closed { report: true }
            }
        } else {
            ReadStep::Wait
        }
    }

    /// The registry after `text` was broadcast: every connection takes it as
    /// [`ConnectionModel::sent_text`] says.
    pub open spec fn broadcast(self, text: Seq<char>) -> RegistryModel {
        RegistryModel {
            connections: self.connections.map_values(
                |c: ConnectionModel| c.sent_text(text).0,
            ),
            ..self
        }
    }

    /// The text that a broadcast of `text` hands to the codec of `id` at
    /// once, if any.
    pub open spec fn broadcast_hand_off(self, id: usize, text: Seq<char>) -> Option<Seq<char>> {
        self.state(id).sent_text(text).1
    }

    /// The identifiers of the closed connections.
    pub open spec fn closed_ids(self) -> Set<usize> {
        Set::new(|id: usize| self.connections.contains_key(id) && self.connections[id] is Closed)
    }

    /// The registry without its closed connections.
    pub open spec fn swept(self) -> RegistryModel {
        RegistryModel { connections: self.connections.remove_keys(self.closed_ids()), ..self }
    }
}

/// An event that the registry is given, as far as it changes connections
/// that are held: a broadcast to all of them, or an event of one of them.
pub enum RegistryEvent {
    /// A text was broadcast.
    Broadcast(Seq<char>),
    /// The handshake of a connection ended.
    Handshake(usize, bool),
    /// The transport of a connection became writable.
    Writable(usize),
    /// The codec of a connection reported a decode.
    Decoded(usize, CodecOutcome),
    /// The codec of a connection reported a send.
    Sent(usize, CodecOutcome),
}

impl RegistryEvent {
    /// What the event is to connection `id`: a broadcast is a text to every
    /// connection, any other event concerns the connection it names.
    pub open spec fn at(self, id: usize) -> Option<ConnectionEvent> {
        match self {
            RegistryEvent::Broadcast(text) => Some(ConnectionEvent::Text(text)),
            RegistryEvent::Handshake(other, accepted) => if other == id {
                Some(ConnectionEvent::Handshake(accepted))
            } else {
                None
            },
            RegistryEvent::Writable(other) => if other == id {
                Some(ConnectionEvent::Writable)
            } else {
                None
            },
            RegistryEvent::Decoded(other, outcome) => if other == id {
                Some(ConnectionEvent::Decoded(outcome))
            } else {
                None
            },
            RegistryEvent::Sent(other, outcome) => if other == id {
                Some(ConnectionEvent::Sent(outcome))
            } else {
                None
            },
        }
    }
}

impl RegistryModel {
    /// The registry after `event`.
    pub open spec fn step(self, event: RegistryEvent) -> RegistryModel {
        match event {
            RegistryEvent::Broadcast(text) => self.broadcast(text),
            RegistryEvent::Handshake(id, accepted) => self.with(
                id,
                self.state(id).upgraded(accepted),
            ),
            RegistryEvent::Writable(id) => self.with(id, self.state(id).writable_event().0),
            RegistryEvent::Decoded(id, outcome) => self.with(
                id,
                self.state(id).decoded(outcome).0,
            ),
            RegistryEvent::Sent(id, outcome) => self.with(id, self.state(id).sent(outcome).0),
        }
    }

    /// The text that `event` hands to the codec of `id`, if any.
    pub open spec fn handed_to(self, event: RegistryEvent, id: usize) -> Option<Seq<char>> {
        match event.at(id) {
            Some(at) => self.state(id).step(at).1,
            None => None,
        }
    }

    /// The registry after a run of events.
    pub open spec fn run(self, events: Seq<RegistryEvent>) -> RegistryModel
        decreases events.len(),
    {
        if events.len() == 0 {
            self
        } else {
            self.run(events.drop_last()).step(events.last())
        }
    }

    /// The texts handed to the codec of `id` during a run of events, in
    /// order.
    pub open spec fn handed_to_in(self, events: Seq<RegistryEvent>, id: usize) -> Seq<Seq<char>>
        decreases events.len(),
    {
        if events.len() == 0 {
            Seq::empty()
        } else {
            let earlier = self.handed_to_in(events.drop_last(), id);
            match self.run(events.drop_last()).handed_to(events.last(), id) {
                Some(text) => earlier.push(text),
                None => earlier,
            }
        }
    }
}

/// The events that a run of registry events gives to connection `id`, in
/// order.
pub open spec fn events_of(events: Seq<RegistryEvent>, id: usize) -> Seq<ConnectionEvent>
    decreases events.len(),
{
    if events.len() == 0 {
        Seq::empty()
    } else {
        let earlier = events_of(events.drop_last(), id);
        match events.last().at(id) {
            Some(at) => earlier.push(at),
            None => earlier,
        }
    }
}

/// The texts broadcast during a run of registry events, in order.
pub open spec fn broadcasts(events: Seq<RegistryEvent>) -> Seq<Seq<char>>
    decreases events.len(),
{
    if events.len() == 0 {
        Seq::empty()
    } else {
        match events.last() {
            RegistryEvent::Broadcast(text) => broadcasts(events.drop_last()).push(text),
            _ => broadcasts(events.drop_last()),
        }
    }
}

/// A broadcast reaches every open connection and no other: an open
/// connection queues the text or hands it to its codec; a connection that is
/// upgrading or closed stays as it is and is handed nothing.
pub proof fn lemma_broadcast_reaches_the_open(registry: RegistryModel, text: Seq<char>, id: usize)
    requires
        registry.connections.contains_key(id),
    ensures
        registry.broadcast(text).connections.contains_key(id),
        registry.broadcast(text).connections[id] == registry.connections[id].sent_text(text).0,
        registry.connections[id] is Open ==> registry.broadcast(text).connections[id] is Open && (
        match registry.broadcast_hand_off(id, text) {
            Some(handed) => seq![handed],
            None => Seq::empty(),
        }) + registry.broadcast(text).connections[id].queue()
            == registry.connections[id].queue().push(text),
        !(registry.connections[id] is Open) ==> registry.broadcast(text).connections[id]
            == registry.connections[id] && registry.broadcast_hand_off(id, text) is None,
{
    let connection = registry.connections[id];
    if connection is Open {
        let out = match registry.broadcast_hand_off(id, text) {
            Some(handed) => seq![handed],
            None => Seq::empty(),
        };
    }
}

/// A run of registry events does to each connection what its own events do
/// to it, whatever happens to the other connections.
pub proof fn lemma_run_connection_by_connection(
    registry: RegistryModel,
    events: Seq<RegistryEvent>,
    id: usize,
)
    requires
        registry.connections.contains_key(id),
    ensures
        registry.run(events).connections.contains_key(id),
        registry.run(events).connections[id] == registry.connections[id].run(
            events_of(events, id),
        ),
        registry.handed_to_in(events, id) == registry.connections[id].handed_in(
            events_of(events, id),
        ),
        broadcast_in(events_of(events, id)) == broadcasts(events),
    decreases events.len(),
{
    if events.len() > 0 {
        let earlier = events.drop_last();
        lemma_run_connection_by_connection(registry, earlier, id);
        if events.last().at(id) is Some {
            assert(events_of(events, id).drop_last() =~= events_of(earlier, id));
        }
    }
}

/// Every text that is broadcast while a connection is open reaches that
/// connection once and in the order of the broadcasts, whatever the number
/// of connections and whatever happens to the others: what was handed to its
/// codec followed by what it still queues is what it queued at first
/// followed by the broadcast texts.
pub proof fn lemma_broadcasts_reach_each_in_order(
    registry: RegistryModel,
    events: Seq<RegistryEvent>,
    id: usize,
)
    requires
        registry.connections.contains_key(id),
        registry.connections[id] is Open,
        registry.run(events).state(id) is Open,
    ensures
        registry.handed_to_in(events, id) + registry.run(events).state(id).queue()
            == registry.connections[id].queue() + broadcasts(events),
{
    lemma_run_connection_by_connection(registry, events, id);
    lemma_broadcasts_leave_in_order(registry.connections[id], events_of(events, id));
}

/// A send that fails for good during a fan-out closes the connection it
/// failed on and no other: once the closed connections are swept, that
/// connection is gone, and every other connection that was open is still
/// held, open, and has taken the broadcast text.
pub proof fn lemma_failed_send_is_isolated(
    registry: RegistryModel,
    text: Seq<char>,
    failing: usize,
    failure: CodecFailure,
)
    requires
        registry.connections.contains_key(failing),
        registry.connections[failing] is Open,
        failure.class() is PeerClosed || failure.class() is Unhandled,
    ensures
        ({
            let after = registry.broadcast(text).step(
                RegistryEvent::Sent(failing, CodecOutcome::Failed(failure)),
            ).swept();
            &&& !after.connections.contains_key(failing)
            &&& forall|id: usize|
                id != failing && #[trigger] registry.connections.contains_key(id)
                    && registry.connections[id] is Open ==> {
                    &&& after.connections.contains_key(id)
                    &&& after.connections[id] is Open
                    &&& after.connections[id] == registry.connections[id].sent_text(text).0
                }
        }),
{
}

/// The models of a map of connections.
pub open spec fn models(connections: Map<usize, Connection>) -> Map<usize, ConnectionModel> {
    connections.map_values(|c: Connection| c@)
}

/// The connections of the broadcast server by identifier, and the counter
/// that hands the identifiers out.
pub struct Registry {
    last: usize,
    connections: HashMap<usize, Connection>,
}

impl View for Registry {
    type V = RegistryModel;

    closed spec fn view(&self) -> RegistryModel {
        RegistryModel { last: self.last, connections: models(self.connections@) }
    }
}

/// A pushed sequence contains what the sequence contained, and the new item.
proof fn lemma_push_contains<T>(s: Seq<T>, v: T, x: T)
    ensures
        s.push(v).contains(x) <==> s.contains(x) || x == v,
{
    if s.contains(x) {
        let k = choose|k: int| 0 <= k < s.len() && s[k] == x;
        assert(s.push(v)[k] == x);
    }
    if x == v {
        assert(s.push(v)[s.len() as int] == x);
    }
    if s.push(v).contains(x) && x != v {
        let k = choose|k: int| 0 <= k < s.push(v).len() && s.push(v)[k] == x;
        assert(s[k] == x);
    }
}

/// Pushing an item that does not occur keeps a sequence free of duplicates.
proof fn lemma_push_no_duplicates<T>(s: Seq<T>, v: T)
    requires
        s.no_duplicates(),
        !s.contains(v),
    ensures
        s.push(v).no_duplicates(),
{
}

/// The identifiers under which `connections` holds an entry, each once, in
/// the order in which the map walks them.
fn identifiers(connections: &HashMap<usize, Connection>) -> (ids: Vec<usize>)
    ensures
        ids@.no_duplicates(),
        ids@.to_set() == connections@.dom(),
{
    let mut ids: Vec<usize> = Vec::new();
    let ghost keys = connections.keys().remaining().unref();
    for id in walk: connections.keys()
        invariant
            walk.seq().unref() == keys,
            ids@ == keys.take(walk.index()),
    {
        ids.push(*id);
    }
    assert(ids@ =~= keys);
    ids
}

impl Registry {
    #[verifier::type_invariant]
    spec fn inv(self) -> bool {
        self@.wf()
    }

    /// Moves the map of connections out and leaves an empty one behind, so
    /// that it can be changed and then stored again as a whole.
    fn detach(&mut self) -> (connections: HashMap<usize, Connection>)
        ensures
            connections == old(self).connections,
            final(self).last == old(self).last,
            final(self).connections@ == Map::<usize, Connection>::empty(),
    {
        proof {
            use_type_invariant(&*self);
        }
        let mut connections: HashMap<usize, Connection> = HashMap::new();
        assert(models(connections@) =~= Map::empty());
        std::mem::swap(&mut self.connections, &mut connections);
        connections
    }

    /// A registry without connections. The first identifier it hands out is
    /// the one after `BROADCAST`.
    pub fn new() -> (registry: Registry)
        ensures
            registry@ == RegistryModel::empty(),
    {
        let connections: HashMap<usize, Connection> = HashMap::new();
        assert(models(connections@) =~= Map::empty());
        Registry { last: BROADCAST, connections }
    }

    /// The last identifier that was handed out.
    pub fn last(&self) -> (last: usize)
        ensures
            last == self@.last,
            self@.wf(),
    {
        proof {
            use_type_invariant(self);
        }
        self.last
    }

    /// The number of connections held, whatever their state.
    pub fn len(&self) -> (n: usize)
        ensures
            n == self@.connections.len(),
    {
        assert(models(self.connections@).dom() =~= self.connections@.dom());
        self.connections.len()
    }

    /// Whether the registry holds a connection under `id`.
    pub fn contains(&self, id: usize) -> (held: bool)
        ensures
            held == self@.connections.contains_key(id),
    {
        self.connections.contains_key(&id)
    }

    /// The phase of connection `id`, or `None` if the registry holds no such
    /// connection.
    pub fn phase(&self, id: usize) -> (phase: Option<Phase>)
        ensures
            phase == if self@.connections.contains_key(id) {
                Some(self@.connections[id].phase())
            } else {
                None
            },
    {
        match self.connections.get(&id) {
            Some(connection) => Some(connection.phase()),
            None => None,
        }
    }

    /// The number of messages that wait in the queue of connection `id`;
    /// zero unless it is held and open.
    pub fn pending(&self, id: usize) -> (n: usize)
        ensures
            n == self@.state(id).queue().len(),
    {
        match self.connections.get(&id) {
            Some(connection) => connection.pending(),
            None => 0,
        }
    }

    /// The write-readiness flag of connection `id`; `Unwritable` unless it is
    /// held and open.
    pub fn write_state(&self, id: usize) -> (write: WriteState)
        ensures
            write.writable() == self@.state(id).writable(),
    {
        match self.connections.get(&id) {
            Some(connection) => connection.write_state(),
            None => WriteState::Unwritable,
        }
    }

    /// Hands out the next identifier: one more than the last. Returns `None`
    /// and changes nothing when the counter cannot go further.
    pub fn reserve(&mut self) -> (id: Option<usize>)
        ensures
            final(self)@.wf(),
            match id {
                Some(id) => {
                    &&& id == old(self)@.last + 1
                    &&& final(self)@ == (RegistryModel { last: id, ..old(self)@ })
                    &&& !old(self)@.connections.contains_key(id)
                },
                None => old(self)@.last == usize::MAX && final(self)@ == old(self)@,
            },
    {
        proof {
            use_type_invariant(&*self);
        }
        if self.last < usize::MAX {
            self.last = self.last + 1;
            Some(self.last)
        } else {
            None
        }
    }

    /// Takes what the listener returned for one accept. An accepted
    /// connection gets the next identifier; a would-block ends the accept
    /// loop; an interrupted accept is no connection and the loop goes on at
    /// the next readable event; any other failure is fatal for the server.
    pub fn on_accepted(&mut self, outcome: AcceptOutcome) -> (step: AcceptStep)
        ensures
            final(self)@.wf(),
            final(self)@.connections == old(self)@.connections,
            match outcome {
                AcceptOutcome::Accepted => if old(self)@.last < usize::MAX {
                    &&& step == AcceptStep::Register((old(self)@.last + 1) as usize)
                    &&& final(self)@.last == old(self)@.last + 1
                } else {
                    step == AcceptStep::Fatal && final(self)@.last == old(self)@.last
                },
                AcceptOutcome::Failed(IoFailure::WouldBlock) => step == AcceptStep::Stop
                    && final(self)@.last == old(self)@.last,
                AcceptOutcome::Failed(_) => step == AcceptStep::Fatal && final(self)@.last == old(
                    self,
                )@.last,
            },
    {
        match outcome {
            AcceptOutcome::Accepted => match self.reserve() {
                Some(id) => AcceptStep::Register(id),
                None => AcceptStep::Fatal,
            },
            AcceptOutcome::Failed(failure) => {
                proof {
                    use_type_invariant(&*self);
                }
                match failure {
                    IoFailure::WouldBlock => AcceptStep::Stop,
                    _ => AcceptStep::Fatal,
                }
            },
        }
    }

    /// Stores `id` as an `Upgrading` connection, if the counter has handed
    /// it out and it is not in use. Returns whether it was stored.
    pub fn adopt(&mut self, id: usize) -> (adopted: bool)
        ensures
            final(self)@.wf(),
            adopted == old(self)@.adoptable(id),
            final(self)@ == if adopted {
                RegistryModel {
                    connections: old(self)@.connections.insert(id, ConnectionModel::Upgrading),
                    ..old(self)@
                }
            } else {
                old(self)@
            },
    {
        proof {
            use_type_invariant(&*self);
        }
        if BROADCAST < id && id <= self.last && !self.connections.contains_key(&id) {
            let mut connections = self.detach();
            connections.insert(id, Connection::new());
            assert(models(connections@) =~= models(old(self).connections@).insert(
                id,
                ConnectionModel::Upgrading,
            ));
            self.connections = connections;
            true
        } else {
            false
        }
    }

    /// What a readable event on `id` calls for: the handshake of an
    /// `Upgrading` connection, a decode on an `Open` one, nothing otherwise.
    pub fn on_readable(&self, id: usize) -> (plan: ReadPlan)
        ensures
            plan == self@.read_plan(id),
    {
        match self.connections.get(&id) {
            Some(connection) => {
                if connection.is_upgrading() {
                    ReadPlan::Handshake
                } else if connection.is_open() {
                    ReadPlan::Decode
                } else {
                    ReadPlan::Ignore
                }
            },
            None => ReadPlan::Ignore,
        }
    }

    /// Records the result of the handshake of `id`. After a success the
    /// caller decodes at once, since bytes may already wait in the codec;
    /// after a failure the connection is `Closed`.
    pub fn on_handshake(&mut self, id: usize, accepted: bool) -> (step: ReadStep)
        ensures
            final(self)@.wf(),
            final(self)@ == old(self)@.step(RegistryEvent::Handshake(id, accepted)),
            step == old(self)@.handshake_step(id, accepted),
    {
        proof {
            use_type_invariant(&*self);
        }
        let mut connections = self.detach();
        match connections.remove(&id) {
            Some(mut connection) => {
                let step = if !connection.is_upgrading() {
                    ReadStep::Wait
                } else if accepted {
                    ReadStep::Again
                } else {
                    ReadStep::Closed { report: true }
                };
                connection.upgrade(accepted);
                let ghost next = connection@;
                connections.insert(id, connection);
                assert(models(connections@) =~= models(old(self).connections@).insert(id, next));
                self.connections = connections;
                step
            },
            None => {
                assert(models(connections@) =~= models(old(self).connections@));
                self.connections = connections;
                ReadStep::Wait
            },
        }
    }

    /// Takes what the codec of `id` returned for a decode. No other
    /// connection is touched.
    pub fn on_decoded(&mut self, id: usize, outcome: CodecOutcome) -> (step: ReadStep)
        ensures
            final(self)@.wf(),
            final(self)@ == old(self)@.step(RegistryEvent::Decoded(id, outcome)),
            step == old(self)@.state(id).decoded(outcome).1,
    {
        proof {
            use_type_invariant(&*self);
        }
        let mut connections = self.detach();
        match connections.remove(&id) {
            Some(mut connection) => {
                let step = connection.on_decoded(outcome);
                let ghost next = connection@;
                connections.insert(id, connection);
                assert(models(connections@) =~= models(old(self).connections@).insert(id, next));
                self.connections = connections;
                step
            },
            None => {
                assert(models(connections@) =~= models(old(self).connections@));
                self.connections = connections;
                ReadStep::Wait
            },
        }
    }

    /// A writable event on `id`: raises the flag of an `Open` connection and
    /// returns its oldest message for the codec. No other connection is
    /// touched.
    pub fn on_writable(&mut self, id: usize) -> (handed: Option<Message>)
        ensures
            final(self)@.wf(),
            final(self)@ == old(self)@.step(RegistryEvent::Writable(id)),
            text_of(handed) == old(self)@.handed_to(RegistryEvent::Writable(id), id),
    {
        proof {
            use_type_invariant(&*self);
        }
        let mut connections = self.detach();
        match connections.remove(&id) {
            Some(mut connection) => {
                let handed = connection.on_writable();
                let ghost next = connection@;
                connections.insert(id, connection);
                assert(models(connections@) =~= models(old(self).connections@).insert(id, next));
                self.connections = connections;
                handed
            },
            None => {
                assert(models(connections@) =~= models(old(self).connections@));
                self.connections = connections;
                None
            },
        }
    }

    /// Takes what the codec of `id` returned for a send. No other connection
    /// is touched, whatever the outcome.
    pub fn on_sent(&mut self, id: usize, outcome: CodecOutcome) -> (step: SendStep)
        ensures
            final(self)@.wf(),
            final(self)@ == old(self)@.step(RegistryEvent::Sent(id, outcome)),
            step == old(self)@.state(id).sent(outcome).1,
    {
        proof {
            use_type_invariant(&*self);
        }
        let mut connections = self.detach();
        match connections.remove(&id) {
            Some(mut connection) => {
                let step = connection.on_sent(outcome);
                let ghost next = connection@;
                connections.insert(id, connection);
                assert(models(connections@) =~= models(old(self).connections@).insert(id, next));
                self.connections = connections;
                step
            },
            None => {
                assert(models(connections@) =~= models(old(self).connections@));
                self.connections = connections;
                SendStep::Idle
            },
        }
    }

    /// Forgets connection `id` if it is `Closed`. Returns whether it did; the
    /// caller then deregisters and drops the transport.
    pub fn retire(&mut self, id: usize) -> (retired: bool)
        ensures
            final(self)@.wf(),
            retired == old(self)@.closed_ids().contains(id),
            final(self)@ == if retired {
                RegistryModel { connections: old(self)@.connections.remove(id), ..old(self)@ }
            } else {
                old(self)@
            },
    {
        proof {
            use_type_invariant(&*self);
        }
        let closed = match self.connections.get(&id) {
            Some(connection) => connection.is_closed(),
            None => false,
        };
        if closed {
            let mut connections = self.detach();
            connections.remove(&id);
            assert(models(connections@) =~= models(old(self).connections@).remove(id));
            self.connections = connections;
        }
        closed
    }

    /// Fans `message` out: every `Open` connection queues it, and every
    /// `Open` and writable connection gives up its oldest message, which is
    /// returned with the connection's identifier for the caller to hand to
    /// that connection's codec. The allocation of `message` is shared by all
    /// queues. The order of the deliveries is that in which the map is
    /// walked; each identifier occurs at most once.
    pub fn broadcast(&mut self, message: Message) -> (deliveries: Vec<Delivery>)
        ensures
            final(self)@.wf(),
            final(self)@ == old(self)@.step(RegistryEvent::Broadcast(message@)),
            delivery_ids(deliveries@).no_duplicates(),
            forall|id: usize|
                delivery_ids(deliveries@).contains(id) <==> (#[trigger] old(
                    self,
                )@.broadcast_hand_off(id, message@)) is Some,
            forall|k: int|
                0 <= k < deliveries@.len() ==> Some(deliveries@[k].message@) == old(
                    self,
                )@.broadcast_hand_off(#[trigger] deliveries@[k].id, message@),
    {
        proof {
            use_type_invariant(&*self);
        }
        let ids = identifiers(&self.connections);
        let mut connections = self.detach();
        let mut deliveries: Vec<Delivery> = Vec::new();
        let ghost before = old(self)@;
        let ghost text = message@;
        let mut i: usize = 0;
        while i < ids.len()
            invariant
                0 <= i <= ids.len(),
                before == old(self)@,
                before.wf(),
                text == message@,
                ids@.no_duplicates(),
                ids@.to_set() == before.connections.dom(),
                connections@.dom() == before.connections.dom(),
                forall|j: int|
                    0 <= j < i ==> (#[trigger] models(connections@)[ids@[j]])
                        == before.connections[ids@[j]].sent_text(text).0,
                forall|j: int|
                    i <= j < ids.len() ==> (#[trigger] models(connections@)[ids@[j]])
                        == before.connections[ids@[j]],
                delivery_ids(deliveries@).no_duplicates(),
                forall|id: usize|
                    delivery_ids(deliveries@).contains(id) <==> ids@.take(i as int).contains(id) && (
                    #[trigger] before.broadcast_hand_off(id, text)) is Some,
                forall|k: int|
                    0 <= k < deliveries@.len() ==> Some(deliveries@[k].message@)
                        == before.broadcast_hand_off(#[trigger] deliveries@[k].id, text),
            decreases ids.len() - i,
        {
            let id = ids[i];
            let ghost held = connections@;
            let ghost sent = deliveries@;
            proof {
                assert(ids@.to_set().contains(id));
                assert(ids@.take(i as int + 1) =~= ids@.take(i as int).push(id));
                assert(models(held)[ids@[i as int]] == before.connections[id]);
            }
            match connections.remove(&id) {
                Some(mut connection) => {
                    let handed = connection.send_text(Arc::clone(&message));
                    let ghost next = connection@;
                    connections.insert(id, connection);
                    assert(models(connections@) =~= models(held).insert(id, next));
                    match handed {
                        Some(oldest) => {
                            deliveries.push(Delivery { id, message: oldest });
                            proof {
                                assert(delivery_ids(deliveries@) =~= delivery_ids(sent).push(id));
                            }
                        },
                        None => {},
                    }
                },
                None => {},
            }
            assert forall|other: usize|
                delivery_ids(deliveries@).contains(other) <==> ids@.take(i as int + 1).contains(
                    other,
                ) && (#[trigger] before.broadcast_hand_off(other, text)) is Some by {
                lemma_push_contains(ids@.take(i as int), id, other);
                if before.broadcast_hand_off(id, text) is Some {
                    lemma_push_contains(delivery_ids(sent), id, other);
                }
            }
            i += 1;
        }
        assert(ids@.take(ids@.len() as int) =~= ids@);
        assert(models(connections@) =~= before.broadcast(text).connections);
        self.connections = connections;
        deliveries
    }

    /// Forgets every `Closed` connection and returns their identifiers, each
    /// once, for the caller to deregister and drop the transports.
    pub fn sweep(&mut self) -> (removed: Vec<usize>)
        ensures
            final(self)@.wf(),
            final(self)@ == old(self)@.swept(),
            removed@.no_duplicates(),
            removed@.to_set() == old(self)@.closed_ids(),
    {
        proof {
            use_type_invariant(&*self);
        }
        let ids = identifiers(&self.connections);
        let mut connections = self.detach();
        let mut removed: Vec<usize> = Vec::new();
        let ghost before = old(self)@;
        let mut i: usize = 0;
        while i < ids.len()
            invariant
                0 <= i <= ids.len(),
                before == old(self)@,
                before.wf(),
                ids@.no_duplicates(),
                ids@.to_set() == before.connections.dom(),
                forall|id: usize|
                    connections@.contains_key(id) <==> #[trigger] before.connections.contains_key(
                        id,
                    ) && !(before.closed_ids().contains(id) && ids@.take(i as int).contains(id)),
                forall|id: usize|
                    connections@.contains_key(id) ==> (#[trigger] models(connections@)[id])
                        == before.connections[id],
                removed@.no_duplicates(),
                forall|id: usize|
                    #[trigger] removed@.contains(id) <==> ids@.take(i as int).contains(id)
                        && before.closed_ids().contains(id),
            decreases ids.len() - i,
        {
            let id = ids[i];
            let ghost held = connections@;
            let ghost gone = removed@;
            proof {
                assert(ids@.to_set().contains(id));
                assert(ids@.take(i as int + 1) =~= ids@.take(i as int).push(id));
            }
            let closed = match connections.get(&id) {
                Some(connection) => connection.is_closed(),
                None => false,
            };
            assert(closed == before.closed_ids().contains(id)) by {
                assert(models(held)[id] == before.connections[id]);
            }
            if closed {
                connections.remove(&id);
                removed.push(id);
                proof {
                    lemma_push_no_duplicates(gone, id);
                }
            }
            assert forall|other: usize| #[trigger]
                removed@.contains(other) <==> ids@.take(i as int + 1).contains(other)
                    && before.closed_ids().contains(other) by {
                lemma_push_contains(ids@.take(i as int), id, other);
                if closed {
                    lemma_push_contains(gone, id, other);
                }
            }
            assert forall|other: usize|
                connections@.contains_key(other) <==> #[trigger] before.connections.contains_key(
                    other,
                ) && !(before.closed_ids().contains(other) && ids@.take(i as int + 1).contains(
                    other,
                )) by {
                lemma_push_contains(ids@.take(i as int), id, other);
            }
            assert forall|other: usize| connections@.contains_key(other) implies (
            #[trigger] models(connections@)[other]) == before.connections[other] by {
                assert(models(held)[other] == before.connections[other]);
            }
            i += 1;
        }
        assert(ids@.take(ids@.len() as int) =~= ids@);
        assert(models(connections@) =~= before.swept().connections);
        assert(models(connections@).dom() =~= connections@.dom());
        self.connections = connections;
        removed
    }
}

} // verus!
