//! The state machine of one accepted websocket connection.
//!
//! A connection starts as `Upgrading`, becomes `Open` when the handshake
//! succeeds and ends as `Closed`. Only an `Open` connection queues
//! messages. The caller drives the codec and reports what it returned; the
//! transitions here decide what that means for the connection.

use crate::outbox::{text_of, Message, Outbox, OutboxModel};
use crate::transport::{IoFailure, WriteState};
use vstd::prelude::*;

verus! {

/// What the websocket codec reported when a decode or a send failed.
#[derive(Clone, Copy, Debug, PartialEq, Eq, Structural)]
pub enum CodecFailure {
    /// The closing handshake is complete.
    ConnectionClosed,
    /// The peer went away without a closing handshake.
    ResetWithoutClosingHandshake,
    /// The peer sent frames after its close frame.
    InvalidCloseSequence,
    /// A client sent a frame without a mask.
    UnmaskedFrameFromClient,
    /// The transport below the codec failed.
    Transport(IoFailure),
    /// Any other error of the codec.
    Other,
}

/// The four ways in which the engine treats a codec failure.
#[derive(Clone, Copy, Debug, PartialEq, Eq, Structural)]
pub enum FailureClass {
    /// The peer is gone: close without a report.
    PeerClosed,
    /// The transport has nothing more to give or take right now.
    WouldBlock,
    /// A signal cut the call short.
    Interrupted,
    /// Anything else: close and report.
    Unhandled,
}

impl CodecFailure {
    /// The class of a failure. A finished closing handshake, the three
    /// protocol violations that amount to an abrupt close, and a transport
    /// reset all mean that the peer is gone.
    pub open spec fn class(self) -> FailureClass {
        match self {
            CodecFailure::ConnectionClosed => FailureClass::PeerClosed,
            CodecFailure::ResetWithoutClosingHandshake => FailureClass::PeerClosed,
            CodecFailure::InvalidCloseSequence => FailureClass::PeerClosed,
            CodecFailure::UnmaskedFrameFromClient => FailureClass::PeerClosed,
            CodecFailure::Transport(IoFailure::ConnectionReset) => FailureClass::PeerClosed,
            CodecFailure::Transport(IoFailure::WouldBlock) => FailureClass::WouldBlock,
            CodecFailure::Transport(IoFailure::Interrupted) => FailureClass::Interrupted,
            CodecFailure::Transport(IoFailure::WriteZero) => FailureClass::Unhandled,
            CodecFailure::Transport(IoFailure::Other) => FailureClass::Unhandled,
            CodecFailure::Other => FailureClass::Unhandled,
        }
    }

    /// Computes [`CodecFailure::class`].
    pub fn classify(&self) -> (class: FailureClass)
        ensures
            class == self.class(),
    {
        match self {
            CodecFailure::ConnectionClosed
            | CodecFailure::ResetWithoutClosingHandshake
            | CodecFailure::InvalidCloseSequence
            | CodecFailure::UnmaskedFrameFromClient => FailureClass::PeerClosed,
            CodecFailure::Transport(failure) => match failure {
                IoFailure::ConnectionReset => FailureClass::PeerClosed,
                IoFailure::WouldBlock => FailureClass::WouldBlock,
                IoFailure::Interrupted => FailureClass::Interrupted,
                IoFailure::WriteZero | IoFailure::Other => FailureClass::Unhandled,
            },
            CodecFailure::Other => FailureClass::Unhandled,
        }
    }
}

/// What the codec returned for one decode or one send.
#[derive(Clone, Copy, Debug, PartialEq, Eq, Structural)]
pub enum CodecOutcome {
    /// A frame was decoded, or the message was taken.
    Done,
    /// The call failed.
    Failed(CodecFailure),
}

/// What the caller does after reporting a decode.
#[derive(Clone, Copy, Debug, PartialEq, Eq, Structural)]
pub enum ReadStep {
    /// Decode the next frame now.
    Again,
    /// Stop reading until the next readable event.
    Wait,
    /// The connection is closed; `report` says whether the failure is worth
    /// a log line.
    Closed { report: bool },
}

/// What the caller does after reporting a send.
#[derive(Clone, Copy, Debug, PartialEq, Eq, Structural)]
pub enum SendStep {
    /// Nothing more for this event.
    Idle,
    /// The connection is closed; `report` says whether the failure is worth
    /// a log line.
    Closed { report: bool },
}

/// The phase of a connection's life.
#[derive(Clone, Copy, Debug, PartialEq, Eq, Structural)]
pub enum Phase {
    Upgrading,
    Open,
    Closed,
}

/// Mathematical model of a [`Connection`].
pub enum ConnectionModel {
    Upgrading,
    Open(OutboxModel),
    Closed,
}

impl ConnectionModel {
    /// The phase of the connection.
    pub open spec fn phase(self) -> Phase {
        match self {
            ConnectionModel::Upgrading => Phase::Upgrading,
            ConnectionModel::Open(_) => Phase::Open,
            ConnectionModel::Closed => Phase::Closed,
        }
    }

    /// The texts still queued; none unless `Open`.
    pub open spec fn queue(self) -> Seq<Seq<char>> {
        match self {
            ConnectionModel::Open(outbox) => outbox.queue,
            _ => Seq::empty(),
        }
    }

    /// Whether the connection is open and its flag is up.
    pub open spec fn writable(self) -> bool {
        match self {
            ConnectionModel::Open(outbox) => outbox.writable,
            _ => false,
        }
    }

    /// The state after a handshake attempt. Only an `Upgrading` connection
    /// takes part in a handshake.
    pub open spec fn upgraded(self, accepted: bool) -> ConnectionModel {
        match self {
            ConnectionModel::Upgrading => if accepted {
                ConnectionModel::Open(OutboxModel::empty())
            } else {
                ConnectionModel::Closed
            },
            _ => self,
        }
    }

    /// The state after a hand-off attempt, and the text handed to the codec:
    /// an `Open`, writable connection gives up its oldest message.
    pub open spec fn handed_off(self) -> (ConnectionModel, Option<Seq<char>>) {
        match self {
            ConnectionModel::Open(outbox) if outbox.writable => (
                ConnectionModel::Open(outbox.popped()),
                outbox.front(),
            ),
            _ => (self, None),
        }
    }

    /// The state with `text` queued. Only an `Open` connection queues.
    pub open spec fn queued(self, text: Seq<char>) -> ConnectionModel {
        match self {
            ConnectionModel::Open(outbox) => ConnectionModel::Open(outbox.pushed(text)),
            _ => self,
        }
    }

    /// The state with the flag raised by a writable event.
    pub open spec fn raised(self) -> ConnectionModel {
        match self {
            ConnectionModel::Open(outbox) => ConnectionModel::Open(outbox.flagged(true)),
            _ => self,
        }
    }

    /// Broadcasting `text` to this connection: queue it, then hand off the
    /// oldest message if the connection is writable.
    pub open spec fn sent_text(self, text: Seq<char>) -> (ConnectionModel, Option<Seq<char>>) {
        self.queued(text).handed_off()
    }

    /// A writable event: raise the flag, then hand off the oldest message.
    pub open spec fn writable_event(self) -> (ConnectionModel, Option<Seq<char>>) {
        self.raised().handed_off()
    }

    /// The state and the next step after the codec reported a decode.
    /// Decoded frames are dropped; only failures change the state.
    pub open spec fn decoded(self, outcome: CodecOutcome) -> (ConnectionModel, ReadStep) {
        match self {
            ConnectionModel::Open(outbox) => match outcome {
                CodecOutcome::Done => (self, ReadStep::Again),
                CodecOutcome::Failed(failure) => match failure.class() {
                    FailureClass::PeerClosed => (
                        ConnectionModel::Closed,
                        ReadStep::Closed { report: false },
                    ),
                    FailureClass::WouldBlock => (self, ReadStep::Wait),
                    FailureClass::Interrupted => (self, ReadStep::Again),
                    FailureClass::Unhandled => (
                        ConnectionModel::Closed,
                        ReadStep::Closed { report: true },
                    ),
                },
            },
            ConnectionModel::Upgrading => (self, ReadStep::Wait),
            ConnectionModel::Closed => (self, ReadStep::Wait),
        }
    }

    /// The state and the next step after the codec reported a send. On a
    /// would-block the codec keeps the frame, so the queue stays as it is and
    /// only the flag drops.
    pub open spec fn sent(self, outcome: CodecOutcome) -> (ConnectionModel, SendStep) {
        match self {
            ConnectionModel::Open(outbox) => match outcome {
                CodecOutcome::Done => (self, SendStep::Idle),
                CodecOutcome::Failed(failure) => match failure.class() {
                    FailureClass::PeerClosed => (
                        ConnectionModel::Closed,
                        SendStep::Closed { report: false },
                    ),
                    FailureClass::WouldBlock => (
                        ConnectionModel::Open(outbox.flagged(false)),
                        SendStep::Idle,
                    ),
                    FailureClass::Interrupted => (self, SendStep::Idle),
                    FailureClass::Unhandled => (
                        ConnectionModel::Closed,
                        SendStep::Closed { report: true },
                    ),
                },
            },
            ConnectionModel::Upgrading => (self, SendStep::Idle),
            ConnectionModel::Closed => (self, SendStep::Idle),
        }
    }
}

/// What the outside sees of a connection over time: an event it is given.
pub enum ConnectionEvent {
    /// The handshake ended.
    Handshake(bool),
    /// A text was broadcast.
    Text(Seq<char>),
    /// The transport became writable.
    Writable,
    /// The codec reported a decode.
    Decoded(CodecOutcome),
    /// The codec reported a send.
    Sent(CodecOutcome),
}

impl ConnectionModel {
    /// The state after `event`, and the text handed to the codec by it.
    pub open spec fn step(self, event: ConnectionEvent) -> (ConnectionModel, Option<Seq<char>>) {
        match event {
            ConnectionEvent::Handshake(accepted) => (self.upgraded(accepted), None),
            ConnectionEvent::Text(text) => self.sent_text(text),
            ConnectionEvent::Writable => self.writable_event(),
            ConnectionEvent::Decoded(outcome) => (self.decoded(outcome).0, None),
            ConnectionEvent::Sent(outcome) => (self.sent(outcome).0, None),
        }
    }

    /// The state after a run of events.
    pub open spec fn run(self, events: Seq<ConnectionEvent>) -> ConnectionModel
        decreases events.len(),
    {
        if events.len() == 0 {
            self
        } else {
            self.run(events.drop_last()).step(events.last()).0
        }
    }

    /// The texts handed to the codec during a run of events, in order.
    pub open spec fn handed_in(self, events: Seq<ConnectionEvent>) -> Seq<Seq<char>>
        decreases events.len(),
    {
        if events.len() == 0 {
            Seq::empty()
        } else {
            let earlier = self.handed_in(events.drop_last());
            match self.run(events.drop_last()).step(events.last()).1 {
                Some(text) => earlier.push(text),
                None => earlier,
            }
        }
    }
}

/// The texts broadcast during a run of events, in order.
pub open spec fn broadcast_in(events: Seq<ConnectionEvent>) -> Seq<Seq<char>>
    decreases events.len(),
{
    if events.len() == 0 {
        Seq::empty()
    } else {
        match events.last() {
            ConnectionEvent::Text(text) => broadcast_in(events.drop_last()).push(text),
            _ => broadcast_in(events.drop_last()),
        }
    }
}

/// `Closed` is terminal: no event leads out of it, and none makes a closed
/// connection hand anything to the codec.
pub proof fn lemma_closed_is_terminal(event: ConnectionEvent)
    ensures
        ConnectionModel::Closed.step(event) == (ConnectionModel::Closed, None::<Seq<char>>),
{
}

/// No event leads back to `Upgrading`.
pub proof fn lemma_never_back_to_upgrading(start: ConnectionModel, events: Seq<ConnectionEvent>)
    requires
        !(start is Upgrading),
    ensures
        !(start.run(events) is Upgrading),
    decreases events.len(),
{
    if events.len() > 0 {
        lemma_never_back_to_upgrading(start, events.drop_last());
    }
}

/// A connection that is open after a run of events was open all along.
pub proof fn lemma_open_all_along(start: ConnectionModel, events: Seq<ConnectionEvent>, k: int)
    requires
        start is Open,
        start.run(events) is Open,
        0 <= k <= events.len(),
    ensures
        start.run(events.take(k)) is Open,
    decreases events.len(),
{
    if k == events.len() {
        assert(events.take(k) =~= events);
    } else {
        let earlier = events.drop_last();
        assert(earlier.take(k) =~= events.take(k));
        lemma_never_back_to_upgrading(start, earlier);
        lemma_open_all_along(start, earlier, k);
    }
}

/// Every text broadcast to a connection that stays open is handed to the
/// codec or still queued, once, and in the order of the broadcasts: what was
/// handed over followed by what is queued is what was queued at first
/// followed by the broadcast texts.
pub proof fn lemma_broadcasts_leave_in_order(start: ConnectionModel, events: Seq<ConnectionEvent>)
    requires
        start is Open,
        start.run(events) is Open,
    ensures
        start.handed_in(events) + start.run(events).queue() == start.queue() + broadcast_in(
            events,
        ),
    decreases events.len(),
{
    if events.len() > 0 {
        let earlier = events.drop_last();
        assert(events.take(events.len() - 1) =~= earlier);
        lemma_open_all_along(start, events, events.len() - 1);
        lemma_broadcasts_leave_in_order(start, earlier);
        // The last event takes from the queue what it hands over, and adds to
        // the queue what it broadcasts.
        let before = start.run(earlier);
        let (after, handed) = before.step(events.last());
        let taken = match handed {
            Some(text) => seq![text],
            None => Seq::empty(),
        };
        let added = match events.last() {
            ConnectionEvent::Text(text) => seq![text],
            _ => Seq::empty(),
        };
        assert(taken + after.queue() =~= before.queue() + added);
        assert(start.handed_in(events) + after.queue() =~= start.handed_in(earlier) + (taken
            + after.queue()));
        assert(start.queue() + broadcast_in(events) =~= (start.handed_in(earlier)
            + before.queue()) + added);
    }
}

/// A run of `n` writable events.
pub open spec fn writable_events(n: nat) -> Seq<ConnectionEvent> {
    Seq::new(n, |i: int| ConnectionEvent::Writable)
}

/// Writable events drain the queue from its front: each of them hands the
/// oldest message to the codec, so that after as many events as there are
/// messages the queue is empty and the messages have left in their order.
pub proof fn lemma_writable_events_drain_the_queue(connection: ConnectionModel, n: nat)
    requires
        connection is Open,
        n <= connection.queue().len(),
    ensures
        connection.run(writable_events(n)) is Open,
        connection.run(writable_events(n)).queue() == connection.queue().skip(n as int),
        connection.handed_in(writable_events(n)) == connection.queue().take(n as int),
    decreases n,
{
    let events = writable_events(n);
    if n == 0 {
        assert(connection.queue().skip(0) =~= connection.queue());
        assert(connection.queue().take(0) =~= Seq::<Seq<char>>::empty());
    } else {
        let earlier = writable_events((n - 1) as nat);
        assert(events.drop_last() =~= earlier);
        lemma_writable_events_drain_the_queue(connection, (n - 1) as nat);
        let before = connection.run(earlier);
        assert(before.queue()[0] == connection.queue()[n - 1]);
        assert(before.queue().drop_first() =~= connection.queue().skip(n as int));
        assert(connection.queue().take(n - 1).push(connection.queue()[n - 1])
            =~= connection.queue().take(n as int));
    }
}

/// Only a writable event raises the flag: after any other event the
/// connection is writable only if it was before.
pub proof fn lemma_only_a_writable_event_raises_the_flag(
    connection: ConnectionModel,
    event: ConnectionEvent,
)
    requires
        !(event is Writable),
    ensures
        connection.step(event).0.writable() ==> connection.writable(),
{
}

/// After a would-block on a send the queue is what it was and the flag is
/// down: nothing is handed to the codec, whatever is broadcast, until a
/// writable event raises the flag again.
pub proof fn lemma_would_block_waits_for_writable(
    connection: ConnectionModel,
    text: Seq<char>,
)
    requires
        connection is Open,
    ensures
        ({
            let blocked = connection.sent(
                CodecOutcome::Failed(CodecFailure::Transport(IoFailure::WouldBlock)),
            );
            &&& blocked.1 == SendStep::Idle
            &&& blocked.0 is Open
            &&& blocked.0.queue() == connection.queue()
            &&& blocked.0.handed_off() == (blocked.0, None::<Seq<char>>)
            &&& blocked.0.sent_text(text) == (blocked.0.queued(text), None::<Seq<char>>)
            &&& blocked.0.writable_event().0 is Open
            &&& blocked.0.writable_event().1 == if connection.queue().len() > 0 {
                Some(connection.queue()[0])
            } else {
                None
            }
        }),
{
}

/// One accepted connection of the broadcast server.
pub enum Connection {
    /// Accepted, handshake not yet done.
    Upgrading,
    /// Handshake done: messages are queued and handed to the codec.
    Open(Outbox),
    /// Terminal. The queue is released.
    Closed,
}

impl View for Connection {
    type V = ConnectionModel;

    open spec fn view(&self) -> ConnectionModel {
        match self {
            Connection::Upgrading => ConnectionModel::Upgrading,
            Connection::Open(outbox) => ConnectionModel::Open(outbox@),
            Connection::Closed => ConnectionModel::Closed,
        }
    }
}

impl Connection {
    /// A freshly accepted connection.
    pub fn new() -> (connection: Connection)
        ensures
            connection@ == ConnectionModel::Upgrading,
    {
        Connection::Upgrading
    }

    /// Whether the connection is `Open`.
    pub fn is_open(&self) -> (open: bool)
        ensures
            open == (self@ is Open),
    {
        match self {
            Connection::Open(_) => true,
            _ => false,
        }
    }

    /// Whether the connection is `Closed`.
    pub fn is_closed(&self) -> (closed: bool)
        ensures
            closed == (self@ is Closed),
    {
        match self {
            Connection::Closed => true,
            _ => false,
        }
    }

    /// Whether the connection still waits for its handshake.
    pub fn is_upgrading(&self) -> (upgrading: bool)
        ensures
            upgrading == (self@ is Upgrading),
    {
        match self {
            Connection::Upgrading => true,
            _ => false,
        }
    }

    /// The phase of the connection.
    pub fn phase(&self) -> (phase: Phase)
        ensures
            phase == self@.phase(),
    {
        match self {
            Connection::Upgrading => Phase::Upgrading,
            Connection::Open(_) => Phase::Open,
            Connection::Closed => Phase::Closed,
        }
    }

    /// The number of messages that wait in the queue; zero unless `Open`.
    pub fn pending(&self) -> (n: usize)
        ensures
            n == self@.queue().len(),
    {
        match self {
            Connection::Open(outbox) => outbox.len(),
            _ => 0,
        }
    }

    /// The write-readiness flag; `Unwritable` unless `Open`.
    pub fn write_state(&self) -> (write: WriteState)
        ensures
            write.writable() == self@.writable(),
    {
        match self {
            Connection::Open(outbox) => outbox.write(),
            _ => WriteState::Unwritable,
        }
    }

    /// Records the result of the handshake: `Upgrading` becomes `Open` with
    /// an empty queue, or `Closed` when the handshake failed.
    pub fn upgrade(&mut self, accepted: bool)
        ensures
            final(self)@ == old(self)@.upgraded(accepted),
    {
        if self.is_upgrading() {
            if accepted {
                *self = Connection::Open(Outbox::new());
            } else {
                *self = Connection::Closed;
            }
        }
    }

    /// Hands the oldest message to the caller if the connection is `Open` and
    /// writable. The message leaves the queue: from here on the codec owns it.
    pub fn hand_off(&mut self) -> (message: Option<Message>)
        ensures
            final(self)@ == old(self)@.handed_off().0,
            text_of(message) == old(self)@.handed_off().1,
    {
        match self {
            Connection::Open(outbox) => {
                if outbox.write() == WriteState::Writable {
                    outbox.pop()
                } else {
                    None
                }
            },
            _ => None,
        }
    }

    /// Queues `message` on an `Open` connection and hands off the oldest
    /// message if the connection is writable.
    pub fn send_text(&mut self, message: Message) -> (handed: Option<Message>)
        ensures
            final(self)@ == old(self)@.sent_text(message@).0,
            text_of(handed) == old(self)@.sent_text(message@).1,
    {
        match self {
            Connection::Open(outbox) => {
                outbox.push(message);
            },
            _ => {},
        }
        self.hand_off()
    }

    /// A writable event: raises the flag of an `Open` connection and hands
    /// off the oldest message.
    pub fn on_writable(&mut self) -> (handed: Option<Message>)
        ensures
            final(self)@ == old(self)@.writable_event().0,
            text_of(handed) == old(self)@.writable_event().1,
    {
        match self {
            Connection::Open(outbox) => {
                outbox.set_write(WriteState::Writable);
            },
            _ => {},
        }
        self.hand_off()
    }

    /// Takes what the codec returned for a decode and says how to go on.
    pub fn on_decoded(&mut self, outcome: CodecOutcome) -> (step: ReadStep)
        ensures
            final(self)@ == old(self)@.decoded(outcome).0,
            step == old(self)@.decoded(outcome).1,
    {
        if !self.is_open() {
            return ReadStep::Wait;
        }
        match outcome {
            CodecOutcome::Done => ReadStep::Again,
            CodecOutcome::Failed(failure) => match failure.classify() {
                FailureClass::PeerClosed => {
                    *self = Connection::Closed;
                    ReadStep::Closed { report: false }
                },
                FailureClass::WouldBlock => ReadStep::Wait,
                FailureClass::Interrupted => ReadStep::Again,
                FailureClass::Unhandled => {
                    *self = Connection::Closed;
                    ReadStep::Closed { report: true }
                },
            },
        }
    }

    /// Takes what the codec returned for a send and says how to go on.
    pub fn on_sent(&mut self, outcome: CodecOutcome) -> (step: SendStep)
        ensures
            final(self)@ == old(self)@.sent(outcome).0,
            step == old(self)@.sent(outcome).1,
    {
        match self {
            Connection::Open(outbox) => match outcome {
                CodecOutcome::Done => SendStep::Idle,
                CodecOutcome::Failed(failure) => match failure.classify() {
                    FailureClass::PeerClosed => {
                        *self = Connection::Closed;
                        SendStep::Closed { report: false }
                    },
                    FailureClass::WouldBlock => {
                        outbox.set_write(WriteState::Unwritable);
                        SendStep::Idle
                    },
                    FailureClass::Interrupted => SendStep::Idle,
                    FailureClass::Unhandled => {
                        *self = Connection::Closed;
                        SendStep::Closed { report: true }
                    },
                },
            },
            _ => SendStep::Idle,
        }
    }
}

} // verus!
