//! The state machine of the link to the media player.
//!
//! The session is `Connected` from the moment the transport exists and
//! `Closed` for good after the end of the stream or a failure. The caller
//! reads and writes on the transport and reports each result; the session
//! keeps the inbound bytes until they end with a complete line, picks the
//! subtitles out of the lines, and keeps the outbound queue in order.

use crate::event::{subtitle_from_line, subtitle_of, OBSERVE_SUB_TEXT};
use crate::lines::{
    all_text, is_terminated, lemma_lines_are_text_iff_buffer_is, lines_of, slices, split_lines,
    terminated,
};
use crate::outbox::{texts, Message, Outbox, OutboxModel};
use crate::text::text_of_bytes;
use crate::transport::{IoFailure, WriteState};
use std::sync::Arc;
use vstd::prelude::*;
use vstd::utf8::{decode_utf8, valid_utf8};

verus! {

/// Why a session cannot go on.
#[derive(Clone, Copy, Debug, PartialEq, Eq, Structural)]
pub enum SessionFault {
    /// The transport failed in a way that no retry mends.
    Transport,
    /// The player sent bytes that are not UTF-8.
    Encoding,
}

/// What the transport returned for one write of a whole message.
#[derive(Clone, Copy, Debug, PartialEq, Eq, Structural)]
pub enum WriteOutcome {
    /// All bytes of the message were written.
    Written,
    /// The write failed.
    Failed(IoFailure),
}

/// What the caller does after a read was reported.
#[derive(Debug, PartialEq, Eq)]
pub enum Inbound {
    /// Read again now.
    Again,
    /// Stop reading until the next readable event.
    Wait,
    /// Send these subtitles on, in this order, and read again.
    Forward(Vec<Message>),
    /// The session is closed: deregister the transport and end the loop.
    Closed,
    /// The session is closed because of a fault.
    Failed(SessionFault),
}

/// Mathematical model of an [`Inbound`] step.
pub enum InboundModel {
    Again,
    Wait,
    Forward(Seq<Seq<char>>),
    Closed,
    Failed(SessionFault),
}

impl View for Inbound {
    type V = InboundModel;

    open spec fn view(&self) -> InboundModel {
        match self {
            Inbound::Again => InboundModel::Again,
            Inbound::Wait => InboundModel::Wait,
            Inbound::Forward(messages) => InboundModel::Forward(texts(messages@)),
            Inbound::Closed => InboundModel::Closed,
            Inbound::Failed(fault) => InboundModel::Failed(*fault),
        }
    }
}

/// What the caller does after a write event or a write result.
#[derive(Debug, PartialEq, Eq)]
pub enum Outbound {
    /// Nothing: wait for the next event.
    Idle,
    /// Write the whole message to the transport now and report the result
    /// together with the message.
    Write(Message),
    /// The session is closed: deregister the transport and end the loop.
    Closed,
    /// The session is closed because the transport failed.
    Failed,
}

/// Mathematical model of an [`Outbound`] step.
pub enum OutboundModel {
    Idle,
    Write(Seq<char>),
    Closed,
    Failed,
}

impl View for Outbound {
    type V = OutboundModel;

    open spec fn view(&self) -> OutboundModel {
        match self {
            Outbound::Idle => OutboundModel::Idle,
            Outbound::Write(message) => OutboundModel::Write(message@),
            Outbound::Closed => OutboundModel::Closed,
            Outbound::Failed => OutboundModel::Failed,
        }
    }
}

/// The subtitles that the lines carry, in the order of the lines.
pub open spec fn subtitles(lines: Seq<Seq<u8>>) -> Seq<Seq<char>> {
    lines.filter_map(|line: Seq<u8>| subtitle_of(decode_utf8(line)))
}

/// Reads the lines of `bytes` and collects the subtitles that they carry.
/// Returns `None` if `bytes` is not valid UTF-8.
pub fn subtitles_in(bytes: &[u8]) -> (found: Option<Vec<Message>>)
    ensures
        found is Some <==> valid_utf8(bytes@),
        found matches Some(messages) ==> texts(messages@) == subtitles(lines_of(bytes@)),
{
    proof {
        lemma_lines_are_text_iff_buffer_is(bytes@);
    }
    let lines = split_lines(bytes);
    let mut messages: Vec<Message> = Vec::new();
    let ghost all = lines_of(bytes@);
    let ghost pick = |line: Seq<u8>| subtitle_of(decode_utf8(line));
    let mut i: usize = 0;
    while i < lines.len()
        invariant
            0 <= i <= lines.len(),
            all == slices(lines@),
            all_text(all) <==> valid_utf8(bytes@),
            pick == |line: Seq<u8>| subtitle_of(decode_utf8(line)),
            forall|j: int| 0 <= j < i ==> valid_utf8(#[trigger] all[j]),
            texts(messages@) == all.take(i as int).filter_map(pick),
        decreases lines.len() - i,
    {
        assert(all.take(i as int + 1).drop_last() =~= all.take(i as int));
        match text_of_bytes(lines[i]) {
            Some(text) => {
                if let Some(message) = subtitle_from_line(text) {
                    messages.push(message);
                }
            },
            None => {
                return None;
            },
        }
        i += 1;
    }
    assert(all.take(i as int) =~= all);
    Some(messages)
}

/// Mathematical model of a [`Session`].
pub enum SessionModel {
    /// The link is up: the bytes read since the last complete line, and the
    /// outbound queue with its flag.
    Connected { inbound: Seq<u8>, outbox: OutboxModel },
    /// Terminal.
    Closed,
}

impl SessionModel {
    /// A connected session that has read nothing, queues nothing and is not
    /// yet writable.
    pub open spec fn connected() -> SessionModel {
        SessionModel::Connected { inbound: Seq::empty(), outbox: OutboxModel::empty() }
    }

    /// The session right after the transport was connected: the observe
    /// command went the way of every text, and since no writable event has
    /// come yet it waits in the queue.
    pub open spec fn opened() -> SessionModel {
        SessionModel::connected().sent_text(OBSERVE_SUB_TEXT@).0
    }

    /// Taking the oldest message for a write, if the session is writable.
    pub open spec fn taken(self) -> (SessionModel, OutboundModel) {
        match self {
            SessionModel::Connected { inbound, outbox } => if outbox.writable {
                match outbox.front() {
                    Some(text) => (
                        SessionModel::Connected { inbound, outbox: outbox.popped() },
                        OutboundModel::Write(text),
                    ),
                    None => (self, OutboundModel::Idle),
                }
            } else {
                (self, OutboundModel::Idle)
            },
            SessionModel::Closed => (self, OutboundModel::Closed),
        }
    }

    /// Queuing `text` behind everything queued, then taking the oldest
    /// message if the session is writable.
    pub open spec fn sent_text(self, text: Seq<char>) -> (SessionModel, OutboundModel) {
        match self {
            SessionModel::Connected { inbound, outbox } => SessionModel::Connected {
                inbound,
                outbox: outbox.pushed(text),
            }.taken(),
            SessionModel::Closed => (self, OutboundModel::Closed),
        }
    }

    /// A writable event: the flag goes up and the oldest message is taken.
    pub open spec fn writable_event(self) -> (SessionModel, OutboundModel) {
        match self {
            SessionModel::Connected { inbound, outbox } => SessionModel::Connected {
                inbound,
                outbox: outbox.flagged(true),
            }.taken(),
            SessionModel::Closed => (self, OutboundModel::Closed),
        }
    }

    /// The result of writing the message with text `text`.
    ///
    /// A written message is done. After a would-block the message goes back
    /// to the front of the queue and the flag drops. After an interruption
    /// the same message is written again at once. A write that made no
    /// progress closes the session; any other failure closes it as a fault.
    pub open spec fn written(self, text: Seq<char>, outcome: WriteOutcome) -> (
        SessionModel,
        OutboundModel,
    ) {
        match self {
            SessionModel::Connected { inbound, outbox } => match outcome {
                WriteOutcome::Written => (self, OutboundModel::Idle),
                WriteOutcome::Failed(IoFailure::WouldBlock) => (
                    SessionModel::Connected {
                        inbound,
                        outbox: outbox.requeued(text).flagged(false),
                    },
                    OutboundModel::Idle,
                ),
                WriteOutcome::Failed(IoFailure::Interrupted) => (self, OutboundModel::Write(text)),
                WriteOutcome::Failed(IoFailure::WriteZero) => (
                    SessionModel::Closed,
                    OutboundModel::Closed,
                ),
                WriteOutcome::Failed(_) => (SessionModel::Closed, OutboundModel::Failed),
            },
            SessionModel::Closed => (self, OutboundModel::Closed),
        }
    }

    /// The result of a read that returned `bytes`.
    ///
    /// A read of no bytes is the end of the stream and closes the session.
    /// Otherwise the bytes are kept. Once what is kept ends with a line feed
    /// it is split into lines; the subtitles of the lines are forwarded and
    /// the buffer starts anew. Bytes that are not UTF-8 are a fault. Reading
    /// goes on in every other case: only a would-block ends it.
    pub open spec fn received(self, bytes: Seq<u8>) -> (SessionModel, InboundModel) {
        match self {
            SessionModel::Connected { inbound, outbox } => {
                let kept = inbound + bytes;
                if bytes.len() == 0 {
                    (SessionModel::Closed, InboundModel::Closed)
                } else if !terminated(kept) {
                    (SessionModel::Connected { inbound: kept, outbox }, InboundModel::Again)
                } else if valid_utf8(kept) {
                    (
                        SessionModel::Connected { inbound: Seq::empty(), outbox },
                        InboundModel::Forward(subtitles(lines_of(kept))),
                    )
                } else {
                    (SessionModel::Closed, InboundModel::Failed(SessionFault::Encoding))
                }
            },
            SessionModel::Closed => (self, InboundModel::Closed),
        }
    }

    /// The result of a read that failed. A would-block ends the reading for
    /// this event and keeps the buffer; an interruption is followed by
    /// another read; any other failure closes the session as a fault.
    pub open spec fn read_failed(self, failure: IoFailure) -> (SessionModel, InboundModel) {
        match self {
            SessionModel::Connected { .. } => match failure {
                IoFailure::WouldBlock => (self, InboundModel::Wait),
                IoFailure::Interrupted => (self, InboundModel::Again),
                _ => (SessionModel::Closed, InboundModel::Failed(SessionFault::Transport)),
            },
            SessionModel::Closed => (self, InboundModel::Closed),
        }
    }
}

impl SessionModel {
    /// Whether the session is connected and its flag is up.
    pub open spec fn writable(self) -> bool {
        match self {
            SessionModel::Connected { outbox, .. } => outbox.writable,
            SessionModel::Closed => false,
        }
    }

    /// The texts still queued; none when closed.
    pub open spec fn queue(self) -> Seq<Seq<char>> {
        match self {
            SessionModel::Connected { outbox, .. } => outbox.queue,
            SessionModel::Closed => Seq::empty(),
        }
    }

    /// The bytes kept since the last complete line; none when closed.
    pub open spec fn buffer(self) -> Seq<u8> {
        match self {
            SessionModel::Connected { inbound, .. } => inbound,
            SessionModel::Closed => Seq::empty(),
        }
    }
}

/// What happens to a session between two polls: an event, and for a text or
/// a writable event the results of the writes that the handler makes before
/// it returns, in order.
pub enum SessionEvent {
    /// A text to send, and the results of the writes that follow.
    Text(Seq<char>, Seq<WriteOutcome>),
    /// A writable event, and the results of the writes that follow.
    Writable(Seq<WriteOutcome>),
    /// A read that returned these bytes.
    Bytes(Seq<u8>),
    /// A read that failed.
    ReadFailed(IoFailure),
}

/// What a handler leaves behind: the session, the last step it was given,
/// and the texts that it wrote in full, in order.
pub struct Handled {
    pub session: SessionModel,
    pub last: OutboundModel,
    pub written: Seq<Seq<char>>,
}

impl SessionModel {
    /// The write loop of a handler: as long as the step asks for a write and
    /// a result is left, the write is made and its result reported.
    pub open spec fn written_out(self, step: OutboundModel, outcomes: Seq<WriteOutcome>) -> Handled
        decreases outcomes.len(),
    {
        match step {
            OutboundModel::Write(text) => if outcomes.len() > 0 {
                let (next, then) = self.written(text, outcomes[0]);
                let rest = next.written_out(then, outcomes.drop_first());
                if outcomes[0] is Written {
                    Handled { written: seq![text] + rest.written, ..rest }
                } else {
                    rest
                }
            } else {
                Handled { session: self, last: step, written: Seq::empty() }
            },
            _ => Handled { session: self, last: step, written: Seq::empty() },
        }
    }

    /// The handler of one event.
    pub open spec fn handled(self, event: SessionEvent) -> Handled {
        match event {
            SessionEvent::Text(text, outcomes) => self.sent_text(text).0.written_out(
                self.sent_text(text).1,
                outcomes,
            ),
            SessionEvent::Writable(outcomes) => self.writable_event().0.written_out(
                self.writable_event().1,
                outcomes,
            ),
            SessionEvent::Bytes(bytes) => Handled {
                session: self.received(bytes).0,
                last: OutboundModel::Idle,
                written: Seq::empty(),
            },
            SessionEvent::ReadFailed(failure) => Handled {
                session: self.read_failed(failure).0,
                last: OutboundModel::Idle,
                written: Seq::empty(),
            },
        }
    }

    /// The session after a run of events.
    pub open spec fn run(self, events: Seq<SessionEvent>) -> SessionModel
        decreases events.len(),
    {
        if events.len() == 0 {
            self
        } else {
            self.run(events.drop_last()).handled(events.last()).session
        }
    }

    /// The texts written in full during a run of events, in order.
    pub open spec fn written_in(self, events: Seq<SessionEvent>) -> Seq<Seq<char>>
        decreases events.len(),
    {
        if events.len() == 0 {
            Seq::empty()
        } else {
            self.written_in(events.drop_last()) + self.run(events.drop_last()).handled(
                events.last(),
            ).written
        }
    }

    /// Whether every handler of a run came to an end: none was left with a
    /// write that it did not make.
    pub open spec fn settled(self, events: Seq<SessionEvent>) -> bool
        decreases events.len(),
    {
        events.len() > 0 ==> self.settled(events.drop_last()) && !(self.run(
            events.drop_last(),
        ).handled(events.last()).last is Write)
    }
}

/// The texts given to a session during a run of events, in order.
pub open spec fn sent_in(events: Seq<SessionEvent>) -> Seq<Seq<char>>
    decreases events.len(),
{
    if events.len() == 0 {
        Seq::empty()
    } else {
        match events.last() {
            SessionEvent::Text(text, _) => sent_in(events.drop_last()).push(text),
            _ => sent_in(events.drop_last()),
        }
    }
}

/// The write loop loses nothing and doubles nothing: if it ends with the
/// session connected and no write left to make, what it wrote followed by
/// what is queued is the message it started with followed by what was queued.
pub proof fn lemma_write_loop_keeps_the_queue(
    session: SessionModel,
    step: OutboundModel,
    outcomes: Seq<WriteOutcome>,
)
    requires
        session.written_out(step, outcomes).session is Connected,
        !(session.written_out(step, outcomes).last is Write),
    ensures
        session is Connected,
        session.written_out(step, outcomes).written + session.written_out(
            step,
            outcomes,
        ).session.queue() == (match step {
            OutboundModel::Write(text) => seq![text],
            _ => Seq::empty(),
        }) + session.queue(),
    decreases outcomes.len(),
{
    let end = session.written_out(step, outcomes);
    match step {
        OutboundModel::Write(text) => {
            let (next, then) = session.written(text, outcomes[0]);
            let rest = next.written_out(then, outcomes.drop_first());
            lemma_write_loop_keeps_the_queue(next, then, outcomes.drop_first());
            assert(end.written + end.session.queue() =~= seq![text] + session.queue());
        },
        _ => {
            assert(end.written + end.session.queue() =~= Seq::<Seq<char>>::empty()
                + session.queue());
        },
    }
}

/// A session that is connected after an event was connected before it.
pub proof fn lemma_connected_before(session: SessionModel, event: SessionEvent)
    requires
        session.handled(event).session is Connected,
    ensures
        session is Connected,
{
    match event {
        SessionEvent::Text(text, outcomes) => {
            lemma_closed_write_loop(session.sent_text(text).1, outcomes);
        },
        SessionEvent::Writable(outcomes) => {
            lemma_closed_write_loop(session.writable_event().1, outcomes);
        },
        _ => {},
    }
}

/// The write loop leaves a closed session closed.
pub proof fn lemma_closed_write_loop(step: OutboundModel, outcomes: Seq<WriteOutcome>)
    ensures
        SessionModel::Closed.written_out(step, outcomes).session is Closed,
    decreases outcomes.len(),
{
    match step {
        OutboundModel::Write(text) => {
            if outcomes.len() > 0 {
                lemma_closed_write_loop(OutboundModel::Closed, outcomes.drop_first());
            }
        },
        _ => {},
    }
}

/// Messages leave a session in the order in which they were given to it, and
/// each leaves once: in every run of events whose handlers came to an end
/// and after which the session is connected, what was written followed by
/// what is queued is what was queued at first followed by the texts given.
pub proof fn lemma_writes_keep_the_order(start: SessionModel, events: Seq<SessionEvent>)
    requires
        start.run(events) is Connected,
        start.settled(events),
    ensures
        start is Connected,
        start.written_in(events) + start.run(events).queue() == start.queue() + sent_in(events),
    decreases events.len(),
{
    if events.len() == 0 {
        assert(start.written_in(events) + start.queue() =~= start.queue() + sent_in(events));
    } else {
        let earlier = events.drop_last();
        let before = start.run(earlier);
        let end = before.handled(events.last());
        lemma_connected_before(before, events.last());
        lemma_writes_keep_the_order(start, earlier);
        // One handler keeps the balance.
        let added = match events.last() {
            SessionEvent::Text(text, _) => seq![text],
            _ => Seq::empty(),
        };
        assert(end.written + end.session.queue() =~= before.queue() + added) by {
            match events.last() {
                SessionEvent::Text(text, outcomes) => {
                    let (queued, step) = before.sent_text(text);
                    lemma_write_loop_keeps_the_queue(queued, step, outcomes);
                    assert((match step {
                        OutboundModel::Write(taken) => seq![taken],
                        _ => Seq::empty(),
                    }) + queued.queue() =~= before.queue() + added);
                },
                SessionEvent::Writable(outcomes) => {
                    let (raised, step) = before.writable_event();
                    lemma_write_loop_keeps_the_queue(raised, step, outcomes);
                    assert((match step {
                        OutboundModel::Write(taken) => seq![taken],
                        _ => Seq::empty(),
                    }) + raised.queue() =~= before.queue() + added);
                },
                _ => {},
            }
        }
        assert(start.written_in(events) + end.session.queue() =~= start.written_in(earlier) + (
        end.written + end.session.queue()));
        assert(start.queue() + sent_in(events) =~= (start.written_in(earlier) + before.queue())
            + added);
    }
}

/// Only a writable event raises the flag: after a text, a write result, a
/// read or a failed read the session is writable only if it was before.
pub proof fn lemma_only_a_writable_event_raises_the_flag(
    session: SessionModel,
    text: Seq<char>,
    outcome: WriteOutcome,
    bytes: Seq<u8>,
    failure: IoFailure,
)
    ensures
        session.sent_text(text).0.writable() ==> session.writable(),
        session.written(text, outcome).0.writable() ==> session.writable(),
        session.received(bytes).0.writable() ==> session.writable(),
        session.read_failed(failure).0.writable() ==> session.writable(),
{
}

/// The end of the stream ends the session: a read of no bytes closes it, and
/// a closed session stays closed and answers every event with `Closed`, so
/// that no further read or write is asked for.
pub proof fn lemma_end_of_stream_is_final(
    session: SessionModel,
    bytes: Seq<u8>,
    text: Seq<char>,
    failure: IoFailure,
    outcome: WriteOutcome,
)
    ensures
        session.received(Seq::empty()) == (SessionModel::Closed, InboundModel::Closed),
        SessionModel::Closed.received(bytes) == (SessionModel::Closed, InboundModel::Closed),
        SessionModel::Closed.read_failed(failure) == (SessionModel::Closed, InboundModel::Closed),
        SessionModel::Closed.writable_event() == (SessionModel::Closed, OutboundModel::Closed),
        SessionModel::Closed.sent_text(text) == (SessionModel::Closed, OutboundModel::Closed),
        SessionModel::Closed.written(text, outcome) == (
            SessionModel::Closed,
            OutboundModel::Closed,
        ),
{
}

/// A would-block on a write loses nothing and doubles nothing: the message
/// goes back to where it was taken from, no write is asked for until the
/// transport is writable again, and the writable event then asks for the
/// same message.
pub proof fn lemma_would_block_retries_the_same_message(session: SessionModel, later: Seq<char>)
    requires
        session is Connected,
        session.writable_event().1 is Write,
    ensures
        ({
            let (taken, step) = session.writable_event();
            let text = step->Write_0;
            let (blocked, rest) = taken.written(text, WriteOutcome::Failed(IoFailure::WouldBlock));
            &&& rest == OutboundModel::Idle
            &&& blocked == (SessionModel::Connected {
                inbound: session->inbound,
                outbox: session->outbox.flagged(false),
            })
            &&& blocked.sent_text(later).1 == OutboundModel::Idle
            &&& blocked.writable_event() == (taken, OutboundModel::Write(text))
        }),
{
    let (taken, step) = session.writable_event();
    let blocked = taken.written(step->Write_0, WriteOutcome::Failed(IoFailure::WouldBlock)).0;
    assert(blocked->outbox.queue =~= session->outbox.queue);
}

/// An interrupted write is repeated at once with the same message, and the
/// session is as it was.
pub proof fn lemma_interrupted_write_is_repeated(session: SessionModel, text: Seq<char>)
    requires
        session is Connected,
    ensures
        session.written(text, WriteOutcome::Failed(IoFailure::Interrupted)) == (
            session,
            OutboundModel::Write(text),
        ),
{
}

/// Every text that is forwarded is the subtitle of one of the lines, and
/// lines that carry no subtitle forward nothing.
pub proof fn lemma_forwarded_texts_are_subtitles(lines: Seq<Seq<u8>>)
    ensures
        forall|text: Seq<char>| #[trigger]
            subtitles(lines).contains(text) ==> exists|i: int|
                0 <= i < lines.len() && subtitle_of(decode_utf8(#[trigger] lines[i])) == Some(
                    text,
                ),
        (forall|i: int|
            0 <= i < lines.len() ==> subtitle_of(decode_utf8(#[trigger] lines[i])) is None)
            ==> subtitles(lines) == Seq::<Seq<char>>::empty(),
    decreases lines.len(),
{
    let pick = |line: Seq<u8>| subtitle_of(decode_utf8(line));
    if lines.len() > 0 {
        let earlier = lines.drop_last();
        lemma_forwarded_texts_are_subtitles(earlier);
        assert forall|text: Seq<char>| #[trigger] subtitles(lines).contains(text) implies exists|
            i: int,
        |
            0 <= i < lines.len() && subtitle_of(decode_utf8(#[trigger] lines[i])) == Some(
                text,
            ) by {
            if subtitles(earlier).contains(text) {
                let i = choose|i: int|
                    0 <= i < earlier.len() && subtitle_of(decode_utf8(#[trigger] earlier[i]))
                        == Some(text);
                assert(lines[i] == earlier[i]);
            } else {
                let k = choose|k: int|
                    0 <= k < subtitles(lines).len() && subtitles(lines)[k] == text;
                assert(pick(lines.last()) == Some(text)) by {
                    if pick(lines.last()) is Some {
                        if k < subtitles(earlier).len() {
                            assert(subtitles(earlier)[k] == text);
                        }
                    }
                }
                assert(lines[lines.len() - 1] == lines.last());
            }
        }
        if forall|i: int|
            0 <= i < lines.len() ==> subtitle_of(decode_utf8(#[trigger] lines[i])) is None {
            assert(pick(lines.last()) is None);
            assert forall|i: int| 0 <= i < earlier.len() implies subtitle_of(
                decode_utf8(#[trigger] earlier[i]),
            ) is None by {
                assert(earlier[i] == lines[i]);
            }
        }
    }
}

/// What a connected session holds.
pub struct Link {
    inbound: Vec<u8>,
    outbox: Outbox,
}

/// The link to the media player.
pub enum Session {
    /// The transport is connected.
    Connected(Link),
    /// Terminal: the buffer and the queue are released.
    Closed,
}

impl View for Session {
    type V = SessionModel;

    closed spec fn view(&self) -> SessionModel {
        match self {
            Session::Connected(link) => SessionModel::Connected {
                inbound: link.inbound@,
                outbox: link.outbox@,
            },
            Session::Closed => SessionModel::Closed,
        }
    }
}

impl Session {
    /// The session for a transport that was just connected. The observe
    /// command is queued; it is written on the first writable event.
    pub fn open() -> (session: Session)
        ensures
            session@ == SessionModel::opened(),
    {
        let mut session = Session::Connected(Link { inbound: Vec::new(), outbox: Outbox::new() });
        session.send_text(Arc::new(OBSERVE_SUB_TEXT.to_owned()));
        session
    }

    /// Whether the session is still connected.
    pub fn is_connected(&self) -> (connected: bool)
        ensures
            connected == (self@ is Connected),
    {
        match self {
            Session::Connected(_) => true,
            Session::Closed => false,
        }
    }

    /// The number of messages that wait in the queue; zero when closed.
    pub fn pending(&self) -> (n: usize)
        ensures
            n == self@.queue().len(),
    {
        match self {
            Session::Connected(link) => link.outbox.len(),
            Session::Closed => 0,
        }
    }

    /// The number of bytes kept since the last complete line; zero when
    /// closed.
    pub fn buffered(&self) -> (n: usize)
        ensures
            n == self@.buffer().len(),
    {
        match self {
            Session::Connected(link) => link.inbound.len(),
            Session::Closed => 0,
        }
    }

    /// The write-readiness flag; `Unwritable` when closed.
    pub fn write_state(&self) -> (write: WriteState)
        ensures
            write.writable() == self@.writable(),
    {
        match self {
            Session::Connected(link) => link.outbox.write(),
            Session::Closed => WriteState::Unwritable,
        }
    }

    /// Takes the oldest message out of the queue for a write, if the session
    /// is writable.
    fn take(&mut self) -> (step: Outbound)
        ensures
            final(self)@ == old(self)@.taken().0,
            step@ == old(self)@.taken().1,
    {
        match self {
            Session::Connected(link) => {
                if link.outbox.write() == WriteState::Writable {
                    match link.outbox.pop() {
                        Some(message) => Outbound::Write(message),
                        None => Outbound::Idle,
                    }
                } else {
                    Outbound::Idle
                }
            },
            Session::Closed => Outbound::Closed,
        }
    }

    /// Queues `message` behind everything queued. If the session is writable
    /// the oldest message is to be written now.
    pub fn send_text(&mut self, message: Message) -> (step: Outbound)
        ensures
            final(self)@ == old(self)@.sent_text(message@).0,
            step@ == old(self)@.sent_text(message@).1,
    {
        match self {
            Session::Connected(link) => {
                link.outbox.push(message);
            },
            Session::Closed => {},
        }
        self.take()
    }

    /// A writable event: the flag goes up and the oldest message, if any, is
    /// to be written now. One message is written per event.
    pub fn on_writable(&mut self) -> (step: Outbound)
        ensures
            final(self)@ == old(self)@.writable_event().0,
            step@ == old(self)@.writable_event().1,
    {
        match self {
            Session::Connected(link) => {
                link.outbox.set_write(WriteState::Writable);
            },
            Session::Closed => {},
        }
        self.take()
    }

    /// Takes the result of writing `message`, which an earlier step handed
    /// out.
    pub fn on_write(&mut self, message: Message, outcome: WriteOutcome) -> (step: Outbound)
        ensures
            final(self)@ == old(self)@.written(message@, outcome).0,
            step@ == old(self)@.written(message@, outcome).1,
    {
        match self {
            Session::Connected(link) => match outcome {
                WriteOutcome::Written => Outbound::Idle,
                WriteOutcome::Failed(failure) => match failure {
                    IoFailure::WouldBlock => {
                        link.outbox.requeue(message);
                        link.outbox.set_write(WriteState::Unwritable);
                        Outbound::Idle
                    },
                    IoFailure::Interrupted => Outbound::Write(message),
                    IoFailure::WriteZero => {
                        *self = Session::Closed;
                        Outbound::Closed
                    },
                    _ => {
                        *self = Session::Closed;
                        Outbound::Failed
                    },
                },
            },
            Session::Closed => Outbound::Closed,
        }
    }

    /// Takes the bytes of one read. A read of no bytes is the end of the
    /// stream.
    pub fn on_bytes(&mut self, bytes: &[u8]) -> (step: Inbound)
        ensures
            final(self)@ == old(self)@.received(bytes@).0,
            step@ == old(self)@.received(bytes@).1,
    {
        match self {
            Session::Connected(link) => {
                if bytes.len() == 0 {
                    *self = Session::Closed;
                    return Inbound::Closed;
                }
                link.inbound.extend_from_slice(bytes);
                assert(link.inbound@ =~= old(self)@->inbound + bytes@);
                if !is_terminated(link.inbound.as_slice()) {
                    return Inbound::Again;
                }
                match subtitles_in(link.inbound.as_slice()) {
                    Some(messages) => {
                        link.inbound.clear();
                        Inbound::Forward(messages)
                    },
                    None => {
                        *self = Session::Closed;
                        Inbound::Failed(SessionFault::Encoding)
                    },
                }
            },
            Session::Closed => Inbound::Closed,
        }
    }

    /// Takes the failure of one read.
    pub fn on_read_failed(&mut self, failure: IoFailure) -> (step: Inbound)
        ensures
            final(self)@ == old(self)@.read_failed(failure).0,
            step@ == old(self)@.read_failed(failure).1,
    {
        match self {
            Session::Connected(_) => match failure {
                IoFailure::WouldBlock => Inbound::Wait,
                IoFailure::Interrupted => Inbound::Again,
                _ => {
                    *self = Session::Closed;
                    Inbound::Failed(SessionFault::Transport)
                },
            },
            Session::Closed => Inbound::Closed,
        }
    }
}

} // verus!
