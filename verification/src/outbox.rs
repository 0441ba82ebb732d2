//! The per-connection queue of outbound messages and its write-readiness
//! flag.

use crate::transport::WriteState;
use std::collections::VecDeque;
use std::sync::Arc;
use vstd::prelude::*;

verus! {

/// An outbound text payload. One allocation is shared by every queue that
/// holds the message.
pub type Message = Arc<String>;

/// The texts of a sequence of messages, in order.
pub open spec fn texts(messages: Seq<Message>) -> Seq<Seq<char>> {
    messages.map_values(|m: Message| m@)
}

/// The text of an optional message.
pub open spec fn text_of(message: Option<Message>) -> Option<Seq<char>> {
    match message {
        Some(m) => Some(m@),
        None => None,
    }
}

/// Mathematical model of an [`Outbox`]: the queued texts, oldest first, and
/// the write-readiness flag.
pub struct OutboxModel {
    pub queue: Seq<Seq<char>>,
    pub writable: bool,
}

impl OutboxModel {
    /// An empty queue that waits for its first writable event.
    pub open spec fn empty() -> OutboxModel {
        OutboxModel { queue: Seq::empty(), writable: false }
    }

    /// The model with `text` appended behind everything already queued.
    pub open spec fn pushed(self, text: Seq<char>) -> OutboxModel {
        OutboxModel { queue: self.queue.push(text), ..self }
    }

    /// The model with `text` put back in front of everything queued.
    pub open spec fn requeued(self, text: Seq<char>) -> OutboxModel {
        OutboxModel { queue: seq![text] + self.queue, ..self }
    }

    /// The model without its oldest message; unchanged when nothing is
    /// queued.
    pub open spec fn popped(self) -> OutboxModel {
        if self.queue.len() > 0 {
            OutboxModel { queue: self.queue.drop_first(), ..self }
        } else {
            self
        }
    }

    /// The oldest queued text, if any.
    pub open spec fn front(self) -> Option<Seq<char>> {
        if self.queue.len() > 0 {
            Some(self.queue[0])
        } else {
            None
        }
    }

    /// The model with its flag set to `writable`.
    pub open spec fn flagged(self, writable: bool) -> OutboxModel {
        OutboxModel { writable, ..self }
    }
}

/// A FIFO queue of outbound messages with the write-readiness flag of the
/// transport it feeds.
pub struct Outbox {
    queue: VecDeque<Message>,
    write: WriteState,
}

impl View for Outbox {
    type V = OutboxModel;

    closed spec fn view(&self) -> OutboxModel {
        OutboxModel { queue: texts(self.queue@), writable: self.write.writable() }
    }
}

impl Outbox {
    /// An empty outbox, not yet writable.
    pub fn new() -> (outbox: Outbox)
        ensures
            outbox@ == OutboxModel::empty(),
    {
        let outbox = Outbox { queue: VecDeque::new(), write: WriteState::Unwritable };
        assert(texts(outbox.queue@) =~= Seq::<Seq<char>>::empty());
        outbox
    }

    /// Appends `message` behind everything already queued.
    pub fn push(&mut self, message: Message)
        ensures
            final(self)@ == old(self)@.pushed(message@),
    {
        self.queue.push_back(message);
        assert(texts(self.queue@) =~= texts(old(self).queue@).push(message@));
    }

    /// Puts `message` back in front of everything queued.
    pub fn requeue(&mut self, message: Message)
        ensures
            final(self)@ == old(self)@.requeued(message@),
    {
        self.queue.push_front(message);
        assert(texts(self.queue@) =~= seq![message@] + texts(old(self).queue@));
    }

    /// Removes and returns the oldest message.
    pub fn pop(&mut self) -> (message: Option<Message>)
        ensures
            final(self)@ == old(self)@.popped(),
            text_of(message) == old(self)@.front(),
    {
        let message = self.queue.pop_front();
        assert(texts(self.queue@) =~= old(self)@.popped().queue);
        message
    }

    /// Sets the write-readiness flag.
    pub fn set_write(&mut self, write: WriteState)
        ensures
            final(self)@ == old(self)@.flagged(write.writable()),
    {
        self.write = write;
    }

    /// The write-readiness flag.
    pub fn write(&self) -> (write: WriteState)
        ensures
            write.writable() == self@.writable,
    {
        self.write
    }

    /// The number of queued messages.
    pub fn len(&self) -> (n: usize)
        ensures
            n == self@.queue.len(),
    {
        self.queue.len()
    }
}

} // verus!
