//! The queue behind the wake channel.
//!
//! A wake channel carries items from any thread to the one event loop that
//! owns its receiver, and wakes that loop when an item arrives. This module
//! holds what the channel decides: the bounded first-in first-out queue,
//! whether a send has to wake the poller, and whether a registration has to
//! create a waker. The caller guards the queue with a lock and owns the
//! waker itself.

use std::collections::VecDeque;
use vstd::prelude::*;

verus! {

/// Why a send was refused. The item comes back to the sender.
#[derive(Debug, PartialEq, Eq)]
pub enum Refused<T> {
    /// The receiver is gone.
    Disconnected(T),
    /// The queue holds as many items as its bound allows.
    Full(T),
}

/// Mathematical model of a [`WakeQueue`].
pub struct WakeQueueModel<T> {
    /// The queued items, oldest first.
    pub items: Seq<T>,
    /// The number of items that the queue may hold.
    pub bound: nat,
    /// Whether a waker is attached.
    pub attached: bool,
    /// Whether the receiver still exists.
    pub connected: bool,
}

impl<T> WakeQueueModel<T> {
    /// An empty queue with a receiver and without a waker.
    pub open spec fn empty(bound: nat) -> WakeQueueModel<T> {
        WakeQueueModel { items: Seq::empty(), bound, attached: false, connected: true }
    }

    /// Whether a send is taken: the receiver exists and there is room.
    pub open spec fn takes(self) -> bool {
        self.connected && self.items.len() < self.bound
    }

    /// The queue after a send of `item`.
    pub open spec fn sent(self, item: T) -> WakeQueueModel<T> {
        if self.takes() {
            WakeQueueModel { items: self.items.push(item), ..self }
        } else {
            self
        }
    }

    /// The queue after a receive.
    pub open spec fn received(self) -> WakeQueueModel<T> {
        if self.items.len() > 0 {
            WakeQueueModel { items: self.items.drop_first(), ..self }
        } else {
            self
        }
    }

    /// The queue with the waker attached or detached.
    pub open spec fn with_waker(self, attached: bool) -> WakeQueueModel<T> {
        WakeQueueModel { attached, ..self }
    }

    /// The queue after the receiver is gone: what was queued is dropped, and
    /// with the receiver goes its waker.
    pub open spec fn disconnected(self) -> WakeQueueModel<T> {
        WakeQueueModel { items: Seq::empty(), attached: false, connected: false, ..self }
    }

    /// The queue after each of `items` was sent in turn.
    pub open spec fn sent_all(self, items: Seq<T>) -> WakeQueueModel<T>
        decreases items.len(),
    {
        if items.len() == 0 {
            self
        } else {
            self.sent_all(items.drop_last()).sent(items.last())
        }
    }
}

/// Items leave the queue in the order in which they were sent: as long as
/// there is room for all of them, sending them in turn puts them behind what
/// is queued, in their order.
pub proof fn lemma_items_keep_the_order_of_sends<T>(queue: WakeQueueModel<T>, items: Seq<T>)
    requires
        queue.connected,
        queue.items.len() + items.len() <= queue.bound,
    ensures
        queue.sent_all(items) == (WakeQueueModel { items: queue.items + items, ..queue }),
    decreases items.len(),
{
    if items.len() == 0 {
        assert(queue.items + items =~= queue.items);
    } else {
        lemma_items_keep_the_order_of_sends(queue, items.drop_last());
        assert((queue.items + items.drop_last()).push(items.last()) =~= queue.items + items);
    }
}

/// A bounded first-in first-out queue that knows whether the poller of its
/// receiver is to be woken.
pub struct WakeQueue<T> {
    items: VecDeque<T>,
    bound: usize,
    attached: bool,
    connected: bool,
}

impl<T> View for WakeQueue<T> {
    type V = WakeQueueModel<T>;

    closed spec fn view(&self) -> WakeQueueModel<T> {
        WakeQueueModel {
            items: self.items@,
            bound: self.bound as nat,
            attached: self.attached,
            connected: self.connected,
        }
    }
}

impl<T> WakeQueue<T> {
    /// An empty queue for at most `bound` items.
    pub fn new(bound: u32) -> (queue: WakeQueue<T>)
        ensures
            queue@ == WakeQueueModel::<T>::empty(bound as nat),
    {
        WakeQueue { items: VecDeque::new(), bound: bound as usize, attached: false, connected: true }
    }

    /// The number of queued items.
    pub fn len(&self) -> (n: usize)
        ensures
            n == self@.items.len(),
    {
        self.items.len()
    }

    /// Whether a waker is attached.
    pub fn is_attached(&self) -> (attached: bool)
        ensures
            attached == self@.attached,
    {
        self.attached
    }

    /// Whether the receiver still exists.
    pub fn is_connected(&self) -> (connected: bool)
        ensures
            connected == self@.connected,
    {
        self.connected
    }

    /// Queues `item` behind everything queued. Returns whether the poller has
    /// to be woken: exactly when a waker is attached. The item comes back if
    /// the receiver is gone or the queue is full.
    pub fn send(&mut self, item: T) -> (wake: Result<bool, Refused<T>>)
        ensures
            final(self)@ == old(self)@.sent(item),
            wake == if !old(self)@.connected {
                Err::<bool, Refused<T>>(Refused::Disconnected(item))
            } else if old(self)@.items.len() >= old(self)@.bound {
                Err::<bool, Refused<T>>(Refused::Full(item))
            } else {
                Ok::<bool, Refused<T>>(old(self)@.attached)
            },
    {
        if !self.connected {
            Err(Refused::Disconnected(item))
        } else if self.items.len() >= self.bound {
            Err(Refused::Full(item))
        } else {
            self.items.push_back(item);
            Ok(self.attached)
        }
    }

    /// Takes the oldest item, or returns `None` if the queue is empty.
    pub fn try_recv(&mut self) -> (item: Option<T>)
        ensures
            final(self)@ == old(self)@.received(),
            item == if old(self)@.items.len() > 0 {
                Some(old(self)@.items[0])
            } else {
                None
            },
    {
        let item = self.items.pop_front();
        assert(self.items@ =~= old(self)@.received().items);
        item
    }

    /// Registers the receiver with a poller. Returns whether the caller has
    /// to create a waker: only if none is attached yet.
    pub fn attach(&mut self) -> (create: bool)
        ensures
            final(self)@ == old(self)@.with_waker(true),
            create == !old(self)@.attached,
    {
        let create = !self.attached;
        self.attached = true;
        create
    }

    /// Takes the receiver out of its poller: later sends queue without a
    /// wake.
    pub fn detach(&mut self)
        ensures
            final(self)@ == old(self)@.with_waker(false),
    {
        self.attached = false;
    }

    /// Records that the receiver is gone. What is queued is dropped, and
    /// every later send is refused.
    pub fn disconnect(&mut self)
        ensures
            final(self)@ == old(self)@.disconnected(),
    {
        self.items.clear();
        self.attached = false;
        self.connected = false;
    }
}

} // verus!
