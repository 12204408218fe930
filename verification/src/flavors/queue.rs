//! A FIFO message queue, bounded or unbounded, that can be disconnected.
//!
//! A bounded queue refuses a message when it holds as many messages as its
//! capacity. Once disconnected, a queue refuses every message but still hands
//! out the messages it holds, in order, before reporting the disconnection.

use std::collections::VecDeque;
use vstd::prelude::*;

use crate::err::{SendError, TryRecvError, TrySendError};

verus! {

/// The contents of a queue.
pub struct QueueView<T> {
    /// The messages held, oldest first.
    pub items: Seq<T>,
    /// The capacity, or `None` for an unbounded queue.
    pub cap: Option<nat>,
    /// The queue has been disconnected.
    pub disconnected: bool,
}

impl<T> QueueView<T> {
    /// The queue holds no more messages than its capacity.
    pub open spec fn wf(self) -> bool {
        self.cap is Some ==> self.items.len() <= self.cap->0
    }

    /// The queue holds as many messages as its capacity.
    pub open spec fn is_full(self) -> bool {
        self.cap is Some && self.items.len() >= self.cap->0
    }

    /// The same queue holding `items`.
    pub open spec fn with_items(self, items: Seq<T>) -> QueueView<T> {
        QueueView { items, ..self }
    }
}

/// Offering `item` to a queue: refused when disconnected, refused when full,
/// else appended at the back.
pub open spec fn spec_try_send<T>(q: QueueView<T>, item: T) -> (QueueView<T>, Result<(), TrySendError<T>>) {
    if q.disconnected {
        (q, Err(TrySendError::Disconnected(item)))
    } else if q.is_full() {
        (q, Err(TrySendError::Full(item)))
    } else {
        (q.with_items(q.items.push(item)), Ok(()))
    }
}

/// Taking the oldest message from a queue: held messages come first, even
/// once the queue is disconnected.
pub open spec fn spec_try_recv<T>(q: QueueView<T>) -> (QueueView<T>, Result<T, TryRecvError>) {
    if q.items.len() > 0 {
        (q.with_items(q.items.drop_first()), Ok(q.items[0]))
    } else if q.disconnected {
        (q, Err(TryRecvError::Disconnected))
    } else {
        (q, Err(TryRecvError::Empty))
    }
}

/// Disconnecting a queue; the flag says whether this call disconnected it.
pub open spec fn spec_disconnect<T>(q: QueueView<T>) -> (QueueView<T>, bool) {
    (QueueView { disconnected: true, ..q }, !q.disconnected)
}

/// A FIFO message queue, bounded or unbounded.
pub struct Queue<T> {
    items: VecDeque<T>,
    cap: Option<usize>,
    disconnected: bool,
}

impl<T> View for Queue<T> {
    type V = QueueView<T>;

    closed spec fn view(&self) -> QueueView<T> {
        QueueView {
            items: self.items@,
            cap: match self.cap {
                Some(c) => Some(c as nat),
                None => None,
            },
            disconnected: self.disconnected,
        }
    }
}

impl<T> Queue<T> {
    /// The queue holds no more messages than its capacity.
    pub open spec fn wf(&self) -> bool {
        self@.wf()
    }

    /// An empty, connected queue that holds at most `cap` messages.
    pub fn with_capacity(cap: usize) -> (q: Queue<T>)
        ensures
            q@ == (QueueView::<T> { items: Seq::empty(), cap: Some(cap as nat), disconnected: false }),
    {
        Queue { items: VecDeque::new(), cap: Some(cap), disconnected: false }
    }

    /// An empty, connected queue without a bound.
    pub fn new() -> (q: Queue<T>)
        ensures
            q@ == (QueueView::<T> { items: Seq::empty(), cap: None, disconnected: false }),
    {
        Queue { items: VecDeque::new(), cap: None, disconnected: false }
    }

    /// The number of messages held.
    pub fn len(&self) -> (n: usize)
        ensures
            n == self@.items.len(),
    {
        self.items.len()
    }

    /// The message at position `i`, counting from the oldest.
    pub fn get(&self, i: usize) -> (m: &T)
        requires
            i < self@.items.len(),
        ensures
            *m == self@.items[i as int],
    {
        &self.items[i]
    }

    /// The capacity, or `None` for an unbounded queue.
    pub fn capacity(&self) -> (c: Option<usize>)
        ensures
            c is Some == self@.cap is Some,
            c is Some ==> c->0 == self@.cap->0,
    {
        self.cap
    }

    /// The queue holds as many messages as its capacity.
    pub fn is_full(&self) -> (b: bool)
        ensures
            b == self@.is_full(),
    {
        match self.cap {
            Some(c) => self.items.len() >= c,
            None => false,
        }
    }

    /// The queue has been disconnected.
    pub fn is_disconnected(&self) -> (b: bool)
        ensures
            b == self@.disconnected,
    {
        self.disconnected
    }

    /// Disconnects the queue; returns `true` when this call disconnected it.
    pub fn disconnect(&mut self) -> (b: bool)
        requires
            old(self).wf(),
        ensures
            final(self).wf(),
            (final(self)@, b) == spec_disconnect(old(self)@),
    {
        let was = self.disconnected;
        self.disconnected = true;
        !was
    }

    /// Offers `item` without blocking.
    pub fn try_send(&mut self, item: T) -> (r: Result<(), TrySendError<T>>)
        requires
            old(self).wf(),
        ensures
            final(self).wf(),
            (final(self)@, r) == spec_try_send(old(self)@, item),
    {
        if self.disconnected {
            Err(TrySendError::Disconnected(item))
        } else if self.is_full() {
            Err(TrySendError::Full(item))
        } else {
            self.items.push_back(item);
            Ok(())
        }
    }

    /// Sends `item` to a queue with room for it; fails only when the queue is
    /// disconnected.
    pub fn send(&mut self, item: T) -> (r: Result<(), SendError<T>>)
        requires
            old(self).wf(),
            !old(self)@.is_full(),
        ensures
            final(self).wf(),
            final(self)@ == spec_try_send(old(self)@, item).0,
            r == (if old(self)@.disconnected {
                Err(SendError(item))
            } else {
                Ok::<(), SendError<T>>(())
            }),
    {
        match self.try_send(item) {
            Ok(()) => Ok(()),
            Err(TrySendError::Disconnected(item)) => Err(SendError(item)),
            Err(TrySendError::Full(item)) => {
                assert(false);
                Err(SendError(item))
            },
        }
    }

    /// Takes the oldest message without blocking.
    pub fn try_recv(&mut self) -> (r: Result<T, TryRecvError>)
        requires
            old(self).wf(),
        ensures
            final(self).wf(),
            (final(self)@, r) == spec_try_recv(old(self)@),
    {
        match self.items.pop_front() {
            Some(item) => Ok(item),
            None => {
                if self.disconnected {
                    Err(TryRecvError::Disconnected)
                } else {
                    Err(TryRecvError::Empty)
                }
            },
        }
    }
}

/// First in, first out: a message offered to a queue that accepts it goes to
/// the back, and the next message taken is the oldest one held before it, or
/// this message when none was held.
pub proof fn lemma_fifo<T>(q: QueueView<T>, item: T)
    requires
        q.wf(),
        !q.disconnected,
        !q.is_full(),
    ensures
        spec_try_send(q, item).1 is Ok,
        spec_try_recv(spec_try_send(q, item).0).1 == (if q.items.len() > 0 {
            Ok::<T, TryRecvError>(q.items[0])
        } else {
            Ok::<T, TryRecvError>(item)
        }),
        q.items.len() > 0 ==> spec_try_recv(spec_try_send(q, item).0).0 == spec_try_send(
            spec_try_recv(q).0,
            item,
        ).0,
        q.items.len() == 0 ==> spec_try_recv(spec_try_send(q, item).0).0 == q,
{
    let s = spec_try_send(q, item).0;
    assert(s.items[0] == (if q.items.len() > 0 { q.items[0] } else { item }));
    if q.items.len() > 0 {
        assert(s.items.drop_first() =~= q.items.drop_first().push(item));
    } else {
        assert(s.items.drop_first() =~= q.items);
    }
}

/// A bounded queue never holds more messages than its capacity: every step
/// keeps that, and a full queue refuses a message that a connected queue
/// with room accepts.
pub proof fn lemma_capacity_respected<T>(q: QueueView<T>, item: T)
    requires
        q.wf(),
    ensures
        spec_try_send(q, item).0.wf(),
        spec_try_recv(q).0.wf(),
        spec_disconnect(q).0.wf(),
        !q.disconnected ==> (spec_try_send(q, item).1 matches Err(TrySendError::Full(_))
            <==> q.is_full()),
{
}

/// Disconnection is final and drains: a disconnected queue refuses every
/// message and stays disconnected, and hands out what it holds, oldest first,
/// before reporting the disconnection.
pub proof fn lemma_disconnect_drains<T>(q: QueueView<T>, item: T)
    requires
        q.disconnected,
    ensures
        spec_try_send(q, item) == (q, Err::<(), TrySendError<T>>(TrySendError::Disconnected(item))),
        spec_try_recv(q).0.disconnected,
        spec_disconnect(q) == (q, false),
        q.items.len() > 0 ==> spec_try_recv(q).1 == Ok::<T, TryRecvError>(q.items[0]),
        q.items.len() == 0 ==> spec_try_recv(q).1 == Err::<T, TryRecvError>(
            TryRecvError::Disconnected,
        ),
{
    assert(spec_disconnect(q).0 == q);
}

/// Taking from a queue reports, with the queue left as it is, `Empty` when it
/// holds nothing and is connected, and `Disconnected` when it holds nothing
/// and is disconnected, bounded or not; when it holds messages, it hands out
/// the oldest and keeps the rest, in order.
pub proof fn lemma_try_recv_outcomes<T>(q: QueueView<T>)
    ensures
        q.items.len() == 0 && !q.disconnected ==> spec_try_recv(q) == (q, Err::<T, TryRecvError>(
            TryRecvError::Empty,
        )),
        q.items.len() == 0 && q.disconnected ==> spec_try_recv(q) == (q, Err::<T, TryRecvError>(
            TryRecvError::Disconnected,
        )),
        q.items.len() > 0 ==> spec_try_recv(q).1 == Ok::<T, TryRecvError>(q.items[0])
            && spec_try_recv(q).0.items == q.items.subrange(1, q.items.len() as int)
            && spec_try_recv(q).0.cap == q.cap && spec_try_recv(q).0.disconnected
            == q.disconnected,
{
}

/// Offering to a connected queue with room appends exactly that message and
/// changes nothing else; a refused message is handed back and the queue is
/// left as it is.
pub proof fn lemma_try_send_outcomes<T>(q: QueueView<T>, item: T)
    ensures
        !q.disconnected && !q.is_full() ==> spec_try_send(q, item).1 is Ok
            && spec_try_send(q, item).0.items == q.items.push(item) && spec_try_send(q, item).0.cap
            == q.cap && !spec_try_send(q, item).0.disconnected,
        spec_try_send(q, item).1 is Err ==> spec_try_send(q, item).0 == q,
        spec_try_send(q, item).1 == Err::<(), TrySendError<T>>(TrySendError::Full(item)) <==> (
        !q.disconnected && q.is_full()),
        spec_try_send(q, item).1 == Err::<(), TrySendError<T>>(TrySendError::Disconnected(item))
            <==> q.disconnected,
{
}

} // verus!
