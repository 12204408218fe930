//! Channel that delivers a message after a certain amount of time.
//!
//! Messages cannot be sent into this kind of channel; the single message is
//! materialised on demand once the deadline has passed, and it is the
//! deadline itself. Times are points of a monotonic clock counted in
//! nanoseconds from an origin that the caller chooses; every operation that
//! looks at the clock takes the current time as an argument.

use vstd::prelude::*;

use crate::err::RecvNonblocking;

verus! {

/// The state of a timer channel.
pub struct AfterView {
    /// The instant at which the message is delivered.
    pub deadline: u128,
    /// The message has been received.
    pub received: bool,
}

/// What a blocking receive must do next.
#[derive(Debug, PartialEq, Eq, Clone, Copy)]
pub enum RecvStep {
    /// Sleep this many nanoseconds, then ask again.
    Wait(u128),
    /// The message, the instant at which it was "sent", is received.
    Deliver(u128),
    /// The message was received already: block forever.
    BlockForever,
}

/// The part of a select token that a timer channel fills in.
#[derive(Debug, PartialEq, Eq, Clone, Copy)]
pub struct Token {
    /// The message a selected timer channel delivered, or `None` when it
    /// reported itself closed.
    pub after: Option<u128>,
}

/// Receiving without blocking: nothing once received or before the deadline;
/// otherwise the message, which is the deadline, and it is received.
pub open spec fn spec_recv_nonblocking(c: AfterView, now: u128) -> (AfterView, RecvNonblocking<u128>) {
    if c.received || now < c.deadline {
        (c, RecvNonblocking::Empty)
    } else {
        (AfterView { received: true, ..c }, RecvNonblocking::Message(c.deadline))
    }
}

/// One step of a blocking receive at time `now`.
pub open spec fn spec_recv(c: AfterView, now: u128) -> (AfterView, RecvStep) {
    if c.received {
        (c, RecvStep::BlockForever)
    } else if now < c.deadline {
        (c, RecvStep::Wait((c.deadline - now) as u128))
    } else {
        (AfterView { received: true, ..c }, RecvStep::Deliver(c.deadline))
    }
}

/// The channel holds no message at time `now`.
pub open spec fn spec_is_empty(c: AfterView, now: u128) -> bool {
    c.received || now < c.deadline
}

/// A channel that delivers one message at a deadline.
pub struct Channel {
    deadline: u128,
    received: bool,
}

impl View for Channel {
    type V = AfterView;

    closed spec fn view(&self) -> AfterView {
        AfterView { deadline: self.deadline, received: self.received }
    }
}

impl Channel {
    /// Creates a channel that delivers a message `dur` nanoseconds after
    /// `now`.
    pub fn new(now: u128, dur: u128) -> (c: Channel)
        requires
            now + dur <= u128::MAX,
        ensures
            c@ == (AfterView { deadline: (now + dur) as u128, received: false }),
    {
        Channel { deadline: now + dur, received: false }
    }

    /// One step of a blocking receive at time `now`: wait until the deadline,
    /// then deliver the message once; a channel whose message was received
    /// blocks forever.
    pub fn recv(&mut self, now: u128) -> (r: RecvStep)
        ensures
            (final(self)@, r) == spec_recv(old(self)@, now),
    {
        if self.received {
            // The message was already received.
            return RecvStep::BlockForever;
        }
        if now < self.deadline {
            return RecvStep::Wait(self.deadline - now);
        }
        // Consume the message: it is the instant at which it was "sent".
        self.received = true;
        RecvStep::Deliver(self.deadline)
    }

    /// Attempts to receive the message without blocking.
    pub fn recv_nonblocking(&mut self, now: u128) -> (r: RecvNonblocking<u128>)
        ensures
            (final(self)@, r) == spec_recv_nonblocking(old(self)@, now),
    {
        if self.received {
            // The message was already received.
            return RecvNonblocking::Empty;
        }
        if now < self.deadline {
            // The message was not "sent" yet.
            return RecvNonblocking::Empty;
        }
        self.received = true;
        RecvNonblocking::Message(self.deadline)
    }

    /// Reads the message that a successful selection left in the token.
    pub fn read(&self, token: &Token) -> (m: Option<u128>)
        ensures
            m == token.after,
    {
        token.after
    }

    /// The channel holds no message at time `now`.
    pub fn is_empty(&self, now: u128) -> (b: bool)
        ensures
            b == spec_is_empty(self@, now),
    {
        if self.received {
            return true;
        }
        // The deadline hasn't been reached yet.
        now < self.deadline
    }

    /// The number of messages in the channel at time `now`.
    pub fn len(&self, now: u128) -> (n: usize)
        ensures
            n == (if spec_is_empty(self@, now) {
                0usize
            } else {
                1usize
            }),
    {
        if self.is_empty(now) {
            0
        } else {
            1
        }
    }

    /// The capacity of the channel: one message.
    pub fn capacity(&self) -> (c: Option<usize>)
        ensures
            c == Some(1usize),
    {
        Some(1)
    }

    /// Tries to complete a selection at time `now`: a delivered message is
    /// put in the token.
    pub fn try_select(&mut self, token: &mut Token, now: u128) -> (b: bool)
        ensures
            final(self)@ == spec_recv_nonblocking(old(self)@, now).0,
            b == (spec_recv_nonblocking(old(self)@, now).1 is Message),
            b ==> final(token).after == Some(old(self)@.deadline),
            !b ==> *final(token) == *old(token),
    {
        match self.recv_nonblocking(now) {
            RecvNonblocking::Message(msg) => {
                token.after = Some(msg);
                true
            },
            RecvNonblocking::Closed => {
                token.after = None;
                true
            },
            RecvNonblocking::Empty => false,
        }
    }

    /// Retries a selection; the same as a first try.
    pub fn retry(&mut self, token: &mut Token, now: u128) -> (b: bool)
        ensures
            final(self)@ == spec_recv_nonblocking(old(self)@, now).0,
            b == (spec_recv_nonblocking(old(self)@, now).1 is Message),
            b ==> final(token).after == Some(old(self)@.deadline),
            !b ==> *final(token) == *old(token),
    {
        self.try_select(token, now)
    }

    /// Accepts a selection; the same as a try.
    pub fn accept(&mut self, token: &mut Token, now: u128) -> (b: bool)
        ensures
            final(self)@ == spec_recv_nonblocking(old(self)@, now).0,
            b == (spec_recv_nonblocking(old(self)@, now).1 is Message),
            b ==> final(token).after == Some(old(self)@.deadline),
            !b ==> *final(token) == *old(token),
    {
        self.try_select(token, now)
    }

    /// The instant at which a selection on this channel can complete.
    pub fn deadline(&self) -> (d: Option<u128>)
        ensures
            d == Some(self@.deadline),
    {
        Some(self.deadline)
    }

    /// Registers a selection; a timer channel needs no wake-up, so the
    /// selection may go on.
    pub fn register(&self, token: &mut Token) -> (b: bool)
        ensures
            b,
            *final(token) == *old(token),
    {
        true
    }

    /// Unregisters a selection; nothing to undo.
    pub fn unregister(&self) {
    }

    /// The state of the channel for a selection at time `now`: 1 once the
    /// deadline has been reached or the message received, 0 before.
    pub fn state(&self, now: u128) -> (s: usize)
        ensures
            s == (if self@.received || now >= self@.deadline {
                1usize
            } else {
                0usize
            }),
    {
        if self.received {
            1
        } else if now < self.deadline {
            0
        } else {
            1
        }
    }
}

/// The message is delivered at most once: after it has been received, every
/// non-blocking receive finds the channel empty, every blocking receive
/// blocks forever, and the channel stays empty and unchanged.
pub proof fn lemma_delivered_at_most_once(c: AfterView, now: u128, later: u128)
    ensures
        spec_recv_nonblocking(c, now).1 is Message ==> spec_recv_nonblocking(
            spec_recv_nonblocking(c, now).0,
            later,
        ).1 == RecvNonblocking::<u128>::Empty,
        spec_recv(c, now).1 is Deliver ==> spec_recv(spec_recv(c, now).0, later).1
            == RecvStep::BlockForever,
        spec_recv(c, now).1 is Deliver ==> spec_recv_nonblocking(spec_recv(c, now).0, later).1
            == RecvNonblocking::<u128>::Empty,
        c.received ==> spec_recv_nonblocking(c, later) == (c, RecvNonblocking::<u128>::Empty),
        c.received ==> spec_is_empty(c, later),
{
}

/// Nothing is delivered before the deadline, and at or after the deadline the
/// undelivered message is the deadline itself; a blocking receive before the
/// deadline waits exactly until it.
pub proof fn lemma_delivered_at_deadline(c: AfterView, now: u128)
    requires
        !c.received,
    ensures
        now < c.deadline ==> spec_recv_nonblocking(c, now) == (c, RecvNonblocking::<u128>::Empty),
        now < c.deadline ==> spec_recv(c, now) == (c, RecvStep::Wait((c.deadline - now) as u128)),
        now < c.deadline ==> now + (c.deadline - now) == c.deadline,
        now >= c.deadline ==> spec_recv_nonblocking(c, now).1 == RecvNonblocking::Message(
            c.deadline,
        ),
        now >= c.deadline ==> spec_recv(c, now).1 == RecvStep::Deliver(c.deadline),
        now >= c.deadline ==> !spec_is_empty(c, now),
{
}

} // verus!
