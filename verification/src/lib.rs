//! Channels for message passing: a bounded futures-aware MPSC channel, a timer
//! channel that materialises one message at a deadline, a fan-out helper, and
//! the FIFO queues they are built on.
//!
//! Every channel here is the sequential state of a channel: each method is one
//! step of the protocol, taking what the step observed (the current task, the
//! current time) as arguments and returning what must be done outside (which
//! tasks to wake) as values.

pub mod broadcast;
pub mod err;
pub mod flavors;
pub mod futures;
