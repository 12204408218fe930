//! Errors returned by channel operations.

use vstd::prelude::*;

verus! {

/// A message could not be sent because the channel is disconnected; the
/// message is handed back.
#[derive(Debug, PartialEq, Eq)]
pub struct SendError<T>(pub T);

/// A message could not be sent without blocking; the message is handed back.
#[derive(Debug, PartialEq, Eq)]
pub enum TrySendError<T> {
    /// The channel is full.
    Full(T),
    /// The channel is disconnected.
    Disconnected(T),
}

/// A message could not be received without blocking.
#[derive(Debug, PartialEq, Eq, Clone, Copy)]
pub enum TryRecvError {
    /// The channel holds no message right now.
    Empty,
    /// The channel holds no message and is disconnected.
    Disconnected,
}

/// Outcome of a receive attempt that does not block.
#[derive(Debug, PartialEq, Eq)]
pub enum RecvNonblocking<T> {
    /// A message was received.
    Message(T),
    /// No message is available right now.
    Empty,
    /// The channel is closed.
    Closed,
}

/// Readiness of an asynchronous operation.
#[derive(Debug, PartialEq, Eq)]
pub enum Async<T> {
    /// The operation completed with this value.
    Ready(T),
    /// The operation cannot complete yet; the current task will be woken.
    NotReady,
}

/// Outcome of offering an item to a sink.
#[derive(Debug, PartialEq, Eq)]
pub enum AsyncSink<T> {
    /// The item was accepted.
    Ready,
    /// The item was not accepted yet and is handed back.
    NotReady(T),
}

} // verus!
