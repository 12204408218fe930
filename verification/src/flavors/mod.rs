//! The kinds of channels.

pub mod after;
pub mod queue;
