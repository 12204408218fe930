//! Futures-aware channels.

pub mod mpsc;
pub mod sender_task;
