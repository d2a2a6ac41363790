//! Collections with contracts of their own.

pub mod queue;
