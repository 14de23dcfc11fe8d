//! Synchronization primitives, as far as they decide anything.

pub mod concurrent_queue;
pub mod park;
