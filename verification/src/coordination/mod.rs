//! Coordination among agents sharing one work queue.
pub mod frontier;
