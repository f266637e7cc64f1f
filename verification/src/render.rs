//! The render graph: topology, processing order and the per-quantum loop.

pub mod control;
pub mod elimination;
pub mod graph;
pub mod order;
pub mod reach;
pub mod thread;
pub mod topology;
