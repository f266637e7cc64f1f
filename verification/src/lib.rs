//! A render-graph engine for block-based audio processing.
//!
//! A control thread builds a graph of processing nodes and automates their
//! parameters; a render thread processes the graph one quantum of 128
//! frames at a time. The two meet only at bounded queues, on which neither
//! ever waits.
//!
//! Samples travel through the engine as the IEEE-754 bit patterns of their
//! single-precision values: the engine routes, orders and schedules blocks
//! of samples but never does arithmetic on them.
//!
//! - [`buffer`]: the block of samples that flows along a connection.
//! - [`mixing`]: channel configurations, and what each channel of a mix is
//!   made of.
//! - [`param`]: the timeline of an automated parameter.
//! - [`render`]: the graph, its processing order, and the two ends of the
//!   bridge between the threads.
//! - [`media`]: capture and playback at the edge of the graph.
//! - [`node`]: what the engine has to know of particular node types.
//! - [`channel`]: the queues that join the threads.

pub mod buffer;
pub mod channel;
pub mod error;
pub mod media;
pub mod mixing;
pub mod node;
pub mod param;
pub mod render;

use vstd::prelude::*;

verus! {

/// Number of frames in one render quantum.
pub const RENDER_QUANTUM_SIZE: usize = 128;

/// Largest number of channels a buffer or a node may carry.
pub const MAX_CHANNELS: usize = 32;

} // verus!
