//! Capture and playback at the edge of the graph.

pub mod mic;
pub mod output;
