//! Errors reported to the control thread at the call site.

use vstd::prelude::*;

verus! {

/// A request that the engine refuses before anything reaches the render
/// thread.
#[derive(Clone, Copy, Debug, PartialEq, Eq, Structural)]
pub enum ConfigurationError {
    /// A channel count outside `1..=MAX_CHANNELS`.
    InvalidChannelCount,
    /// A parameter whose default is not between its smallest and its
    /// largest value.
    InvalidParamRange,
    /// A connection names a node that is not in the graph, or a port that
    /// the node does not have.
    UnknownEndpoint,
}

} // verus!
