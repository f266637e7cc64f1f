//! Node types: what the engine itself has to know of them.

pub mod iir_filter;
