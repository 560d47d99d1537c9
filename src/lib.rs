//! Encoding of a capacitated flow network as linear real-arithmetic constraints.

pub mod rational;
pub mod formula;
pub mod graph;
pub mod encoder;
pub mod laws;
pub mod evaluation;
