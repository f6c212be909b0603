//! Footprints: pad rows, components and package kinds.

pub mod builder;
pub mod package;
