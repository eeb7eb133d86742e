//! Optional backends.

pub mod graph;
