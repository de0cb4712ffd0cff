//! Collection data structures.

pub mod graph;
