//! Directed graphs in two representations: weighted adjacency lists keyed by
//! arbitrary hashable values, and a fixed-size boolean adjacency matrix.

pub mod adjacency;
pub mod adjlist;
pub mod keys;
pub mod matrix;
pub mod totals;
