//! An editor for small undirected graphs: vertices identified by a code,
//! an edge list that holds at most one edge per unordered pair, and the
//! queries and algorithms that run over them (adjacency, loops, paths,
//! cycles, path costs, completeness and subgraph containment), together with
//! the console messages that report their outcomes.

pub mod algorithms;
pub mod display;
pub mod feedback;
pub mod graph;
pub mod laws;
pub mod menu;
pub mod tint;
