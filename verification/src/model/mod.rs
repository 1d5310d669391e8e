//! The workflow model: graphs, their nodes and edges, and the agents they declare.
pub mod agent;
pub mod graph;
