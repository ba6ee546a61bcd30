//! The graph: its nodes and edges, how it is built, routed and analysed.

pub mod cycles;
pub mod graph_analysis;
pub mod graph_builder;
pub mod graph_core;
pub mod hash;
pub mod node_table;
pub mod reach;
