//! Nodes: what they are, and what they see of a run.

pub mod barrier_node;
pub mod barrier_sink;
pub mod compiled_subgraph;
pub mod llm_node;
pub mod message;
pub mod node;
pub mod node_context;
pub mod parallel_node;
pub mod subgraph_spec;
pub mod tool_node;
