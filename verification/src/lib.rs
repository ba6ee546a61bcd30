//! A verified engine for workflow graphs.
//!
//! A workflow is a directed graph of named nodes. The engine decides which node
//! runs next, keeps the workflow's state and the mutations recorded on it,
//! handles barriers, checkpoints and traces. Running a node, waiting and storing
//! bytes are left to the program around this library, which hands the outcome of
//! each back in.

pub mod checkpoint;
pub mod compiler;
pub mod error;
pub mod event;
pub mod exec;
pub mod graph;
pub mod hook;
pub mod ids;
pub mod json;
pub mod node;
pub mod runtime_event;
mod sequences;
mod sharing;
pub mod state;
pub mod stream;
pub mod string_map;
pub mod test_executor;
pub mod text;
pub mod time;
