//! The state of a workflow, and how it changes.

pub mod branch_state;
pub mod delta;
pub mod state;
pub mod state_lens;
pub mod statekey;
pub mod workflow_state;
