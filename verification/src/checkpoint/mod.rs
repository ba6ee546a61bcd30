//! Checkpoints: what is kept of a run, when, and where.

pub mod checkpoint_codec;
pub mod checkpoint_data;
pub mod checkpoint_policy;
pub mod mutation_log;
pub mod store;
pub mod trace;
