//! Passes over a built graph.

pub mod context;
pub mod inline_pass;
pub mod pass;
