//! Execution: the engine that owns a run's state, and the machines that decide
//! what a run does next.

pub mod cancel;
pub mod deciding;
pub mod decision_registry;
pub mod execution_engine;
pub mod execution_loop;
pub mod executor;
pub mod inline_run;
pub mod owned_execution_engine;
pub mod reporting;
pub mod resuming;
pub mod routing;
pub mod session;
pub mod stepping;
