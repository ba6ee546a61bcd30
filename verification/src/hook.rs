//! Observers of runs.

use vstd::prelude::*;

use crate::error::ObservedError;
use crate::event::{BarrierDecision, BarrierId};
use crate::exec::execution_engine::NextAction;
use crate::ids::{SpanId, TraceId};
use crate::state::state::State;
use crate::time::Duration;

verus! {

/// One who is told what happens in a run. Every notice is ignored unless the
/// implementation says otherwise, and none has a say in where the run goes.
pub trait AgentHook: Send + Sync {
    /// A node is about to run.
    fn on_node_start(&self, node_name: &str, span_id: SpanId, step: usize) {
    }

    /// A node has run.
    fn on_node_end(&self, node_name: &str, span_id: SpanId, duration: Duration, success: bool) {
    }

    /// A node has failed.
    fn on_node_failed(&self, node_name: &str, error: &str) {
    }

    /// The state has changed.
    fn on_state_changed(&self, node_name: &str, state: &State) {
    }

    /// An error was seen that does not stop the run.
    fn on_observed_error(&self, node_name: &str, error: &ObservedError) {
    }

    /// The run waits for a decision.
    fn on_barrier_waiting(&self, barrier_id: &BarrierId, node_name: &str) {
    }

    /// A decision was taken.
    fn on_barrier_resolved(&self, barrier_id: &BarrierId, decision: &BarrierDecision) {
    }

    /// It was decided where the run goes.
    fn on_route_decision(&self, from_node: &str, next_step: &NextAction, target: Option<&str>) {
    }

    /// A run has begun.
    fn on_graph_start(&self, trace_id: TraceId) {
    }

    /// A run is over.
    fn on_graph_complete(&self, trace_id: TraceId, duration: Duration) {
    }

    /// A run has failed.
    fn on_graph_error(&self, trace_id: TraceId, error: &str) {
    }
}

/// The observer that ignores everything.
#[derive(Clone, Copy, Debug)]
pub struct NoOpHook;

impl AgentHook for NoOpHook {

}

impl Default for NoOpHook {
    fn default() -> (h: Self)
        ensures
            h == NoOpHook,
    {
        NoOpHook
    }
}

} // verus!
