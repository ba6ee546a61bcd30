//! What happens in a run, as its observers see it.

use vstd::prelude::*;

use crate::checkpoint::checkpoint_data::CheckpointId;
use crate::error::{GraphError, ObservedError};
use crate::ids::{SpanId, TraceId};
use crate::json::{Json, Value};
use crate::state::delta::StateDelta;
use crate::state::state::GraphResult;
use crate::state::workflow_state::WorkflowState;
use crate::text;
use crate::time::Duration;

verus! {

/// An event within a node. `P` is the type of what custom events carry.
pub enum FlowEvent<P> {
    /// A node has started.
    NodeStarted { node_id: String, span_id: SpanId },
    /// A node has finished.
    NodeCompleted { node_id: String, span_id: SpanId, duration: Duration },
    /// A node has failed.
    NodeFailed { node_id: String, error: String },
    /// A node has changed the state.
    StateChanged { node_id: String, delta: StateDelta },
    /// A parallel node has started its branches.
    ParallelStarted { node_id: String, branch_count: usize, span_id: SpanId },
    /// A parallel node has finished.
    ParallelCompleted { node_id: String, span_id: SpanId, duration: Duration },
    /// A branch has finished.
    BranchCompleted {
        branch_name: String,
        node_id: String,
        span_id: SpanId,
        success: bool,
        duration: Duration,
    },
    /// Something of the node's own.
    Custom { node_id: String, payload: P },
}

/// Identifies one stop at a barrier.
#[derive(Debug)]
pub struct BarrierId {
    pub node_id: String,
    /// How many stops there were at this barrier before.
    pub occurrence: u32,
}

impl View for BarrierId {
    type V = (Seq<char>, u32);

    open spec fn view(&self) -> (Seq<char>, u32) {
        (self.node_id@, self.occurrence)
    }
}

impl BarrierId {
    /// An identifier.
    pub fn new(node_id: &str, occurrence: u32) -> (id: Self)
        ensures
            id@ == (node_id@, occurrence),
    {
        BarrierId { node_id: node_id.to_owned(), occurrence }
    }

    /// Whether two identifiers are the same.
    pub fn same(&self, other: &BarrierId) -> (r: bool)
        ensures
            r == (self@ == other@),
    {
        self.occurrence == other.occurrence && text::same_text(
            self.node_id.as_str(),
            other.node_id.as_str(),
        )
    }
}

impl Clone for BarrierId {
    fn clone(&self) -> (copy: Self)
        ensures
            copy@ == self@,
    {
        BarrierId { node_id: self.node_id.clone(), occurrence: self.occurrence }
    }
}

/// What was decided at a barrier.
pub enum BarrierDecision {
    /// Go on.
    Approve,
    /// Do not go on as planned.
    Reject { reason: String },
    /// Put a value into the state and go on.
    Modify { key: String, value: Value },
    /// Go to a node.
    Reroute { target: String },
}

/// A decision with its contents.
pub enum Verdict {
    Approve,
    Reject(Seq<char>),
    Modify(Seq<char>, Json),
    Reroute(Seq<char>),
}

impl View for BarrierDecision {
    type V = Verdict;

    open spec fn view(&self) -> Verdict {
        match self {
            BarrierDecision::Approve => Verdict::Approve,
            BarrierDecision::Reject { reason } => Verdict::Reject(reason@),
            BarrierDecision::Modify { key, value } => Verdict::Modify(key@, value@),
            BarrierDecision::Reroute { target } => Verdict::Reroute(target@),
        }
    }
}

impl Clone for BarrierDecision {
    fn clone(&self) -> (copy: Self)
        ensures
            copy@ == self@,
    {
        match self {
            BarrierDecision::Approve => BarrierDecision::Approve,
            BarrierDecision::Reject { reason } => BarrierDecision::Reject {
                reason: reason.clone(),
            },
            BarrierDecision::Modify { key, value } => BarrierDecision::Modify {
                key: key.clone(),
                value: value.clone(),
            },
            BarrierDecision::Reroute { target } => BarrierDecision::Reroute {
                target: target.clone(),
            },
        }
    }
}

/// A decision on its way to a barrier.
pub enum BarrierDecisionMessage {
    /// For one stop.
    Exact { barrier_id: BarrierId, decision: BarrierDecision },
    /// For every stop at a barrier.
    Wildcard { node_id: String, decision: BarrierDecision },
}

/// An event of a run. `S` is the type of states.
#[allow(inconsistent_fields)]
pub enum GraphEvent<S: WorkflowState, P> {
    /// The run has started.
    GraphStart { trace_id: TraceId },
    /// A node is about to run.
    NodeStart { node_name: String, trace_id: TraceId, span_id: SpanId, step: usize },
    /// A node has run.
    NodeEnd {
        node_name: String,
        trace_id: TraceId,
        span_id: SpanId,
        success: bool,
        duration: Duration,
    },
    /// An event within a node.
    Node { span_id: SpanId, node_name: String, event: FlowEvent<P> },
    /// The run waits for a decision.
    BarrierWaiting { barrier_id: BarrierId, node_name: String, span_id: SpanId },
    /// A decision was taken.
    BarrierResolved { barrier_id: BarrierId, decision: BarrierDecision },
    /// Something went wrong without stopping the run.
    ObservedError { error: ObservedError, node_name: String },
    /// A checkpoint was saved.
    CheckpointSaved { checkpoint_id: CheckpointId, node_name: String, step: usize },
    /// The run has ended.
    GraphComplete { result: GraphResult<S> },
    /// The run has failed.
    GraphError { error: GraphError, state: S },
}

/// Two decisions read the same only if they decide the same, with the same reason, key,
/// value or target.
pub proof fn law_decisions_are_told_apart(a: BarrierDecision, b: BarrierDecision)
    ensures
        a@ == b@ <==> (match (a, b) {
            (BarrierDecision::Approve, BarrierDecision::Approve) => true,
            (
                BarrierDecision::Reject { reason: x },
                BarrierDecision::Reject { reason: y },
            ) => x@ == y@,
            (
                BarrierDecision::Modify { key: j, value: x },
                BarrierDecision::Modify { key: k, value: y },
            ) => j@ == k@ && x@ == y@,
            (
                BarrierDecision::Reroute { target: x },
                BarrierDecision::Reroute { target: y },
            ) => x@ == y@,
            _ => false,
        }),
{
}

} // verus!
