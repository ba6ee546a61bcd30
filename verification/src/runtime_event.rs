//! The events by which a run is watched from outside.

use vstd::prelude::*;

use crate::checkpoint::checkpoint_data::CheckpointId;
use crate::event::BarrierId;
use crate::ids::{SpanId, TraceId};
use crate::time::Duration;

verus! {

/// What happens in a run, apart from the data that its nodes send.
pub enum RuntimeEvent {
    /// A run has begun.
    ExecutionStarted { trace_id: TraceId, graph_name: String },
    /// A node is about to run.
    NodeStarted { node_name: String, trace_id: TraceId, span_id: SpanId, step: usize },
    /// A node has run.
    NodeCompleted { node_name: String, trace_id: TraceId, span_id: SpanId, duration: Duration },
    /// A node has failed.
    NodeFailed { node_name: String, trace_id: TraceId, span_id: SpanId, error: String },
    /// A branch of a parallel node is about to run.
    BranchStarted { node_name: String, branch_name: String, span_id: SpanId },
    /// A branch of a parallel node has run.
    BranchCompleted {
        node_name: String,
        branch_name: String,
        span_id: SpanId,
        success: bool,
        duration: Duration,
    },
    /// The run waits for a decision.
    BarrierWaiting { barrier_id: BarrierId, node_name: String, span_id: SpanId },
    /// A decision was taken.
    BarrierResolved { barrier_id: BarrierId },
    /// A checkpoint was saved.
    CheckpointCreated { checkpoint_id: CheckpointId, node_name: String, step: usize },
    /// The run is over.
    ExecutionCompleted { trace_id: TraceId, duration: Duration },
}

} // verus!
