//! What a node sees of a run: the state, and where to put what it wants done.

use tokio_util::sync::CancellationToken;
use vstd::prelude::*;

use crate::event::{BarrierId, FlowEvent};
use crate::exec::cancel;
use crate::exec::execution_engine::{ExecutionControl, NextAction, ExecutionSignal, NodeMetadata};
use crate::state::workflow_state::WorkflowState;
use crate::stream::{StreamChunk, StreamSink};
use crate::time::Duration;

verus! {

/// What a leaf node sees: the state to read, and where to record changes. `T` is
/// the type of stream sinks, `P` that of what custom events carry.
pub struct LeafContext<'a, S: WorkflowState, T, P> {
    pub state: &'a S,
    pub stream: Option<&'a T>,
    pub cancel: &'a CancellationToken,
    pub control: &'a mut ExecutionControl,
    pub metadata: &'a mut NodeMetadata,
    pub mutations: &'a mut Vec<S::Mutation>,
    pub flow_events: &'a mut Vec<FlowEvent<P>>,
}

impl<'a, S: WorkflowState, T: StreamSink, P> LeafContext<'a, S, T, P> {
    /// The state as it was before the node ran.
    pub fn state(&self) -> (s: &S)
        ensures
            *s == *self.state,
    {
        self.state
    }

    /// Records a change to be made when the node is done.
    pub fn record(&mut self, mutation: S::Mutation)
        ensures
            final(self).state == old(self).state,
            final(self).control == old(self).control,
            final(self).metadata == old(self).metadata,
            final(self).mutations@ == old(self).mutations@.push(mutation),
            *final(final(self).mutations) == *final(old(self).mutations),
            final(self).flow_events == old(self).flow_events,
            final(self).stream == old(self).stream,
            final(self).cancel == old(self).cancel,
    {
        self.mutations.push(mutation);
    }

    /// Puts out a piece of output.
    pub fn emit(&self, chunk: StreamChunk) {
        if let Some(stream) = self.stream {
            stream.emit(chunk);
        }
    }

    /// Records an event.
    pub fn emit_flow_event(&mut self, event: FlowEvent<P>)
        ensures
            final(self).state == old(self).state,
            final(self).control == old(self).control,
            final(self).metadata == old(self).metadata,
            final(self).mutations == old(self).mutations,
            final(self).flow_events@ == old(self).flow_events@.push(event),
            *final(final(self).flow_events) == *final(old(self).flow_events),
            final(self).stream == old(self).stream,
            final(self).cancel == old(self).cancel,
    {
        self.flow_events.push(event);
    }

    /// Whether the run is to stop.
    pub fn is_cancelled(&self) -> bool {
        cancel::is_cancelled(self.cancel)
    }

    /// The token by which the run is told to stop.
    pub fn cancel_token(&self) -> (token: &CancellationToken)
        ensures
            *token == *self.cancel,
    {
        self.cancel
    }

    /// Asks for a jump to a node.
    pub fn goto(&mut self, target: &str)
        ensures
            final(self).state == old(self).state,
            final(self).control.next matches Some(NextAction::Goto(t)) && t@ == target@,
            final(self).control.signal == old(self).control.signal,
            *final(final(self).control) == *final(old(self).control),
            final(self).metadata == old(self).metadata,
            final(self).mutations == old(self).mutations,
            final(self).flow_events == old(self).flow_events,
            final(self).stream == old(self).stream,
            final(self).cancel == old(self).cancel,
    {
        self.control.goto(target);
    }

    /// Asks for the end of the run.
    pub fn end(&mut self)
        ensures
            final(self).state == old(self).state,
            final(self).control.next == Some(NextAction::End),
            final(self).control.signal == old(self).control.signal,
            *final(final(self).control) == *final(old(self).control),
            final(self).metadata == old(self).metadata,
            final(self).mutations == old(self).mutations,
            final(self).flow_events == old(self).flow_events,
            final(self).stream == old(self).stream,
            final(self).cancel == old(self).cancel,
    {
        self.control.end();
    }

    /// Asks for a decision before the run goes on.
    pub fn pause(&mut self, barrier_id: BarrierId, timeout: Option<Duration>)
        ensures
            final(self).state == old(self).state,
            final(self).control.next == old(self).control.next,
            final(self).control.signal == Some(ExecutionSignal::Pause { barrier_id, timeout }),
            *final(final(self).control) == *final(old(self).control),
            final(self).metadata == old(self).metadata,
            final(self).mutations == old(self).mutations,
            final(self).flow_events == old(self).flow_events,
            final(self).stream == old(self).stream,
            final(self).cancel == old(self).cancel,
    {
        self.control.pause(barrier_id, timeout);
    }

    /// Notes what the node has cost, as the bits of a double.
    pub fn set_token_cost(&mut self, cost_bits: u64)
        ensures
            final(self).state == old(self).state,
            final(self).control == old(self).control,
            *final(self).metadata == (NodeMetadata { token_cost: cost_bits, ..*old(self).metadata }),
            *final(final(self).metadata) == *final(old(self).metadata),
            final(self).mutations == old(self).mutations,
            final(self).flow_events == old(self).flow_events,
            final(self).stream == old(self).stream,
            final(self).cancel == old(self).cancel,
    {
        self.metadata.token_cost = cost_bits;
    }

    /// Notes that the node has had effects outside the run.
    pub fn set_has_side_effects(&mut self)
        ensures
            final(self).state == old(self).state,
            final(self).control == old(self).control,
            *final(self).metadata == (NodeMetadata { has_side_effects: true, ..*old(self).metadata }),
            *final(final(self).metadata) == *final(old(self).metadata),
            final(self).mutations == old(self).mutations,
            final(self).flow_events == old(self).flow_events,
            final(self).stream == old(self).stream,
            final(self).cancel == old(self).cancel,
    {
        self.metadata.has_side_effects = true;
    }
}

/// What other nodes see: the state to replace, and where to record changes. `T` is
/// the type of stream sinks, `P` that of what custom events carry.
pub struct NodeContext<'a, S: WorkflowState, T, P> {
    pub state: &'a mut S,
    pub stream: Option<&'a T>,
    pub cancel: &'a CancellationToken,
    pub control: &'a mut ExecutionControl,
    pub metadata: &'a mut NodeMetadata,
    pub mutations: &'a mut Vec<S::Mutation>,
    pub flow_events: &'a mut Vec<FlowEvent<P>>,
}

impl<'a, S: WorkflowState, T: StreamSink, P> NodeContext<'a, S, T, P> {
    /// The state as it was before the node ran.
    pub fn state(&self) -> (s: &S)
        ensures
            *s == *old(self.state),
    {
        &*self.state
    }

    /// Puts another state in the place of this one.
    pub fn replace_state(&mut self, new_state: S)
        ensures
            *final(self).state == new_state,
            *final(final(self).state) == *final(old(self).state),
            final(self).control == old(self).control,
            final(self).metadata == old(self).metadata,
            final(self).mutations == old(self).mutations,
            final(self).flow_events == old(self).flow_events,
            final(self).stream == old(self).stream,
            final(self).cancel == old(self).cancel,
    {
        *self.state = new_state;
    }

    /// Records a change to be made when the node is done.
    pub fn record(&mut self, mutation: S::Mutation)
        ensures
            final(self).state == old(self).state,
            final(self).control == old(self).control,
            final(self).metadata == old(self).metadata,
            final(self).mutations@ == old(self).mutations@.push(mutation),
            *final(final(self).mutations) == *final(old(self).mutations),
            final(self).flow_events == old(self).flow_events,
            final(self).stream == old(self).stream,
            final(self).cancel == old(self).cancel,
    {
        self.mutations.push(mutation);
    }

    /// Puts out a piece of output.
    pub fn emit(&self, chunk: StreamChunk) {
        if let Some(stream) = self.stream {
            stream.emit(chunk);
        }
    }

    /// Records an event.
    pub fn emit_flow_event(&mut self, event: FlowEvent<P>)
        ensures
            final(self).state == old(self).state,
            final(self).control == old(self).control,
            final(self).metadata == old(self).metadata,
            final(self).mutations == old(self).mutations,
            final(self).flow_events@ == old(self).flow_events@.push(event),
            *final(final(self).flow_events) == *final(old(self).flow_events),
            final(self).stream == old(self).stream,
            final(self).cancel == old(self).cancel,
    {
        self.flow_events.push(event);
    }

    /// Whether the run is to stop.
    pub fn is_cancelled(&self) -> bool {
        cancel::is_cancelled(self.cancel)
    }

    /// The token by which the run is told to stop.
    pub fn cancel_token(&self) -> (token: &CancellationToken)
        ensures
            *token == *self.cancel,
    {
        self.cancel
    }

    /// Asks for a jump to a node.
    pub fn goto(&mut self, target: &str)
        ensures
            final(self).state == old(self).state,
            final(self).control.next matches Some(NextAction::Goto(t)) && t@ == target@,
            final(self).control.signal == old(self).control.signal,
            *final(final(self).control) == *final(old(self).control),
            final(self).metadata == old(self).metadata,
            final(self).mutations == old(self).mutations,
            final(self).flow_events == old(self).flow_events,
            final(self).stream == old(self).stream,
            final(self).cancel == old(self).cancel,
    {
        self.control.goto(target);
    }

    /// Asks for the end of the run.
    pub fn end(&mut self)
        ensures
            final(self).state == old(self).state,
            final(self).control.next == Some(NextAction::End),
            final(self).control.signal == old(self).control.signal,
            *final(final(self).control) == *final(old(self).control),
            final(self).metadata == old(self).metadata,
            final(self).mutations == old(self).mutations,
            final(self).flow_events == old(self).flow_events,
            final(self).stream == old(self).stream,
            final(self).cancel == old(self).cancel,
    {
        self.control.end();
    }

    /// Asks for a decision before the run goes on.
    pub fn pause(&mut self, barrier_id: BarrierId, timeout: Option<Duration>)
        ensures
            final(self).state == old(self).state,
            final(self).control.next == old(self).control.next,
            final(self).control.signal == Some(ExecutionSignal::Pause { barrier_id, timeout }),
            *final(final(self).control) == *final(old(self).control),
            final(self).metadata == old(self).metadata,
            final(self).mutations == old(self).mutations,
            final(self).flow_events == old(self).flow_events,
            final(self).stream == old(self).stream,
            final(self).cancel == old(self).cancel,
    {
        self.control.pause(barrier_id, timeout);
    }

    /// Notes what the node has cost, as the bits of a double.
    pub fn set_token_cost(&mut self, cost_bits: u64)
        ensures
            final(self).state == old(self).state,
            final(self).control == old(self).control,
            *final(self).metadata == (NodeMetadata { token_cost: cost_bits, ..*old(self).metadata }),
            *final(final(self).metadata) == *final(old(self).metadata),
            final(self).mutations == old(self).mutations,
            final(self).flow_events == old(self).flow_events,
            final(self).stream == old(self).stream,
            final(self).cancel == old(self).cancel,
    {
        self.metadata.token_cost = cost_bits;
    }

    /// Notes that the node has had effects outside the run.
    pub fn set_has_side_effects(&mut self)
        ensures
            final(self).state == old(self).state,
            final(self).control == old(self).control,
            *final(self).metadata == (NodeMetadata { has_side_effects: true, ..*old(self).metadata }),
            *final(final(self).metadata) == *final(old(self).metadata),
            final(self).mutations == old(self).mutations,
            final(self).flow_events == old(self).flow_events,
            final(self).stream == old(self).stream,
            final(self).cancel == old(self).cancel,
    {
        self.metadata.has_side_effects = true;
    }
}

} // verus!
