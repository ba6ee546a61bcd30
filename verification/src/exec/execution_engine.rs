//! The engine: it owns what a run has in hand between two nodes.

use std::sync::Arc;
use tokio_util::sync::CancellationToken;
use vstd::prelude::*;

use crate::checkpoint::checkpoint_data::{CheckpointSink, FrameInfo};
use crate::event::{BarrierId, FlowEvent};
use crate::exec::cancel;
use crate::node::node_context::{LeafContext, NodeContext};
use crate::state::workflow_state;
use crate::state::workflow_state::WorkflowState;
use crate::stream::{StreamChunk, StreamSink};
use crate::time::Duration;

verus! {

/// A request to hold the run.
#[derive(Debug)]
pub enum ExecutionSignal {
    /// Wait for a decision at a barrier.
    Pause { barrier_id: BarrierId, timeout: Option<Duration> },
}

/// Where a node wants the run to go.
#[derive(PartialEq, Eq, Debug)]
pub enum NextAction {
    /// Along the edges.
    Next,
    /// To a node.
    Goto(String),
    /// Nowhere.
    End,
}

impl Clone for NextAction {
    fn clone(&self) -> (copy: Self)
        ensures
            copy == *self,
    {
        match self {
            NextAction::Next => NextAction::Next,
            NextAction::Goto(t) => NextAction::Goto(t.clone()),
            NextAction::End => NextAction::End,
        }
    }
}

/// What a node asks of the run. Nodes write it, the run reads it.
#[derive(Debug)]
pub struct ExecutionControl {
    pub next: Option<NextAction>,
    pub signal: Option<ExecutionSignal>,
}

impl ExecutionControl {
    /// Nothing is asked for.
    pub fn new() -> (c: Self)
        ensures
            c.next is None,
            c.signal is None,
    {
        ExecutionControl { next: None, signal: None }
    }

    /// Asks for a jump to a node.
    pub fn goto(&mut self, target: &str)
        ensures
            final(self).next matches Some(NextAction::Goto(t)) && t@ == target@,
            final(self).signal == old(self).signal,
    {
        self.next = Some(NextAction::Goto(target.to_owned()));
    }

    /// Asks for the end of the run.
    pub fn end(&mut self)
        ensures
            final(self).next == Some(NextAction::End),
            final(self).signal == old(self).signal,
    {
        self.next = Some(NextAction::End);
    }

    /// Asks for a decision before the run goes on.
    pub fn pause(&mut self, barrier_id: BarrierId, timeout: Option<Duration>)
        ensures
            final(self).next == old(self).next,
            final(self).signal == Some(ExecutionSignal::Pause { barrier_id, timeout }),
    {
        self.signal = Some(ExecutionSignal::Pause { barrier_id, timeout });
    }

    /// What was asked for; the default is to go along the edges. Nothing is asked
    /// for afterwards.
    pub fn take(&mut self) -> (asked: (NextAction, Option<ExecutionSignal>))
        ensures
            asked.0 == old(self).route(),
            asked.1 == old(self).signal,
            final(self).next is None,
            final(self).signal is None,
    {
        let next = match self.next.take() {
            Some(next) => next,
            None => NextAction::Next,
        };
        let signal = self.signal.take();
        (next, signal)
    }

    /// Where the run is asked to go.
    pub open spec fn route(self) -> NextAction {
        match self.next {
            Some(next) => next,
            None => NextAction::Next,
        }
    }
}

impl Default for ExecutionControl {
    fn default() -> (c: Self)
        ensures
            c.next is None,
            c.signal is None,
    {
        ExecutionControl::new()
    }
}

/// What a node tells about itself.
#[derive(Clone, Copy, PartialEq, Eq, Structural, Debug)]
pub struct NodeMetadata {
    /// What it has cost, as the bits of a double.
    pub token_cost: u64,
    /// Whether it has had effects outside the run.
    pub has_side_effects: bool,
}

impl Default for NodeMetadata {
    fn default() -> (m: Self)
        ensures
            m == (NodeMetadata { token_cost: 0, has_side_effects: false }),
    {
        NodeMetadata { token_cost: 0, has_side_effects: false }
    }
}

/// What a leaf node needs of an engine.
pub trait ExecutionView<S> {
    /// The state.
    spec fn current(&self) -> S;

    /// The state, to read.
    fn state(&self) -> (s: &S)
        ensures
            *s == self.current(),
    ;

    /// Puts out a piece of output.
    fn emit(&self, chunk: StreamChunk);

    /// Whether the run is to stop.
    fn is_cancelled(&self) -> bool;
}

/// What composite nodes need of an engine.
pub trait ExecutorState<S: WorkflowState>: ExecutionView<S> {
    /// What the node has asked for.
    spec fn asked(&self) -> ExecutionControl;

    /// What the node has told about itself.
    spec fn told(&self) -> NodeMetadata;

    /// A copy of the state.
    fn clone_state(&self) -> (s: S)
        ensures
            cloned(self.current(), s),
    ;

    /// Puts another state in the place of this one.
    fn replace_state(&mut self, state: S)
        ensures
            final(self).current() == state,
            final(self).asked() == old(self).asked(),
            final(self).told() == old(self).told(),
    ;

    /// Makes changes to the state, in order.
    fn apply_batch(&mut self, mutations: Vec<S::Mutation>)
        ensures
            workflow_state::batch_effect(
                mutations@,
                old(self).current(),
                final(self).current(),
            ),
            final(self).asked() == old(self).asked(),
            final(self).told() == old(self).told(),
    ;

    /// What the node asked for. Nothing is asked for afterwards.
    fn take_control(&mut self) -> (asked: (NextAction, Option<ExecutionSignal>))
        ensures
            asked.0 == old(self).asked().route(),
            asked.1 == old(self).asked().signal,
            final(self).asked().next is None,
            final(self).asked().signal is None,
            final(self).current() == old(self).current(),
            final(self).told() == old(self).told(),
    ;

    /// What the node told about itself. Nothing is told afterwards.
    fn take_metadata(&mut self) -> (m: NodeMetadata)
        ensures
            m == old(self).told(),
            final(self).told() == (NodeMetadata { token_cost: 0, has_side_effects: false }),
            final(self).current() == old(self).current(),
            final(self).asked() == old(self).asked(),
    ;
}

/// What a run has in hand: the state, and what the node that runs now has asked
/// for. `T` is the type of stream sinks, `K` that of checkpoint sinks, `P` that of
/// what custom events carry.
pub struct ExecutionEngine<'a, S: WorkflowState, T, K, P> {
    pub state: &'a mut S,
    pub stream: Option<Arc<T>>,
    pub cancel: CancellationToken,
    pub control: ExecutionControl,
    pub metadata: NodeMetadata,
    /// The changes that were recorded and are yet to be made.
    pub mutations: Vec<S::Mutation>,
    pub flow_events: Vec<FlowEvent<P>>,
    pub checkpoint_sink: Option<&'a mut K>,
}

impl<'a, S: WorkflowState, T: StreamSink, K: CheckpointSink<S>, P> ExecutionEngine<'a, S, T, K, P> {
    /// An engine on a state, with nothing recorded.
    pub fn new(
        state: &'a mut S,
        stream: Option<Arc<T>>,
        cancel: CancellationToken,
        checkpoint_sink: Option<&'a mut K>,
    ) -> (engine: Self)
        ensures
            *engine.state == *old(state),
            *final(engine.state) == *final(state),
            engine.stream == stream,
            engine.cancel == cancel,
            engine.control.next is None,
            engine.control.signal is None,
            engine.metadata == (NodeMetadata { token_cost: 0, has_side_effects: false }),
            engine.mutations@ == Seq::<S::Mutation>::empty(),
            engine.flow_events@ == Seq::<FlowEvent<P>>::empty(),
            engine.checkpoint_sink == checkpoint_sink,
    {
        ExecutionEngine {
            state,
            stream,
            cancel,
            control: ExecutionControl::new(),
            metadata: NodeMetadata::default(),
            mutations: Vec::new(),
            flow_events: Vec::new(),
            checkpoint_sink,
        }
    }

    /// The changes that were recorded. None are recorded afterwards.
    pub fn take_mutations(&mut self) -> (batch: Vec<S::Mutation>)
        ensures
            batch@ == old(self).mutations@,
            final(self).mutations@ == Seq::<S::Mutation>::empty(),
            final(self).state == old(self).state,
            final(self).stream == old(self).stream,
            final(self).cancel == old(self).cancel,
            final(self).control == old(self).control,
            final(self).metadata == old(self).metadata,
            final(self).flow_events == old(self).flow_events,
            final(self).checkpoint_sink == old(self).checkpoint_sink,
    {
        let mut batch: Vec<S::Mutation> = Vec::new();
        core::mem::swap(&mut batch, &mut self.mutations);
        batch
    }

    /// What the node asked for. Nothing is asked for afterwards.
    pub fn take_control(&mut self) -> (asked: (NextAction, Option<ExecutionSignal>))
        ensures
            asked.0 == old(self).control.route(),
            asked.1 == old(self).control.signal,
            final(self).control.next is None,
            final(self).control.signal is None,
            final(self).state == old(self).state,
            final(self).stream == old(self).stream,
            final(self).cancel == old(self).cancel,
            final(self).metadata == old(self).metadata,
            final(self).mutations == old(self).mutations,
            final(self).flow_events == old(self).flow_events,
            final(self).checkpoint_sink == old(self).checkpoint_sink,
    {
        self.control.take()
    }

    /// What the node told about itself. Nothing is told afterwards.
    pub fn take_metadata(&mut self) -> (m: NodeMetadata)
        ensures
            m == old(self).metadata,
            final(self).metadata == (NodeMetadata { token_cost: 0, has_side_effects: false }),
            final(self).state == old(self).state,
            final(self).stream == old(self).stream,
            final(self).cancel == old(self).cancel,
            final(self).control == old(self).control,
            final(self).mutations == old(self).mutations,
            final(self).flow_events == old(self).flow_events,
            final(self).checkpoint_sink == old(self).checkpoint_sink,
    {
        let m = self.metadata;
        self.metadata = NodeMetadata::default();
        m
    }

    /// The events that were recorded. None are recorded afterwards.
    pub fn take_flow_events(&mut self) -> (events: Vec<FlowEvent<P>>)
        ensures
            events@ == old(self).flow_events@,
            final(self).flow_events@ == Seq::<FlowEvent<P>>::empty(),
            final(self).state == old(self).state,
            final(self).stream == old(self).stream,
            final(self).cancel == old(self).cancel,
            final(self).control == old(self).control,
            final(self).metadata == old(self).metadata,
            final(self).mutations == old(self).mutations,
            final(self).checkpoint_sink == old(self).checkpoint_sink,
    {
        let mut events: Vec<FlowEvent<P>> = Vec::new();
        core::mem::swap(&mut events, &mut self.flow_events);
        events
    }

    /// Records an event.
    pub fn emit_flow_event(&mut self, event: FlowEvent<P>)
        ensures
            final(self).flow_events@ == old(self).flow_events@.push(event),
            final(self).state == old(self).state,
            final(self).stream == old(self).stream,
            final(self).cancel == old(self).cancel,
            final(self).control == old(self).control,
            final(self).metadata == old(self).metadata,
            final(self).mutations == old(self).mutations,
            final(self).checkpoint_sink == old(self).checkpoint_sink,
    {
        self.flow_events.push(event);
    }

    /// The state, to read.
    pub fn state(&self) -> (s: &S)
        ensures
            *s == *old(self.state),
    {
        &*self.state
    }

    /// The state, to work on in place.
    pub fn state_mut(&mut self) -> (s: &mut S)
        ensures
            *s == *old(self).state,
            *final(self).state == *final(s),
            *final(final(self).state) == *final(old(self).state),
            final(self).stream == old(self).stream,
            final(self).cancel == old(self).cancel,
            final(self).control == old(self).control,
            final(self).metadata == old(self).metadata,
            final(self).mutations == old(self).mutations,
            final(self).flow_events == old(self).flow_events,
            final(self).checkpoint_sink == old(self).checkpoint_sink,
    {
        &mut *self.state
    }

    /// Where output goes.
    pub fn stream(&self) -> (sink: Option<&T>)
        ensures
            match sink {
                Some(s) => self.stream matches Some(t) && *s == *t,
                None => self.stream is None,
            },
    {
        match &self.stream {
            Some(s) => Some(&**s),
            None => None,
        }
    }

    /// The state, for whoever lent it.
    pub fn into_state(self) -> (s: &'a mut S)
        ensures
            *s == *old(self.state),
            *final(s) == *final(self.state),
    {
        self.state
    }

    /// The token by which the run is told to stop.
    pub fn cancel_token(&self) -> (token: &CancellationToken)
        ensures
            *token == self.cancel,
    {
        &self.cancel
    }

    /// Where output goes, to share with a branch.
    pub fn stream_sink(&self) -> (sink: Option<Arc<T>>)
        ensures
            sink == self.stream,
    {
        match &self.stream {
            Some(s) => Some(crate::sharing::share(s)),
            None => None,
        }
    }

    /// The changes that were recorded, on their way into the state. None are
    /// recorded afterwards.
    pub fn take_commit_batch(&mut self) -> (batch: Vec<S::Mutation>)
        ensures
            batch@ == old(self).mutations@,
            final(self).mutations@ == Seq::<S::Mutation>::empty(),
            final(self).state == old(self).state,
            final(self).stream == old(self).stream,
            final(self).cancel == old(self).cancel,
            final(self).control == old(self).control,
            final(self).metadata == old(self).metadata,
            final(self).flow_events == old(self).flow_events,
            final(self).checkpoint_sink == old(self).checkpoint_sink,
    {
        self.take_mutations()
    }

    /// Makes changes to the state, in order.
    pub fn apply_batch_to_state(&mut self, mutations: Vec<S::Mutation>)
        ensures
            workflow_state::batch_effect(mutations@, *old(self).state, *final(self).state),
            *final(final(self).state) == *final(old(self).state),
            final(self).stream == old(self).stream,
            final(self).cancel == old(self).cancel,
            final(self).control == old(self).control,
            final(self).metadata == old(self).metadata,
            final(self).mutations == old(self).mutations,
            final(self).flow_events == old(self).flow_events,
            final(self).checkpoint_sink == old(self).checkpoint_sink,
    {
        if mutations.len() > 0 {
            self.state.apply_batch(mutations);
        }
    }

    /// Makes the changes that were recorded. None are recorded afterwards.
    pub fn commit(&mut self)
        ensures
            workflow_state::batch_effect(old(self).mutations@, *old(self).state, *final(self).state),
            *final(final(self).state) == *final(old(self).state),
            final(self).mutations@ == Seq::<S::Mutation>::empty(),
            final(self).stream == old(self).stream,
            final(self).cancel == old(self).cancel,
            final(self).control == old(self).control,
            final(self).metadata == old(self).metadata,
            final(self).flow_events == old(self).flow_events,
            final(self).checkpoint_sink == old(self).checkpoint_sink,
    {
        let batch = self.take_commit_batch();
        self.apply_batch_to_state(batch);
    }

    /// Tells the checkpoint sink that the run can be resumed after a node.
    pub fn emit_checkpoint(&mut self, node: &str, step: usize)
        ensures
            match old(self).checkpoint_sink {
                None => final(self).checkpoint_sink is None,
                Some(before) => final(self).checkpoint_sink matches Some(after) && K::told(
                    *before,
                    *after,
                    *old(self).state,
                    node@,
                    step,
                ) && *final(after) == *final(before),
            },
            final(self).state == old(self).state,
            final(self).stream == old(self).stream,
            final(self).cancel == old(self).cancel,
            final(self).control == old(self).control,
            final(self).metadata == old(self).metadata,
            final(self).mutations == old(self).mutations,
            final(self).flow_events == old(self).flow_events,
    {
        let frame = FrameInfo::new(node, step);
        if let Some(sink) = &mut self.checkpoint_sink {
            sink.on_checkpoint(&*self.state, &frame);
        }
    }

    /// What the next node sees.
    pub fn build_node_context(&mut self) -> (ctx: NodeContext<'_, S, T, P>)
        ensures
            *ctx.state == *old(self).state,
            *ctx.control == old(self).control,
            *ctx.metadata == old(self).metadata,
            *ctx.mutations == old(self).mutations,
            *ctx.flow_events == old(self).flow_events,
            *ctx.cancel == old(self).cancel,
            match ctx.stream {
                Some(s) => old(self).stream matches Some(t) && *s == *t,
                None => old(self).stream is None,
            },
            *final(self).state == *final(ctx.state),
            *final(final(self).state) == *final(old(self).state),
            final(self).control == *final(ctx.control),
            final(self).metadata == *final(ctx.metadata),
            final(self).mutations == *final(ctx.mutations),
            final(self).flow_events == *final(ctx.flow_events),
            final(self).stream == old(self).stream,
            final(self).cancel == old(self).cancel,
            final(self).checkpoint_sink == old(self).checkpoint_sink,
    {
        NodeContext {
            state: &mut *self.state,
            stream: match &self.stream {
                Some(s) => Some(&**s),
                None => None,
            },
            cancel: &self.cancel,
            control: &mut self.control,
            metadata: &mut self.metadata,
            mutations: &mut self.mutations,
            flow_events: &mut self.flow_events,
        }
    }

    /// What the next node sees, if it is a leaf. The state stays as it is.
    pub fn build_leaf_context(&mut self) -> (ctx: LeafContext<'_, S, T, P>)
        ensures
            *ctx.state == *old(self).state,
            *ctx.control == old(self).control,
            *ctx.metadata == old(self).metadata,
            *ctx.mutations == old(self).mutations,
            *ctx.flow_events == old(self).flow_events,
            *ctx.cancel == old(self).cancel,
            match ctx.stream {
                Some(s) => old(self).stream matches Some(t) && *s == *t,
                None => old(self).stream is None,
            },
            final(self).control == *final(ctx.control),
            final(self).metadata == *final(ctx.metadata),
            final(self).mutations == *final(ctx.mutations),
            final(self).flow_events == *final(ctx.flow_events),
            final(self).state == old(self).state,
            final(self).stream == old(self).stream,
            final(self).cancel == old(self).cancel,
            final(self).checkpoint_sink == old(self).checkpoint_sink,
    {
        LeafContext {
            state: &*self.state,
            stream: match &self.stream {
                Some(s) => Some(&**s),
                None => None,
            },
            cancel: &self.cancel,
            control: &mut self.control,
            metadata: &mut self.metadata,
            mutations: &mut self.mutations,
            flow_events: &mut self.flow_events,
        }
    }
}

impl<'a, S: WorkflowState, T: StreamSink, K: CheckpointSink<S>, P> ExecutionView<S> for ExecutionEngine<'a, S, T, K, P> {
    open spec fn current(&self) -> S {
        *self.state
    }

    fn state(&self) -> (s: &S) {
        &*self.state
    }

    fn emit(&self, chunk: StreamChunk) {
        if let Some(stream) = &self.stream {
            stream.emit(chunk);
        }
    }

    fn is_cancelled(&self) -> bool {
        cancel::is_cancelled(&self.cancel)
    }
}

impl<'a, S: WorkflowState, T: StreamSink, K: CheckpointSink<S>, P> ExecutorState<S> for ExecutionEngine<'a, S, T, K, P> {
    open spec fn asked(&self) -> ExecutionControl {
        self.control
    }

    open spec fn told(&self) -> NodeMetadata {
        self.metadata
    }

    fn clone_state(&self) -> (s: S) {
        self.state.clone()
    }

    fn replace_state(&mut self, state: S) {
        *self.state = state;
    }

    fn apply_batch(&mut self, mutations: Vec<S::Mutation>) {
        self.state.apply_batch(mutations);
    }

    fn take_control(&mut self) -> (asked: (NextAction, Option<ExecutionSignal>)) {
        self.control.take()
    }

    fn take_metadata(&mut self) -> (m: NodeMetadata) {
        let m = self.metadata;
        self.metadata = NodeMetadata::default();
        m
    }
}

/// A run goes where its node asked for, and along the edges where nothing was asked for.
pub proof fn law_control_is_followed(c: ExecutionControl)
    ensures
        c.next is None ==> c.route() is Next,
        c.next matches Some(n) ==> c.route() == n,
{
}

} // verus!
