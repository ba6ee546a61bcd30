//! An engine that owns its state, for parallel branches.

use std::sync::Arc;
use tokio_util::sync::CancellationToken;
use vstd::prelude::*;

use crate::event::FlowEvent;
use crate::exec::cancel;
use crate::exec::execution_engine::{
    ExecutionControl, ExecutionSignal, ExecutionView, ExecutorState, NextAction, NodeMetadata,
};
use crate::node::node_context::{LeafContext, NodeContext};
use crate::sharing;
use crate::state::workflow_state;
use crate::state::workflow_state::WorkflowState;
use crate::stream::{StreamChunk, StreamSink};

verus! {

/// What a branch has in hand. `T` is the type of stream sinks, `P` that of what
/// custom events carry.
pub struct OwnedExecutionEngine<S: WorkflowState, T, P> {
    pub inner: S,
    pub stream: Option<Arc<T>>,
    pub cancel: CancellationToken,
    pub control: ExecutionControl,
    pub metadata: NodeMetadata,
    pub mutations: Vec<S::Mutation>,
    pub flow_events: Vec<FlowEvent<P>>,
}

impl<S: WorkflowState, T: StreamSink, P> OwnedExecutionEngine<S, T, P> {
    /// An engine on a state, with nothing recorded.
    pub fn new(state: S, stream: Option<Arc<T>>, cancel: CancellationToken) -> (engine: Self)
        ensures
            engine.inner == state,
            engine.stream == stream,
            engine.cancel == cancel,
            engine.control.next is None,
            engine.control.signal is None,
            engine.metadata == (NodeMetadata { token_cost: 0, has_side_effects: false }),
            engine.mutations@ == Seq::<S::Mutation>::empty(),
            engine.flow_events@ == Seq::<FlowEvent<P>>::empty(),
    {
        OwnedExecutionEngine {
            inner: state,
            stream,
            cancel,
            control: ExecutionControl::new(),
            metadata: NodeMetadata::default(),
            mutations: Vec::new(),
            flow_events: Vec::new(),
        }
    }

    /// The state.
    pub fn into_state(self) -> (s: S)
        ensures
            s == self.inner,
    {
        self.inner
    }

    /// The state, to read.
    pub fn state(&self) -> (s: &S)
        ensures
            *s == self.inner,
    {
        &self.inner
    }

    /// The state, to work on in place.
    pub fn state_mut(&mut self) -> (s: &mut S)
        ensures
            *s == old(self).inner,
            final(self).inner == *final(s),
            *final(self) == (OwnedExecutionEngine { inner: *final(s), ..*old(self) }),
    {
        &mut self.inner
    }

    /// The token by which the branch is told to stop.
    pub fn cancel_token(&self) -> (token: &CancellationToken)
        ensures
            *token == self.cancel,
    {
        &self.cancel
    }

    /// Where output goes, to share.
    pub fn stream_sink(&self) -> (sink: Option<Arc<T>>)
        ensures
            sink == self.stream,
    {
        match &self.stream {
            Some(s) => Some(sharing::share(s)),
            None => None,
        }
    }

    /// Makes the changes that were recorded. None are recorded afterwards.
    pub fn commit(&mut self)
        ensures
            workflow_state::batch_effect(
                old(self).mutations@,
                old(self).inner,
                final(self).inner,
            ),
            final(self).mutations@ == Seq::<S::Mutation>::empty(),
            final(self).stream == old(self).stream,
            final(self).cancel == old(self).cancel,
            final(self).control == old(self).control,
            final(self).metadata == old(self).metadata,
            final(self).flow_events == old(self).flow_events,
    {
        let mut batch: Vec<S::Mutation> = Vec::new();
        core::mem::swap(&mut batch, &mut self.mutations);
        if batch.len() > 0 {
            self.inner.apply_batch(batch);
        }
    }

    /// What the branch's node sees.
    pub fn build_node_context(&mut self) -> (ctx: NodeContext<'_, S, T, P>)
        ensures
            *ctx.state == old(self).inner,
            *ctx.control == old(self).control,
            *ctx.metadata == old(self).metadata,
            *ctx.mutations == old(self).mutations,
            *ctx.flow_events == old(self).flow_events,
            *ctx.cancel == old(self).cancel,
            match ctx.stream {
                Some(s) => old(self).stream matches Some(t) && *s == *t,
                None => old(self).stream is None,
            },
            final(self).inner == *final(ctx.state),
            final(self).control == *final(ctx.control),
            final(self).metadata == *final(ctx.metadata),
            final(self).mutations == *final(ctx.mutations),
            final(self).flow_events == *final(ctx.flow_events),
            final(self).stream == old(self).stream,
            final(self).cancel == old(self).cancel,
    {
        NodeContext {
            state: &mut self.inner,
            stream: match &self.stream {
                Some(s) => Some(&**s),
                None => None,
            },
            cancel: &self.cancel,
            control: &mut self.control,
            metadata: &mut self.metadata,
            mutations: &mut self.mutations,
            flow_events: &mut self.flow_events,
        }
    }

    /// What the branch's node sees, if it is a leaf. The state stays as it is.
    pub fn build_leaf_context(&mut self) -> (ctx: LeafContext<'_, S, T, P>)
        ensures
            *ctx.state == old(self).inner,
            *ctx.control == old(self).control,
            *ctx.metadata == old(self).metadata,
            *ctx.mutations == old(self).mutations,
            *ctx.flow_events == old(self).flow_events,
            *ctx.cancel == old(self).cancel,
            match ctx.stream {
                Some(s) => old(self).stream matches Some(t) && *s == *t,
                None => old(self).stream is None,
            },
            final(self).inner == old(self).inner,
            final(self).control == *final(ctx.control),
            final(self).metadata == *final(ctx.metadata),
            final(self).mutations == *final(ctx.mutations),
            final(self).flow_events == *final(ctx.flow_events),
            final(self).stream == old(self).stream,
            final(self).cancel == old(self).cancel,
    {
        LeafContext {
            state: &self.inner,
            stream: match &self.stream {
                Some(s) => Some(&**s),
                None => None,
            },
            cancel: &self.cancel,
            control: &mut self.control,
            metadata: &mut self.metadata,
            mutations: &mut self.mutations,
            flow_events: &mut self.flow_events,
        }
    }
}

impl<S: WorkflowState, T: StreamSink, P> ExecutionView<S> for OwnedExecutionEngine<S, T, P> {
    open spec fn current(&self) -> S {
        self.inner
    }

    fn state(&self) -> (s: &S) {
        &self.inner
    }

    fn emit(&self, chunk: StreamChunk) {
        if let Some(stream) = &self.stream {
            stream.emit(chunk);
        }
    }

    fn is_cancelled(&self) -> bool {
        cancel::is_cancelled(&self.cancel)
    }
}

impl<S: WorkflowState, T: StreamSink, P> ExecutorState<S> for OwnedExecutionEngine<S, T, P> {
    open spec fn asked(&self) -> ExecutionControl {
        self.control
    }

    open spec fn told(&self) -> NodeMetadata {
        self.metadata
    }

    fn clone_state(&self) -> (s: S) {
        self.inner.clone()
    }

    fn replace_state(&mut self, state: S) {
        self.inner = state;
    }

    fn apply_batch(&mut self, mutations: Vec<S::Mutation>) {
        self.inner.apply_batch(mutations);
    }

    fn take_control(&mut self) -> (asked: (NextAction, Option<ExecutionSignal>)) {
        self.control.take()
    }

    fn take_metadata(&mut self) -> (m: NodeMetadata) {
        let m = self.metadata;
        self.metadata = NodeMetadata::default();
        m
    }
}

} // verus!
