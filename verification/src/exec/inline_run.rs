//! The run of a graph from node to node.
//!
//! Each round enters a node, lets the program around it run the node, and settles
//! what the node left: changes are made, the checkpoint sink is told, the callback
//! is told, and only then the run moves on. Where the node asked for a decision,
//! the run waits for one first.

use vstd::prelude::*;

use crate::checkpoint::checkpoint_data::CheckpointSink;
use crate::error::{GraphError, TerminalError};
use crate::event::{BarrierId, Verdict};
use crate::exec::deciding;
use crate::exec::execution_engine::{ExecutionEngine, ExecutionSignal, NextAction};
use crate::exec::routing;
use crate::exec::routing::Move;
use crate::exec::stepping;
use crate::exec::stepping::Steps;
use crate::graph::graph_core::Graph;
use crate::graph::node_table;
use crate::ids::SpanId;
use crate::node::barrier_sink;
use crate::node::barrier_sink::BarrierOutcome;
use crate::node::node::NodeKind;
use crate::state::workflow_state;
use crate::state::workflow_state::WorkflowState;
use crate::stream::StreamSink;
use crate::time::Duration;

verus! {

/// One who is told of every node that has run.
pub trait StepCallback: Sized {
    /// What being told of a step does. An implementation that leaves this out promises
    /// nothing.
    open spec fn stepped(
        before: Self,
        after: Self,
        node: Seq<char>,
        step: usize,
        duration: Duration,
    ) -> bool {
        true
    }

    /// A node has run, its changes are made and the checkpoint sink was told.
    fn on_step(&mut self, node_name: &str, step: usize, duration: Duration)
        ensures
            Self::stepped(*old(self), *final(self), node_name@, step, duration),
    ;

    /// The run is about to wait for a decision.
    fn on_barrier_waiting(&mut self, barrier_id: &BarrierId, node_name: &str, span_id: SpanId) {
    }
}

/// The callback that does nothing.
#[derive(Clone, Copy, Debug)]
pub struct NoopStepCallback;

impl StepCallback for NoopStepCallback {
    open spec fn stepped(
        before: Self,
        after: Self,
        node: Seq<char>,
        step: usize,
        duration: Duration,
    ) -> bool {
        after == before
    }

    fn on_step(&mut self, node_name: &str, step: usize, duration: Duration) {
    }
}

/// Where a run stands.
pub struct InlineRun {
    /// The node that runs now or next.
    pub current: String,
    /// How many nodes were entered.
    pub step: usize,
    /// How many nodes may be entered.
    pub max_steps: usize,
}

/// What a run does next.
pub enum InlineNext {
    /// Enter the node at which it stands.
    Enter,
    /// Wait for a decision, keeping in mind where the node wanted to go.
    Wait { barrier_id: BarrierId, timeout: Option<Duration>, action: NextAction },
    /// Nothing: it is over.
    Done,
}

/// The error is that for too many steps.
pub open spec fn is_steps_exceeded(e: GraphError, limit: usize) -> bool {
    e matches GraphError::Terminal(TerminalError::StepsExceeded { limit: l }) && l == limit
}

/// The error is that for a node that does not exist.
pub open spec fn is_not_found(e: GraphError, node: Seq<char>) -> bool {
    e matches GraphError::Terminal(TerminalError::NodeNotFound(n)) && n@ == node
}

/// The error is that for a decision that cannot come any more.
pub open spec fn is_cancelled_at(e: GraphError, node: Seq<char>) -> bool {
    e matches GraphError::Terminal(TerminalError::BarrierCancelled { node: n }) && n@ == node
}

/// The run and what it does next after a move.
pub open spec fn after_move(
    before: InlineRun,
    after: InlineRun,
    taken: Move,
    next: Result<InlineNext, GraphError>,
) -> bool {
    &&& after.step == before.step
    &&& after.max_steps == before.max_steps
    &&& match taken {
        Move::Done => next matches Ok(InlineNext::Done) && after.current == before.current,
        Move::To(t) => next matches Ok(InlineNext::Enter) && after.current@ == t,
        Move::Fail(e) => next matches Err(f) && f == e && after.current == before.current,
    }
}

/// The changes and the notices that end a step: the recorded changes are made on
/// the state, and the checkpoint sink is told of the new state.
pub open spec fn told_checkpoint<S: WorkflowState, K: CheckpointSink<S>>(
    before: Option<&mut K>,
    after: Option<&mut K>,
    state: S,
    node: Seq<char>,
    step: usize,
) -> bool {
    match before {
        None => after is None,
        Some(b) => after matches Some(a) && K::told(*b, *a, state, node, step),
    }
}

impl InlineRun {
    /// How far the run has come.
    pub open spec fn steps(self) -> Steps {
        Steps { taken: self.step, limit: self.max_steps }
    }

    /// A run at the start of a graph.
    pub fn new<N, C>(graph: &Graph<N, C>, max_steps: usize) -> (run: Self)
        ensures
            run.current@ == graph.start@,
            run.step == 0,
            run.max_steps == max_steps,
    {
        InlineRun { current: graph.start_node().to_owned(), step: 0, max_steps }
    }

    /// Enters the node at which the run stands. The run fails where it has entered
    /// as many nodes as it may, or where there is no such node.
    pub fn enter<'g, N, C>(&mut self, graph: &'g Graph<N, C>) -> (node: Result<&'g N, GraphError>)
        ensures
            final(self).current == old(self).current,
            final(self).max_steps == old(self).max_steps,
            if old(self).step >= old(self).max_steps {
                final(self).step == old(self).step && (node matches Err(e) && is_steps_exceeded(
                    e,
                    old(self).max_steps,
                ))
            } else {
                final(self).step == old(self).step + 1 && (if node_table::has_node(
                    graph.nodes@,
                    old(self).current@,
                ) {
                    node matches Ok(n) && *n == node_table::node_named(
                        graph.nodes@,
                        old(self).current@,
                    )
                } else {
                    node matches Err(e) && is_not_found(e, old(self).current@)
                })
            },
            stepping::goes_on(old(self).steps(), final(self).steps(), node is Ok),
    {
        if self.step >= self.max_steps {
            return Err(
                GraphError::Terminal(TerminalError::StepsExceeded { limit: self.max_steps }),
            );
        }
        self.step += 1;
        match graph.nodes.get(self.current.as_str()) {
            Some(node) => Ok(node),
            None => Err(GraphError::Terminal(TerminalError::NodeNotFound(self.current.clone()))),
        }
    }

    fn proceed<S, N, C: Fn(&S) -> bool>(
        &mut self,
        graph: &Graph<N, C>,
        state: &S,
        action: NextAction,
    ) -> (next: Result<InlineNext, GraphError>)
        requires
            routing::conditions_total::<S, C>(graph.edges@),
        ensures
            exists|taken: Move| #[trigger]
                routing::moves(*graph, old(self).current@, *state, action, taken) && after_move(
                    *old(self),
                    *final(self),
                    taken,
                    next,
                ),
    {
        let r = routing::next_move(graph, self.current.as_str(), state, action);
        let ghost taken = routing::move_of(r);
        assert(routing::moves(*graph, old(self).current@, *state, action, taken));
        match r {
            Ok(Some(target)) => {
                self.current = target;
                assert(after_move(*old(self), *self, taken, Ok(InlineNext::Enter)));
                Ok(InlineNext::Enter)
            },
            Ok(None) => {
                assert(after_move(*old(self), *self, taken, Ok(InlineNext::Done)));
                Ok(InlineNext::Done)
            },
            Err(e) => {
                assert(after_move(*old(self), *self, taken, Err(e)));
                Err(e)
            },
        }
    }

    /// Settles what the node left behind, in this order: its changes are made, the
    /// checkpoint sink is told, the callback is told, and what the node asked for
    /// is looked at. Where it asked for a decision, the run waits; otherwise it
    /// moves on in the new state.
    pub fn after_node<S: WorkflowState, T: StreamSink, K: CheckpointSink<S>, P, N, C, B>(
        &mut self,
        graph: &Graph<N, C>,
        engine: &mut ExecutionEngine<'_, S, T, K, P>,
        callback: &mut B,
        elapsed: Duration,
    ) -> (next: Result<InlineNext, GraphError>) where C: Fn(&S) -> bool, B: StepCallback
        requires
            routing::conditions_total::<S, C>(graph.edges@),
        ensures
            workflow_state::batch_effect(
                old(engine).mutations@,
                *old(engine).state,
                *final(engine).state,
            ),
            final(engine).mutations@ == Seq::<S::Mutation>::empty(),
            final(engine).control.next is None,
            final(engine).control.signal is None,
            final(engine).stream == old(engine).stream,
            final(engine).cancel == old(engine).cancel,
            final(engine).metadata == old(engine).metadata,
            final(engine).flow_events == old(engine).flow_events,
            stepping::goes_on(old(self).steps(), final(self).steps(), false),
            final(self).step == old(self).step,
            final(self).max_steps == old(self).max_steps,
            told_checkpoint(
                old(engine).checkpoint_sink,
                final(engine).checkpoint_sink,
                *final(engine).state,
                old(self).current@,
                old(self).step,
            ),
            B::stepped(
                *old(callback),
                *final(callback),
                old(self).current@,
                old(self).step,
                elapsed,
            ),
            *final(final(engine).state) == *final(old(engine).state),
            old(engine).checkpoint_sink matches Some(b) ==> (final(engine).checkpoint_sink matches Some(
                a,
            ) && *final(a) == *final(b)),
            match old(engine).control.signal {
                Some(ExecutionSignal::Pause { barrier_id, timeout }) => *final(self) == *old(self)
                    && next == Ok::<InlineNext, GraphError>(
                    InlineNext::Wait { barrier_id, timeout, action: old(engine).control.route() },
                ),
                None => exists|taken: Move| #[trigger]
                    routing::moves(
                        *graph,
                        old(self).current@,
                        *final(engine).state,
                        old(engine).control.route(),
                        taken,
                    ) && after_move(*old(self), *final(self), taken, next),
            },
            match (old(engine).control.signal, old(engine).control.next) {
                (Some(_), _) => next matches Ok(InlineNext::Wait { .. }),
                (None, Some(NextAction::Goto(t))) => next matches Ok(InlineNext::Enter)
                    && final(self).current@ == t@,
                (None, Some(NextAction::End)) => next matches Ok(InlineNext::Done),
                (None, _) => !(next matches Ok(InlineNext::Wait { .. })) && (next matches Ok(
                    InlineNext::Done,
                ) <==> old(self).current@ == graph.end@),
            },
    {
        engine.commit();
        engine.emit_checkpoint(self.current.as_str(), self.step);
        callback.on_step(self.current.as_str(), self.step, elapsed);
        let (action, signal) = engine.take_control();
        match signal {
            Some(ExecutionSignal::Pause { barrier_id, timeout }) => {
                Ok(InlineNext::Wait { barrier_id, timeout, action })
            },
            None => self.proceed(graph, &*engine.state, action),
        }
    }

    /// Goes on after a wait. A modification shows in the state. Where the time was
    /// up, the default action of the barrier is what was decided. A reroute sends the
    /// run to its target, anything else lets it move on in the new state, and a
    /// cancellation ends it.
    pub fn after_wait<S: WorkflowState, C: Fn(&S) -> bool, X, M>(
        &mut self,
        graph: &Graph<NodeKind<C, X, M>, C>,
        state: &mut S,
        action: NextAction,
        outcome: BarrierOutcome,
    ) -> (next: Result<InlineNext, GraphError>)
        requires
            routing::conditions_total::<S, C>(graph.edges@),
        ensures
            stepping::goes_on(old(self).steps(), final(self).steps(), false),
            final(self).step == old(self).step,
            final(self).max_steps == old(self).max_steps,
            match deciding::outcome_verdict(
                outcome,
                deciding::default_action_at(graph.nodes@, old(self).current@),
                "timeout — no decision received"@,
            ) {
                None => {
                    &&& next matches Err(e) && is_cancelled_at(e, old(self).current@)
                    &&& *final(self) == *old(self)
                    &&& *final(state) == *old(state)
                },
                Some(verdict) => {
                    &&& deciding::shown(*old(state), verdict, *final(state))
                    &&& match verdict {
                        Verdict::Reroute(target) => next matches Ok(InlineNext::Enter)
                            && final(self).current@ == target,
                        _ => exists|taken: Move| #[trigger]
                            routing::moves(
                                *graph,
                                old(self).current@,
                                *final(state),
                                action,
                                taken,
                            ) && after_move(*old(self), *final(self), taken, next),
                    }
                },
            },
    {
        let default_action = deciding::default_action(graph, self.current.as_str());
        match deciding::outcome_decision(
            outcome,
            &default_action,
            "timeout — no decision received",
        ) {
            None => Err(
                GraphError::Terminal(
                    TerminalError::BarrierCancelled { node: self.current.clone() },
                ),
            ),
            Some(decision) => {
                deciding::show(state, &decision);
                match barrier_sink::apply_barrier_decision_generic(&decision) {
                    Some(target) => {
                        self.current = target;
                        Ok(InlineNext::Enter)
                    },
                    None => self.proceed(graph, &*state, action),
                }
            },
        }
    }
}

/// A run stands where it was sent: after a jump at the node that was named, and after
/// a step along the edges at the target of an edge that leaves the node where it stood.
/// It is over only where it was ended or stood at the end node, and where it is over or
/// fails it stands where it stood.
pub proof fn law_run_stands_where_it_was_sent<S, N, C: Fn(&S) -> bool>(
    graph: Graph<N, C>,
    before: InlineRun,
    after: InlineRun,
    state: S,
    action: NextAction,
    taken: Move,
    next: Result<InlineNext, GraphError>,
)
    requires
        routing::moves(graph, before.current@, state, action, taken),
        after_move(before, after, taken, next),
    ensures
        after.step == before.step,
        after.max_steps == before.max_steps,
        !(next matches Ok(InlineNext::Wait { .. })),
        action matches NextAction::Goto(t) ==> next matches Ok(InlineNext::Enter)
            && after.current@ == t@,
        (next matches Ok(InlineNext::Done)) <==> action is End || (action is Next && before.current@
            == graph.end@),
        action is Next && (next matches Ok(InlineNext::Enter)) ==> exists|i: int|
            0 <= i < graph.edges@.len() && (#[trigger] graph.edges@[i]).from@ == before.current@
                && graph.edges@[i].to@ == after.current@,
        !(next matches Ok(InlineNext::Enter)) ==> after.current == before.current,
{
    routing::law_runs_go_where_asked(graph, before.current@, state, action, taken);
}

/// The errors of a run say what was wrong: how many steps it may take, which node there is
/// not, and at which barrier the wait was given up.
pub proof fn law_errors_say_what_was_wrong(e: GraphError, limit: usize, node: Seq<char>)
    ensures
        is_steps_exceeded(e, limit) <==> (e matches GraphError::Terminal(
            TerminalError::StepsExceeded { limit: l },
        ) && l == limit),
        is_not_found(e, node) <==> (e matches GraphError::Terminal(TerminalError::NodeNotFound(n))
            && n@ == node),
        is_cancelled_at(e, node) <==> (e matches GraphError::Terminal(
            TerminalError::BarrierCancelled { node: n },
        ) && n@ == node),
{
}

/// One who asked to be told of checkpoints is told of this one, and stays the one to be
/// told; where nobody asked, nobody is told.
pub proof fn law_checkpoints_are_told<S: WorkflowState, K: CheckpointSink<S>>(
    before: Option<&mut K>,
    after: Option<&mut K>,
    state: S,
    node: Seq<char>,
    step: usize,
)
    requires
        told_checkpoint::<S, K>(before, after, state, node, step),
    ensures
        after is Some <==> before is Some,
        before is Some ==> K::told(*before->0, *after->0, state, node, step),
{
}

} // verus!
