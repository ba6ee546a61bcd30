//! The run of a graph under observation.
//!
//! A run reports what happens as events, keeps a log, traces changes, honours
//! wildcard decisions and saves checkpoints. The program around it sends the
//! events, runs nodes, waits and saves, and hands back what came of it.

use vstd::prelude::*;

use crate::checkpoint::checkpoint_data::{Checkpoint, CheckpointSink, NodeId};
use crate::checkpoint::checkpoint_policy::TriggerPolicy;
use crate::checkpoint::trace::{MemoryTraceSink, TraceSink, TraceStep};
use crate::error::{GraphError, TerminalError};
use crate::event::{BarrierDecision, BarrierId, GraphEvent, Verdict};
use crate::exec::execution_engine::{ExecutionEngine, ExecutionSignal, NextAction};
use crate::exec::inline_run;
use crate::exec::deciding;
use crate::exec::reporting;
use crate::exec::reporting::Watch;
use crate::exec::resuming;
use crate::exec::routing;
use crate::exec::routing::Move;
use crate::exec::stepping;
use crate::exec::stepping::Steps;
use crate::graph::graph_core;
use crate::graph::graph_core::Graph;
use crate::graph::node_table;
use crate::ids::{SpanId, TraceId};
use crate::node::barrier_sink;
use crate::node::barrier_sink::BarrierOutcome;
use crate::node::node::NodeKind;
use crate::state::state::{ExecutionEntry, GraphResult};
use crate::state::workflow_state;
use crate::state::workflow_state::WorkflowState;
use crate::stream::StreamSink;
use crate::string_map::StringMap;
use crate::text;
use crate::time::{Duration, Instant};

verus! {

/// What a run wants done next.
pub enum LoopAction {
    /// Ask for the next step.
    Step,
    /// Run the node at which the run stands.
    Execute,
    /// Wait for a decision.
    Wait { barrier_id: BarrierId, timeout: Option<Duration> },
    /// Save a checkpoint, and ask for the next step.
    Save,
    /// Nothing: the run is over.
    Stop,
}

/// What a run reports, and what it wants done next.
pub struct LoopOutput<S: WorkflowState, P> {
    pub events: Vec<GraphEvent<S, P>>,
    pub action: LoopAction,
}

/// Where an observed run stands.
pub struct ExecutionLoop<S: WorkflowState> {
    pub current: String,
    pub step: usize,
    pub max_steps: usize,
    /// The run was resumed from a checkpoint.
    pub resumed: bool,
    /// The decision at the barrier from which the run was resumed has been taken,
    /// so the barrier is not run again.
    pub skip_first: bool,
    pub trace_id: TraceId,
    pub start_time: Instant,
    /// The execution of the node that runs now.
    pub span_id: SpanId,
    pub node_start: Instant,
    pub execution_log: Vec<ExecutionEntry>,
    /// The decisions that hold for every stop at a barrier.
    pub wildcard_cache: StringMap<BarrierDecision>,
    pub trace_sink: Option<MemoryTraceSink<S::Mutation>>,
    /// When checkpoints are saved, if at all.
    pub trigger: Option<TriggerPolicy>,
    /// The last node has changed the state.
    pub has_mutations: bool,
    /// The last node was a barrier.
    pub is_barrier: bool,
}

/// The state and the node with which a run begins: those of a checkpoint, or those
/// given. A checkpoint of another graph is refused.
pub fn starting_point<S: WorkflowState, N, C>(
    graph: &Graph<N, C>,
    state: S,
    restore_from: Option<Checkpoint<S>>,
) -> (begin: Result<(S, String, bool), GraphError>)
    ensures
        match restore_from {
            Some(cp) => if cp.graph_hash == graph.canonical_hash {
                begin matches Ok(b) && b.0.recovered(cp.state) && b.1@ == cp.current_node.0@ && b.2
            } else {
                begin matches Err(e) && resuming::is_foreign(e, graph.canonical_hash, cp.graph_hash)
            },
            None => begin matches Ok(b) && b.0 == state && b.1@ == graph.start@ && !b.2,
        },
{
    match restore_from {
        Some(cp) => {
            if cp.graph_hash != graph.canonical_hash() {
                return Err(resuming::foreign_checkpoint(graph.canonical_hash(), cp.graph_hash));
            }
            let node = cp.current_node.0.clone();
            Ok((S::restore(cp.state), node, true))
        },
        None => Ok((state, graph.start_node().to_owned(), false)),
    }
}

/// The event says that the run has failed with that error, in a copy of that state.
pub open spec fn is_failure<S: WorkflowState, P>(
    e: GraphEvent<S, P>,
    error: GraphError,
    state: S,
) -> bool {
    e matches GraphEvent::GraphError { error: f, state: s } && f == error && cloned(state, s)
}

/// The event says that the run is complete, with what it leaves.
pub open spec fn is_completion<S: WorkflowState, P>(
    e: GraphEvent<S, P>,
    run: ExecutionLoop<S>,
    state: S,
    now: Instant,
) -> bool {
    e matches GraphEvent::GraphComplete { result } && result.trace_id == run.trace_id && cloned(
        state,
        result.state,
    ) && result.execution_log@ == run.execution_log@ && result.duration@ == now.since(
        run.start_time,
    ) && result.trace == (match run.trace_sink {
        Some(sink) => Some(sink.trace),
        None => None,
    })
}

/// The event says that a decision was taken.
pub open spec fn is_resolved<S: WorkflowState, P>(
    e: GraphEvent<S, P>,
    id: (Seq<char>, u32),
    decision: Verdict,
) -> bool {
    e matches GraphEvent::BarrierResolved { barrier_id, decision: d } && barrier_id@ == id && d@
        == decision
}

/// The event says that the run waits for a decision.
pub open spec fn is_waiting<S: WorkflowState, P>(
    e: GraphEvent<S, P>,
    id: (Seq<char>, u32),
    node: Seq<char>,
    span: SpanId,
) -> bool {
    e matches GraphEvent::BarrierWaiting { barrier_id, node_name, span_id } && barrier_id@ == id
        && node_name@ == node && span_id == span
}

/// The event says that a node has ended.
pub open spec fn is_node_end<S: WorkflowState, P>(
    e: GraphEvent<S, P>,
    run: ExecutionLoop<S>,
    success: bool,
    now: Instant,
) -> bool {
    e matches GraphEvent::NodeEnd { node_name, trace_id, span_id, success: ok, duration }
        && node_name@ == run.current@ && trace_id == run.trace_id && span_id == run.span_id && ok
        == success && duration@ == now.since(run.node_start)
}

/// Nothing of the run has changed but where it stands.
pub open spec fn only_moved<S: WorkflowState>(
    before: ExecutionLoop<S>,
    after: ExecutionLoop<S>,
) -> bool {
    after == (ExecutionLoop { current: after.current, ..before })
}

/// The action after a move that does not end the run.
pub open spec fn next_or_save<S: WorkflowState>(run: ExecutionLoop<S>) -> LoopAction {
    match run.trigger {
        Some(t) => if t.due(run.has_mutations, run.is_barrier) {
            LoopAction::Save
        } else {
            LoopAction::Step
        },
        None => LoopAction::Step,
    }
}

/// The action after a decision with which a resumed run began. No node has run, so a
/// checkpoint is due only where decisions are what it is saved after.
pub open spec fn save_decision<S: WorkflowState>(run: ExecutionLoop<S>) -> LoopAction {
    if run.trigger == Some(TriggerPolicy::BarrierOnly) {
        LoopAction::Save
    } else {
        LoopAction::Step
    }
}

/// What comes of a move: the end of the run, another node with or without a
/// checkpoint, or a failure.
pub open spec fn routed<S: WorkflowState, P>(
    before: ExecutionLoop<S>,
    after: ExecutionLoop<S>,
    state: S,
    now: Instant,
    taken: Move,
    events: Seq<GraphEvent<S, P>>,
    action: LoopAction,
) -> bool {
    match taken {
        Move::Done => {
            &&& action is Stop
            &&& events.len() == 1
            &&& is_completion(events[0], before, state, now)
        },
        Move::To(t) => {
            &&& action == next_or_save(before)
            &&& events.len() == 0
            &&& after.current@ == t
            &&& only_moved(before, after)
        },
        Move::Fail(e) => {
            &&& action is Stop
            &&& events.len() == 1
            &&& is_failure(events[0], e, state)
            &&& after == before
        },
    }
}

/// The barrier is not, or has, the time limit given.
pub open spec fn barrier_timeout<C, X, M>(node: NodeKind<C, X, M>) -> Option<Duration> {
    match node {
        NodeKind::Barrier(b) => b.timeout,
        _ => None,
    }
}

impl<S: WorkflowState> ExecutionLoop<S> {
    /// A run at a node, with nothing done yet.
    pub fn new(
        current: String,
        resumed: bool,
        max_steps: usize,
        trace_id: TraceId,
        start_time: Instant,
        trace_sink: Option<MemoryTraceSink<S::Mutation>>,
        trigger: Option<TriggerPolicy>,
    ) -> (run: Self)
        ensures
            run.current == current,
            run.step == 0,
            run.max_steps == max_steps,
            run.resumed == resumed,
            !run.skip_first,
            run.trace_id == trace_id,
            run.start_time == start_time,
            run.execution_log@ == Seq::<ExecutionEntry>::empty(),
            run.wildcard_cache@ == Map::<Seq<char>, BarrierDecision>::empty(),
            run.trace_sink == trace_sink,
            run.trigger == trigger,
            !run.has_mutations,
            !run.is_barrier,
    {
        ExecutionLoop {
            current,
            step: 0,
            max_steps,
            resumed,
            skip_first: false,
            trace_id,
            start_time,
            span_id: SpanId(0),
            node_start: start_time,
            execution_log: Vec::new(),
            wildcard_cache: StringMap::new(),
            trace_sink,
            trigger,
            has_mutations: false,
            is_barrier: false,
        }
    }

    /// How far the run has come.
    pub open spec fn steps(self) -> Steps {
        Steps { taken: self.step, limit: self.max_steps }
    }

    fn failure<P>(state: &S, error: GraphError) -> (out: LoopOutput<S, P>)
        ensures
            out.action is Stop,
            out.events@.len() == 1,
            is_failure(out.events@[0], error, *state),
            reporting::ends_rightly(out.events@, out.action is Stop),
            reporting::in_place(None, out.events@, None, false),
    {
        let mut events: Vec<GraphEvent<S, P>> = Vec::new();
        events.push(GraphEvent::GraphError { error, state: state.clone() });
        proof {
            reporting::lemma_one(
                Watch { running: None, resolved: false },
                events@,
                false,
            );
        }
        LoopOutput { events, action: LoopAction::Stop }
    }

    /// What a run that cannot begin reports: that it started, and why it failed.
    pub fn refused<P>(trace_id: TraceId, state: &S, error: GraphError) -> (out: LoopOutput<S, P>)
        ensures
            out.action is Stop,
            out.events@.len() == 2,
            out.events@[0] == (GraphEvent::<S, P>::GraphStart { trace_id }),
            is_failure(out.events@[1], error, *state),
            reporting::ends_rightly(out.events@, out.action is Stop),
            reporting::in_place(None, out.events@, None, false),
    {
        let mut events: Vec<GraphEvent<S, P>> = Vec::new();
        events.push(GraphEvent::GraphStart { trace_id });
        events.push(GraphEvent::GraphError { error, state: state.clone() });
        proof {
            reporting::lemma_two(
                Watch { running: None, resolved: false },
                events@,
                false,
            );
        }
        LoopOutput { events, action: LoopAction::Stop }
    }

    fn decision_action(&self) -> (action: LoopAction)
        ensures
            action == save_decision(*self),
    {
        match self.trigger {
            Some(TriggerPolicy::BarrierOnly) => LoopAction::Save,
            _ => LoopAction::Step,
        }
    }

    fn next_action(&self) -> (action: LoopAction)
        ensures
            action == next_or_save(*self),
    {
        let due = match self.trigger {
            Some(TriggerPolicy::EveryNode) => true,
            Some(TriggerPolicy::BarrierOnly) => self.is_barrier,
            Some(TriggerPolicy::OnMutation) => self.has_mutations,
            Some(TriggerPolicy::Manual) => false,
            None => false,
        };
        if due {
            LoopAction::Save
        } else {
            LoopAction::Step
        }
    }

    /// The event that completes the run, with what the run leaves.
    pub fn send_complete<P>(&mut self, state: &S, now: Instant) -> (e: GraphEvent<S, P>)
        ensures
            is_completion(e, *old(self), *state, now),
            *final(self) == (ExecutionLoop {
                execution_log: final(self).execution_log,
                trace_sink: final(self).trace_sink,
                ..*old(self)
            }),
    {
        let mut log: Vec<ExecutionEntry> = Vec::new();
        core::mem::swap(&mut log, &mut self.execution_log);
        let trace = match self.trace_sink.take() {
            Some(sink) => Some(sink.into_trace()),
            None => None,
        };
        GraphEvent::GraphComplete {
            result: GraphResult {
                trace_id: self.trace_id,
                state: state.clone(),
                execution_log: log,
                duration: now.duration_since(self.start_time),
                trace,
            },
        }
    }

    /// Begins the run. A run that was resumed at a barrier waits for a decision
    /// anew; decisions from before do not count.
    pub fn begin<P, C, X, M>(
        &mut self,
        graph: &Graph<NodeKind<C, X, M>, C>,
        span_id: SpanId,
    ) -> (out: LoopOutput<S, P>)
        ensures
            *final(self) == *old(self),
            reporting::ends_rightly(out.events@, out.action is Stop),
            reporting::in_place(None, out.events@, None, false),
            stepping::goes_on(old(self).steps(), final(self).steps(), false),
            out.events@.len() > 0,
            out.events@[0] == (GraphEvent::<S, P>::GraphStart { trace_id: old(self).trace_id }),
            if old(self).resumed && node_table::has_node(graph.nodes@, old(self).current@)
                && node_table::node_named(graph.nodes@, old(self).current@) is Barrier {
                &&& out.events@.len() == 2
                &&& is_waiting(
                    out.events@[1],
                    (old(self).current@, 0u32),
                    old(self).current@,
                    span_id,
                )
                &&& out.action matches LoopAction::Wait { barrier_id, timeout } && barrier_id@ == (
                    old(self).current@,
                    0u32,
                ) && timeout == barrier_timeout(
                    node_table::node_named(graph.nodes@, old(self).current@),
                )
            } else {
                out.events@.len() == 1 && out.action is Step
            },
    {
        let mut events: Vec<GraphEvent<S, P>> = Vec::new();
        events.push(GraphEvent::GraphStart { trace_id: self.trace_id });
        if self.resumed {
            if let Some(node) = graph.nodes.get(self.current.as_str()) {
                if let Some(barrier) = node.as_barrier() {
                    let barrier_id = BarrierId::new(self.current.as_str(), 0);
                    events.push(
                        GraphEvent::BarrierWaiting {
                            barrier_id: barrier_id.clone(),
                            node_name: self.current.clone(),
                            span_id,
                        },
                    );
                    proof {
                        reporting::lemma_two(
                            Watch { running: None, resolved: false },
                            events@,
                            false,
                        );
                    }
                    return LoopOutput {
                        events,
                        action: LoopAction::Wait { barrier_id, timeout: barrier.timeout },
                    };
                }
            }
        }
        proof {
            reporting::lemma_one(Watch { running: None, resolved: false }, events@, false);
        }
        LoopOutput { events, action: LoopAction::Step }
    }

    /// Goes on after the wait with which a resumed run began. A modification shows in
    /// the state. Where the time was up, the default action of the barrier is what was
    /// decided. A reroute sends the run to its target. Otherwise the run moves on
    /// without running the barrier again. A cancellation ends the run.
    pub fn after_rewait<P, C, X, M>(
        &mut self,
        graph: &Graph<NodeKind<C, X, M>, C>,
        state: &mut S,
        barrier_id: BarrierId,
        outcome: BarrierOutcome,
    ) -> (out: LoopOutput<S, P>)
        ensures
            reporting::ends_rightly(out.events@, out.action is Stop),
            reporting::in_place(None, out.events@, None, false),
            stepping::goes_on(old(self).steps(), final(self).steps(), false),
            out.events@.len() == 1,
            match deciding::outcome_verdict(
                outcome,
                deciding::default_action_at(graph.nodes@, old(self).current@),
                "timeout on restore"@,
            ) {
                None => {
                    &&& out.action is Stop
                    &&& exists|e: GraphError| #[trigger]
                        is_failure(out.events@[0], e, *old(state)) && inline_run::is_cancelled_at(
                            e,
                            old(self).current@,
                        )
                    &&& *final(self) == *old(self)
                    &&& *final(state) == *old(state)
                },
                Some(verdict) => {
                    &&& is_resolved(out.events@[0], barrier_id@, verdict)
                    &&& deciding::shown(*old(state), verdict, *final(state))
                    &&& final(self).current@ == (match verdict {
                        Verdict::Reroute(t) => t,
                        _ => old(self).current@,
                    })
                    &&& *final(self) == (ExecutionLoop {
                        current: final(self).current,
                        skip_first: !(verdict is Reroute),
                        ..*old(self)
                    })
                    &&& out.action == (if verdict is Reroute {
                        save_decision(*old(self))
                    } else {
                        LoopAction::Step
                    })
                },
            },
    {
        let default_action = deciding::default_action(graph, self.current.as_str());
        match deciding::outcome_decision(outcome, &default_action, "timeout on restore") {
            None => {
                let error = GraphError::Terminal(
                    TerminalError::BarrierCancelled { node: self.current.clone() },
                );
                let ghost e = error;
                let out = Self::failure(&*state, error);
                assert(is_failure(out.events@[0], e, *state));
                out
            },
            Some(decision) => {
                deciding::show(state, &decision);
                let target = barrier_sink::apply_barrier_decision_generic(&decision);
                let mut events: Vec<GraphEvent<S, P>> = Vec::new();
                events.push(GraphEvent::BarrierResolved { barrier_id, decision });
                proof {
                    reporting::lemma_one(
                        Watch { running: None, resolved: false },
                        events@,
                        false,
                    );
                }
                match target {
                    Some(t) => {
                        self.current = t;
                        self.skip_first = false;
                        let action = self.decision_action();
                        LoopOutput { events, action }
                    },
                    None => {
                        self.skip_first = true;
                        LoopOutput { events, action: LoopAction::Step }
                    },
                }
            },
        }
    }

    /// What the first step of a run does whose barrier was decided on resumption:
    /// it goes along the edges without running the barrier.
    pub open spec fn skips<P, N, C: Fn(&S) -> bool>(
        before: Self,
        after: Self,
        graph: Graph<N, C>,
        state: S,
        now: Instant,
        out: LoopOutput<S, P>,
    ) -> bool {
        exists|next: Result<String, GraphError>| #[trigger]
            graph_core::routes_inline(graph.edges@, before.current@, &state, next) && (match next {
                Ok(t) => {
                    &&& out.action == save_decision(before)
                    &&& out.events@.len() == 0
                    &&& after.current@ == t@
                    &&& after == (ExecutionLoop { current: after.current, step: 1, ..before })
                },
                Err(_) => if before.current@ == graph.end@ {
                    &&& out.action is Stop
                    &&& out.events@.len() == 1
                    &&& is_completion(out.events@[0], before, state, now)
                } else {
                    &&& out.action is Step
                    &&& out.events@.len() == 0
                    &&& after == (ExecutionLoop { step: 1, ..before })
                },
            })
    }

    /// Takes the next step: enters the node at which the run stands, unless the run
    /// was told to stop, has entered as many nodes as it may, or there is no such
    /// node.
    pub fn next_step<P, C: Fn(&S) -> bool, X, M>(
        &mut self,
        graph: &Graph<NodeKind<C, X, M>, C>,
        state: &S,
        cancelled: bool,
        span_id: SpanId,
        now: Instant,
    ) -> (out: LoopOutput<S, P>)
        requires
            routing::conditions_total::<S, C>(graph.edges@),
        ensures
            reporting::ends_rightly(out.events@, out.action is Stop),
            reporting::in_place(
                None,
                out.events@,
                if out.action is Execute {
                    Some((final(self).span_id, final(self).current@))
                } else {
                    None
                },
                false,
            ),
            stepping::goes_on(old(self).steps(), final(self).steps(), out.action is Execute),
            if old(self).step == 0 && old(self).skip_first {
                Self::skips(*old(self), *final(self), *graph, *state, now, out)
            } else if cancelled {
                &&& out.action is Stop
                &&& out.events@.len() == 1
                &&& exists|e: GraphError| #[trigger]
                    is_failure(out.events@[0], e, *state) && inline_run::is_cancelled_at(
                        e,
                        "execution cancelled"@,
                    )
                &&& *final(self) == *old(self)
            } else if old(self).step >= old(self).max_steps {
                &&& out.action is Stop
                &&& out.events@.len() == 1
                &&& exists|e: GraphError| #[trigger]
                    is_failure(out.events@[0], e, *state) && inline_run::is_steps_exceeded(
                        e,
                        old(self).max_steps,
                    )
                &&& *final(self) == *old(self)
            } else if !node_table::has_node(graph.nodes@, old(self).current@) {
                &&& out.action is Stop
                &&& out.events@.len() == 1
                &&& exists|e: GraphError| #[trigger]
                    is_failure(out.events@[0], e, *state) && inline_run::is_not_found(
                        e,
                        old(self).current@,
                    )
                &&& *final(self) == (ExecutionLoop {
                    step: (old(self).step + 1) as usize,
                    ..*old(self)
                })
            } else {
                &&& out.action is Execute
                &&& out.events@.len() == 1
                &&& out.events@[0] matches GraphEvent::NodeStart { node_name, trace_id, span_id: s, step }
                    && node_name@ == old(self).current@ && trace_id == old(self).trace_id && s
                    == span_id && step == old(self).step + 1
                &&& *final(self) == (ExecutionLoop {
                    step: (old(self).step + 1) as usize,
                    span_id,
                    node_start: now,
                    is_barrier: node_table::node_named(
                        graph.nodes@,
                        old(self).current@,
                    ) is Barrier,
                    ..*old(self)
                })
            },
    {
        let ghost before = *self;
        if self.step == 0 && self.skip_first {
            proof {
                routing::lemma_total_askable(graph.edges@, self.current@, *state);
            }
            let next = graph.resolve_next_inline(self.current.as_str(), state);
            let ghost taken = next;
            assert(graph_core::routes_inline(graph.edges@, before.current@, state, taken));
            let mut events: Vec<GraphEvent<S, P>> = Vec::new();
            let mut action = LoopAction::Step;
            match next {
                Ok(target) => {
                    self.current = target;
                    action = self.decision_action();
                },
                Err(_) => {
                    if text::same_text(self.current.as_str(), graph.end_node()) {
                        let e = self.send_complete(state, now);
                        events.push(e);
                        proof {
                            reporting::lemma_one(
                                Watch { running: None, resolved: false },
                                events@,
                                false,
                            );
                        }
                        let out = LoopOutput { events, action: LoopAction::Stop };
                        assert(Self::skips(before, *self, *graph, *state, now, out));
                        return out;
                    }
                },
            }
            self.step = 1;
            let out = LoopOutput { events, action };
            assert(Self::skips(before, *self, *graph, *state, now, out));
            return out;
        }
        if cancelled {
            let error = GraphError::Terminal(
                TerminalError::BarrierCancelled { node: "execution cancelled".to_owned() },
            );
            let ghost e = error;
            let out = Self::failure(state, error);
            assert(is_failure(out.events@[0], e, *state));
            return out;
        }
        if self.step >= self.max_steps {
            let error = GraphError::Terminal(
                TerminalError::StepsExceeded { limit: self.max_steps },
            );
            let ghost e = error;
            let out = Self::failure(state, error);
            assert(is_failure(out.events@[0], e, *state));
            return out;
        }
        self.step += 1;
        match graph.nodes.get(self.current.as_str()) {
            None => {
                let error = GraphError::Terminal(
                    TerminalError::NodeNotFound(self.current.clone()),
                );
                let ghost e = error;
                let out = Self::failure(state, error);
                assert(is_failure(out.events@[0], e, *state));
                out
            },
            Some(node) => {
                self.is_barrier = node.as_barrier().is_some();
                self.span_id = span_id;
                self.node_start = now;
                let mut events: Vec<GraphEvent<S, P>> = Vec::new();
                events.push(
                    GraphEvent::NodeStart {
                        node_name: self.current.clone(),
                        trace_id: self.trace_id,
                        span_id,
                        step: self.step,
                    },
                );
                proof {
                    reporting::lemma_one(
                        Watch { running: None, resolved: false },
                        events@,
                        false,
                    );
                }
                LoopOutput { events, action: LoopAction::Execute }
            },
        }
    }

    /// Ends the run after a node that failed.
    pub fn after_failed_node<P>(&mut self, state: &S, now: Instant) -> (out: LoopOutput<S, P>)
        ensures
            *final(self) == *old(self),
            reporting::ends_rightly(out.events@, out.action is Stop),
            reporting::in_place(
                Some((old(self).span_id, old(self).current@)),
                out.events@,
                None,
                false,
            ),
            stepping::goes_on(old(self).steps(), final(self).steps(), false),
            out.action is Stop,
            out.events@.len() == 2,
            is_node_end(out.events@[0], *old(self), false, now),
            exists|e: GraphError| #[trigger]
                is_failure(out.events@[1], e, *state) && (e matches GraphError::Terminal(
                    TerminalError::NodeExecutionFailed { node, source },
                ) && node@ == old(self).current@ && source@ == "node execution failed"@),
    {
        let mut events: Vec<GraphEvent<S, P>> = Vec::new();
        events.push(
            GraphEvent::NodeEnd {
                node_name: self.current.clone(),
                trace_id: self.trace_id,
                span_id: self.span_id,
                success: false,
                duration: now.duration_since(self.node_start),
            },
        );
        let error = GraphError::Terminal(
            TerminalError::NodeExecutionFailed {
                node: self.current.clone(),
                source: "node execution failed".to_owned(),
            },
        );
        let ghost e = error;
        events.push(GraphEvent::GraphError { error, state: state.clone() });
        assert(is_failure(events@[1], e, *state));
        proof {
            reporting::lemma_two(
                Watch { running: Some((self.span_id, self.current@)), resolved: false },
                events@,
                false,
            );
        }
        LoopOutput { events, action: LoopAction::Stop }
    }

    /// The trace has got one more step, with copies of its changes.
    pub open spec fn adds_step(
        before: MemoryTraceSink<S::Mutation>,
        after: MemoryTraceSink<S::Mutation>,
        step: usize,
        node: Seq<char>,
        batch: Seq<S::Mutation>,
    ) -> bool where S::Mutation: Clone {
        exists|s: TraceStep<S::Mutation>| #[trigger]
            <MemoryTraceSink<S::Mutation> as TraceSink<S::Mutation>>::recorded(before, after, s)
                && s.step == step && s.node_id.0@ == node && s.mutations@.len() == batch.len()
                && forall|i: int|
                0 <= i < batch.len() ==> cloned(#[trigger] batch[i], s.mutations@[i])
    }

    /// The trace after a step: as it was where nothing changed, or with the step
    /// added, its changes copied.
    pub open spec fn traced(
        before: Option<MemoryTraceSink<S::Mutation>>,
        after: Option<MemoryTraceSink<S::Mutation>>,
        step: usize,
        node: Seq<char>,
        batch: Seq<S::Mutation>,
    ) -> bool where S::Mutation: Clone {
        match before {
            None => after is None,
            Some(b) => if batch.len() == 0 {
                after == before
            } else {
                after matches Some(a) && Self::adds_step(b, a, step, node, batch)
            },
        }
    }

    /// Settles what a node that succeeded left behind: its changes are traced and
    /// made, and the log and the observers are told.
    pub fn settle<T: StreamSink, K: CheckpointSink<S>, P>(
        &mut self,
        engine: &mut ExecutionEngine<'_, S, T, K, P>,
        now: Instant,
    ) -> (e: GraphEvent<S, P>) where S::Mutation: Clone
        ensures
            workflow_state::batch_effect(
                old(engine).mutations@,
                *old(engine).state,
                *final(engine).state,
            ),
            final(engine).mutations@ == Seq::<S::Mutation>::empty(),
            final(engine).control == old(engine).control,
            *final(final(engine).state) == *final(old(engine).state),
            final(engine).stream == old(engine).stream,
            final(engine).cancel == old(engine).cancel,
            final(engine).metadata == old(engine).metadata,
            final(engine).flow_events == old(engine).flow_events,
            final(engine).checkpoint_sink == old(engine).checkpoint_sink,
            Self::traced(
                old(self).trace_sink,
                final(self).trace_sink,
                old(self).step,
                old(self).current@,
                old(engine).mutations@,
            ),
            final(self).has_mutations == (old(engine).mutations@.len() > 0),
            final(self).execution_log@.len() == old(self).execution_log@.len() + 1,
            final(self).execution_log@.drop_last() == old(self).execution_log@,
            final(self).execution_log@.last() == (ExecutionEntry {
                step: old(self).step,
                node_name: old(self).current,
                start_time: old(self).node_start,
                end_time: old(self).node_start.later(now.since(old(self).node_start) as nat),
                success: true,
                error: None,
            }),
            *final(self) == (ExecutionLoop {
                trace_sink: final(self).trace_sink,
                has_mutations: final(self).has_mutations,
                execution_log: final(self).execution_log,
                ..*old(self)
            }),
            is_node_end(e, *old(self), true, now),
            stepping::goes_on(old(self).steps(), final(self).steps(), false),
            reporting::ends_rightly(seq![e], false),
            reporting::in_place(
                Some((old(self).span_id, old(self).current@)),
                seq![e],
                None,
                false,
            ),
    {
        let batch = engine.take_commit_batch();
        let ghost changes = batch@;
        self.has_mutations = batch.len() > 0;
        let ghost sink0 = self.trace_sink;
        match self.trace_sink.take() {
            Some(sink) => {
                let mut sink = sink;
                let ghost was = sink;
                if batch.len() > 0 {
                    let step = TraceStep {
                        step: self.step,
                        node_id: NodeId(self.current.clone()),
                        mutations: batch.clone(),
                    };
                    let ghost s = step;
                    sink.record_step(step);
                    proof {
                        assert forall|i: int| 0 <= i < changes.len() implies cloned(
                            #[trigger] changes[i],
                            s.mutations@[i],
                        ) by {
                            assert(cloned(batch[i], s.mutations[i]));
                        }
                        assert(<MemoryTraceSink<S::Mutation> as TraceSink<S::Mutation>>::recorded(
                            was,
                            sink,
                            s,
                        ));
                        assert(Self::adds_step(was, sink, self.step, self.current@, changes));
                    }
                }
                self.trace_sink = Some(sink);
            },
            None => {},
        }
        assert(Self::traced(sink0, self.trace_sink, self.step, self.current@, changes));
        engine.apply_batch_to_state(batch);
        let duration = now.duration_since(self.node_start);
        self.execution_log.push(
            ExecutionEntry {
                step: self.step,
                node_name: self.current.clone(),
                start_time: self.node_start,
                end_time: self.node_start.plus(duration),
                success: true,
                error: None,
            },
        );
        assert(self.execution_log@.drop_last() =~= old(self).execution_log@);
        let e = GraphEvent::NodeEnd {
            node_name: self.current.clone(),
            trace_id: self.trace_id,
            span_id: self.span_id,
            success: true,
            duration,
        };
        proof {
            reporting::lemma_one(
                Watch { running: Some((self.span_id, self.current@)), resolved: false },
                seq![e],
                false,
            );
        }
        e
    }

    fn route<P, N, C: Fn(&S) -> bool>(
        &mut self,
        graph: &Graph<N, C>,
        state: &S,
        action: NextAction,
        now: Instant,
    ) -> (out: LoopOutput<S, P>)
        requires
            routing::conditions_total::<S, C>(graph.edges@),
        ensures
            reporting::ends_rightly(out.events@, out.action is Stop),
            reporting::in_place(None, out.events@, None, false),
            stepping::goes_on(old(self).steps(), final(self).steps(), false),
            exists|taken: Move| #[trigger]
                routing::moves(*graph, old(self).current@, *state, action, taken) && routed(
                    *old(self),
                    *final(self),
                    *state,
                    now,
                    taken,
                    out.events@,
                    out.action,
                ),
    {
        let ghost before = *self;
        let r = routing::next_move(graph, self.current.as_str(), state, action);
        let ghost taken = routing::move_of(r);
        assert(routing::moves(*graph, before.current@, *state, action, taken));
        let mut events: Vec<GraphEvent<S, P>> = Vec::new();
        match r {
            Ok(None) => {
                let e = self.send_complete(state, now);
                events.push(e);
                proof {
                    reporting::lemma_one(
                        Watch { running: None, resolved: false },
                        events@,
                        false,
                    );
                }
                let out = LoopOutput { events, action: LoopAction::Stop };
                assert(routed(before, *self, *state, now, taken, out.events@, out.action));
                out
            },
            Ok(Some(target)) => {
                self.current = target;
                let action = self.next_action();
                let out = LoopOutput { events, action };
                assert(routed(before, *self, *state, now, taken, out.events@, out.action));
                out
            },
            Err(e) => {
                let out = Self::failure(state, e);
                assert(routed(before, *self, *state, now, taken, out.events@, out.action));
                out
            },
        }
    }

    /// Moves on after a node that succeeded and was settled. Where the node asked
    /// for a decision, the run waits for it first.
    pub fn proceed<T: StreamSink, K: CheckpointSink<S>, P, N, C: Fn(&S) -> bool>(
        &mut self,
        graph: &Graph<N, C>,
        engine: &mut ExecutionEngine<'_, S, T, K, P>,
        now: Instant,
    ) -> (out: LoopOutput<S, P>)
        requires
            routing::conditions_total::<S, C>(graph.edges@),
        ensures
            reporting::ends_rightly(out.events@, out.action is Stop),
            reporting::in_place(None, out.events@, None, false),
            stepping::goes_on(old(self).steps(), final(self).steps(), false),
            final(engine).state == old(engine).state,
            final(engine).control.next is None,
            final(engine).control.signal is None,
            final(engine).mutations == old(engine).mutations,
            final(engine).stream == old(engine).stream,
            final(engine).cancel == old(engine).cancel,
            final(engine).metadata == old(engine).metadata,
            final(engine).flow_events == old(engine).flow_events,
            final(engine).checkpoint_sink == old(engine).checkpoint_sink,
            match old(engine).control.signal {
                Some(ExecutionSignal::Pause { barrier_id, timeout }) => {
                    &&& *final(self) == *old(self)
                    &&& out.events@.len() == 1
                    &&& is_waiting(
                        out.events@[0],
                        barrier_id@,
                        old(self).current@,
                        old(self).span_id,
                    )
                    &&& out.action matches LoopAction::Wait { barrier_id: id, timeout: t } && id@
                        == barrier_id@ && t == timeout
                },
                None => exists|taken: Move| #[trigger]
                    routing::moves(
                        *graph,
                        old(self).current@,
                        *old(engine).state,
                        old(engine).control.route(),
                        taken,
                    ) && routed(
                        *old(self),
                        *final(self),
                        *old(engine).state,
                        now,
                        taken,
                        out.events@,
                        out.action,
                    ),
            },
            match (old(engine).control.signal, old(engine).control.next) {
                (Some(_), _) => out.action is Wait,
                (None, Some(NextAction::Goto(t))) => (out.action is Step || out.action is Save)
                    && final(self).current@ == t@,
                (None, Some(NextAction::End)) => out.action is Stop && out.events@.last() is GraphComplete,
                (None, _) => (out.action is Stop && out.events@.last() is GraphComplete)
                    <==> old(self).current@ == graph.end@,
            },
    {
        let (action, signal) = engine.take_control();
        match signal {
            Some(ExecutionSignal::Pause { barrier_id, timeout }) => {
                let mut events: Vec<GraphEvent<S, P>> = Vec::new();
                events.push(
                    GraphEvent::BarrierWaiting {
                        barrier_id: barrier_id.clone(),
                        node_name: self.current.clone(),
                        span_id: self.span_id,
                    },
                );
                proof {
                    reporting::lemma_one(
                        Watch { running: None, resolved: false },
                        events@,
                        false,
                    );
                }
                LoopOutput { events, action: LoopAction::Wait { barrier_id, timeout } }
            },
            None => self.route(graph, &*engine.state, action, now),
        }
    }

    /// Goes on after a wait. A modification shows in the state. Where the time was
    /// up, the default action of the barrier is what was decided. A reroute sends the
    /// run to its target; anything else lets the run move along the edges, whatever the
    /// node asked for; a cancellation ends the run.
    pub fn after_wait<P, C: Fn(&S) -> bool, X, M>(
        &mut self,
        graph: &Graph<NodeKind<C, X, M>, C>,
        state: &mut S,
        barrier_id: BarrierId,
        outcome: BarrierOutcome,
        now: Instant,
    ) -> (out: LoopOutput<S, P>)
        requires
            routing::conditions_total::<S, C>(graph.edges@),
        ensures
            reporting::ends_rightly(out.events@, out.action is Stop),
            reporting::in_place(None, out.events@, None, false),
            stepping::goes_on(old(self).steps(), final(self).steps(), false),
            match deciding::outcome_verdict(
                outcome,
                deciding::default_action_at(graph.nodes@, old(self).current@),
                "timeout"@,
            ) {
                None => {
                    &&& out.action is Stop
                    &&& out.events@.len() == 1
                    &&& exists|e: GraphError| #[trigger]
                        is_failure(out.events@[0], e, *old(state)) && inline_run::is_cancelled_at(
                            e,
                            old(self).current@,
                        )
                    &&& *final(self) == *old(self)
                    &&& *final(state) == *old(state)
                },
                Some(verdict) => {
                    &&& out.events@.len() > 0
                    &&& is_resolved(out.events@[0], barrier_id@, verdict)
                    &&& deciding::shown(*old(state), verdict, *final(state))
                    &&& match verdict {
                        Verdict::Reroute(target) => {
                            &&& out.action == next_or_save(*old(self))
                            &&& out.events@.len() == 1
                            &&& final(self).current@ == target
                            &&& only_moved(*old(self), *final(self))
                        },
                        _ => exists|taken: Move| #[trigger]
                            routing::moves(
                                *graph,
                                old(self).current@,
                                *final(state),
                                NextAction::Next,
                                taken,
                            ) && routed(
                                *old(self),
                                *final(self),
                                *final(state),
                                now,
                                taken,
                                out.events@.skip(1),
                                out.action,
                            ),
                    }
                },
            },
    {
        let default_action = deciding::default_action(graph, self.current.as_str());
        let decision = match deciding::outcome_decision(outcome, &default_action, "timeout") {
            None => {
                let error = GraphError::Terminal(
                    TerminalError::BarrierCancelled { node: self.current.clone() },
                );
                let ghost e = error;
                let out = Self::failure(&*state, error);
                assert(is_failure(out.events@[0], e, *state));
                return out;
            },
            Some(decision) => decision,
        };
        deciding::show(state, &decision);
        let target = barrier_sink::apply_barrier_decision_generic(&decision);
        let mut events: Vec<GraphEvent<S, P>> = Vec::new();
        events.push(GraphEvent::BarrierResolved { barrier_id, decision });
        let ghost head = events@;
        proof {
            reporting::lemma_one(Watch { running: None, resolved: false }, head, false);
        }
        if let Some(t) = target {
            let action = self.next_action();
            self.current = t;
            return LoopOutput { events, action };
        }
        let out = self.route(graph, &*state, NextAction::Next, now);
        let mut rest = out.events;
        let ghost tail = rest@;
        events.append(&mut rest);
        proof {
            assert(events@ =~= head + tail);
            assert(events@.skip(1) =~= tail);
            reporting::lemma_follows(None, head, None, tail, None, false);
            assert forall|i: int| 0 <= i < events@.len() - 1 && out.action is Stop implies !reporting::is_terminal(
                #[trigger] events@[i],
            ) by {
                if i > 0 {
                    assert(events@[i] == tail[i - 1]);
                }
            }
            assert forall|i: int| 0 <= i < events@.len() && !(out.action is Stop) implies !reporting::is_terminal(
                #[trigger] events@[i],
            ) by {
                if i > 0 {
                    assert(events@[i] == tail[i - 1]);
                }
            }
            if out.action is Stop {
                assert(events@.last() == tail.last());
            }
        }
        LoopOutput { events, action: out.action }
    }
}

/// An observed run stands where it was sent: after a jump at the node that was named,
/// and after a step along the edges at the target of an edge that leaves the node where
/// it stood. It completes only where it was ended or stood at the end node, with the
/// state that it has; and it never waits, nor runs a node, before the next step.
pub proof fn law_observed_run_stands_where_it_was_sent<S: WorkflowState, P, N, C: Fn(&S) -> bool>(
    graph: Graph<N, C>,
    before: ExecutionLoop<S>,
    after: ExecutionLoop<S>,
    state: S,
    now: Instant,
    asked: NextAction,
    taken: Move,
    events: Seq<GraphEvent<S, P>>,
    action: LoopAction,
)
    requires
        routing::moves(graph, before.current@, state, asked, taken),
        routed(before, after, state, now, taken, events, action),
    ensures
        action is Step || action is Save || action is Stop,
        asked matches NextAction::Goto(t) ==> !(action is Stop) && after.current@ == t@,
        (action is Stop && events.last() is GraphComplete) <==> (asked is End || (asked is Next
            && before.current@ == graph.end@)),
        asked is Next && !(action is Stop) ==> exists|i: int|
            0 <= i < graph.edges@.len() && (#[trigger] graph.edges@[i]).from@ == before.current@
                && graph.edges@[i].to@ == after.current@,
        !(action is Stop) ==> events.len() == 0 && after.step == before.step
            && after.execution_log == before.execution_log && after.trace_sink == before.trace_sink,
        action is Save ==> before.trigger is Some,
        action is Stop ==> (events.last() matches GraphEvent::GraphComplete { result } ==> cloned(
            state,
            result.state,
        ) && result.execution_log@ == before.execution_log@ && result.trace_id == before.trace_id),
{
    routing::law_runs_go_where_asked(graph, before.current@, state, asked, taken);
}

/// A checkpoint is saved as the trigger says: never without one, after every node, after
/// barriers, after changes, or not at all.
pub proof fn law_saves_follow_the_trigger<S: WorkflowState>(run: ExecutionLoop<S>)
    ensures
        next_or_save(run) is Save || next_or_save(run) is Step,
        run.trigger is None ==> next_or_save(run) is Step,
        run.trigger == Some(TriggerPolicy::EveryNode) ==> next_or_save(run) is Save,
        run.trigger == Some(TriggerPolicy::Manual) ==> next_or_save(run) is Step,
        run.trigger == Some(TriggerPolicy::BarrierOnly) ==> (next_or_save(run) is Save
            <==> run.is_barrier),
        run.trigger == Some(TriggerPolicy::OnMutation) ==> (next_or_save(run) is Save
            <==> run.has_mutations),
        save_decision(run) is Save <==> run.trigger == Some(TriggerPolicy::BarrierOnly),
        save_decision(run) is Save || save_decision(run) is Step,
{
}

/// A resumed run whose barrier was decided goes to a node to which an edge leads from
/// the barrier, and takes one step for it; it is over only at the end node.
pub proof fn law_decided_barriers_are_left<S: WorkflowState, P, N, C: Fn(&S) -> bool>(
    before: ExecutionLoop<S>,
    after: ExecutionLoop<S>,
    graph: Graph<N, C>,
    state: S,
    now: Instant,
    out: LoopOutput<S, P>,
)
    requires
        ExecutionLoop::skips(before, after, graph, state, now, out),
    ensures
        !(out.action is Execute) && !(out.action is Wait),
        out.action is Stop ==> before.current@ == graph.end@ && out.events@.len() == 1
            && out.events@[0] is GraphComplete,
        !(out.action is Stop) ==> out.events@.len() == 0 && after.step == 1 && after.max_steps
            == before.max_steps && (after.current@ == before.current@ || exists|i: int|
            0 <= i < graph.edges@.len() && (#[trigger] graph.edges@[i]).from@ == before.current@
                && graph.edges@[i].to@ == after.current@),
        (exists|i: int|
            0 <= i < graph.edges@.len() && (#[trigger] graph.edges@[i]).from@ == before.current@
                && graph.edges@[i].condition is None) ==> !(out.action is Stop) && exists|i: int|
            0 <= i < graph.edges@.len() && (#[trigger] graph.edges@[i]).from@ == before.current@
                && graph.edges@[i].to@ == after.current@,
{
    let next = choose|next: Result<String, GraphError>| #[trigger]
        graph_core::routes_inline(graph.edges@, before.current@, &state, next) && (match next {
            Ok(t) => {
                &&& out.action == save_decision(before)
                &&& out.events@.len() == 0
                &&& after.current@ == t@
                &&& after == (ExecutionLoop { current: after.current, step: 1, ..before })
            },
            Err(_) => if before.current@ == graph.end@ {
                &&& out.action is Stop
                &&& out.events@.len() == 1
                &&& is_completion(out.events@[0], before, state, now)
            } else {
                &&& out.action is Step
                &&& out.events@.len() == 0
                &&& after == (ExecutionLoop { step: 1, ..before })
            },
        });
    graph_core::law_routes_follow_edges(graph.edges@, before.current@, &state, next);
}

/// The trace of a run has the changes of the node that ran, under its name and step, as
/// the last of its steps, and forgets only the oldest; a node that changes nothing
/// leaves no step.
pub proof fn law_traces_follow_the_run<S: WorkflowState>(
    before: Option<MemoryTraceSink<S::Mutation>>,
    after: Option<MemoryTraceSink<S::Mutation>>,
    step: usize,
    node: Seq<char>,
    batch: Seq<S::Mutation>,
) where S::Mutation: Clone
    requires
        ExecutionLoop::<S>::traced(before, after, step, node, batch),
    ensures
        after is Some <==> before is Some,
        batch.len() == 0 ==> after == before,
        before is Some && batch.len() > 0 && before->0.max_steps > 0 ==> {
            let steps = after->0.trace.steps@;
            &&& after->0.max_steps == before->0.max_steps
            &&& steps.len() > 0
            &&& steps.last().step == step
            &&& steps.last().node_id.0@ == node
            &&& steps.last().mutations@.len() == batch.len()
            &&& forall|i: int|
                0 <= i < batch.len() ==> cloned(#[trigger] batch[i], steps.last().mutations@[i])
            &&& before->0.trace.steps@.len() < before->0.max_steps ==> steps.drop_last()
                == before->0.trace.steps@
        },
{
    if before is Some && batch.len() > 0 && before->0.max_steps > 0 {
        let b = before->0;
        let a = after->0;
        let s = choose|s: TraceStep<S::Mutation>| #[trigger]
            <MemoryTraceSink<S::Mutation> as TraceSink<S::Mutation>>::recorded(b, a, s) && s.step
                == step && s.node_id.0@ == node && s.mutations@.len() == batch.len() && forall|i: int|
                0 <= i < batch.len() ==> cloned(#[trigger] batch[i], s.mutations@[i]);
        assert(a.trace.steps@.last() == s);
        if b.trace.steps@.len() < b.max_steps {
            assert(a.trace.steps@.drop_last() =~= b.trace.steps@);
        }
    }
}

/// What a run reports is what became of it: of a failure the error itself and the state, of
/// a completion the state, the log, the time since the start and what was traced.
pub proof fn law_ends_tell_what_became_of_the_run<S: WorkflowState, P>(
    run: ExecutionLoop<S>,
    state: S,
    now: Instant,
    error: GraphError,
    e: GraphEvent<S, P>,
)
    ensures
        is_failure(e, error, state) <==> (e matches GraphEvent::GraphError { error: f, state: s }
            && f == error && cloned(state, s)),
        is_completion(e, run, state, now) ==> e is GraphComplete,
        is_completion(e, run, state, now) ==> (e matches GraphEvent::GraphComplete { result } ==> {
            &&& result.trace_id == run.trace_id
            &&& cloned(state, result.state)
            &&& result.execution_log@ == run.execution_log@
            &&& now.nanos >= run.start_time.nanos ==> result.duration@ == now.nanos
                - run.start_time.nanos
            &&& run.trace_sink is None ==> result.trace is None
            &&& run.trace_sink matches Some(sink) ==> result.trace == Some(sink.trace)
        }),
{
}

/// What is reported of a node is told under its name, its run and its execution: that it
/// ended, and whether it went well; that a barrier waits; and that it was decided, with the
/// decision that was made. No report of one sort is one of another.
pub proof fn law_reports_name_what_they_are_about<S: WorkflowState, P>(
    run: ExecutionLoop<S>,
    success: bool,
    now: Instant,
    id: (Seq<char>, u32),
    node: Seq<char>,
    span: SpanId,
    decision: Verdict,
    e: GraphEvent<S, P>,
)
    ensures
        is_node_end(e, run, success, now) ==> (e matches GraphEvent::NodeEnd {
            node_name,
            trace_id,
            span_id,
            success: ok,
            duration,
        } && node_name@ == run.current@ && trace_id == run.trace_id && span_id == run.span_id
            && ok == success && (now.nanos >= run.node_start.nanos ==> duration@ == now.nanos
            - run.node_start.nanos)),
        is_waiting(e, id, node, span) ==> (e matches GraphEvent::BarrierWaiting {
            barrier_id,
            node_name,
            span_id,
        } && barrier_id.node_id@ == id.0 && barrier_id.occurrence == id.1 && node_name@ == node
            && span_id == span),
        is_resolved(e, id, decision) ==> (e matches GraphEvent::BarrierResolved {
            barrier_id,
            decision: d,
        } && barrier_id.node_id@ == id.0 && barrier_id.occurrence == id.1 && d@ == decision),
{
}

/// A barrier waits as long as it was told to, and no other node has a time to wait.
pub proof fn law_barriers_have_their_time<C, X, M>(node: NodeKind<C, X, M>)
    ensures
        node matches NodeKind::Barrier(b) ==> barrier_timeout(node) == b.timeout,
        !(node is Barrier) ==> barrier_timeout(node) is None,
{
}

} // verus!
