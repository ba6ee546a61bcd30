//! The run of a graph on the dynamic state, with decisions that show in the state
//! and checkpoints at chosen moments.

use vstd::prelude::*;

use crate::checkpoint::checkpoint_data::{
    Checkpoint, CheckpointId, CheckpointSink, CheckpointStoreError,
};
use crate::error::{ConditionEval, GraphError, TerminalError};
use crate::event::{BarrierDecision, BarrierId, FlowEvent, GraphEvent};
use crate::exec::execution_engine::{ExecutionEngine, ExecutionSignal, NextAction};
use crate::exec::execution_loop;
use crate::exec::inline_run;
use crate::exec::reporting;
use crate::exec::reporting::Watch;
use crate::exec::resuming;
use crate::exec::routing;
use crate::exec::stepping;
use crate::exec::stepping::Steps;
use crate::graph::graph_core;
use crate::graph::graph_core::{Edge, Graph};
use crate::graph::node_table;
use crate::ids;
use crate::ids::{SpanId, TraceId};
use crate::json::Json;
use crate::node::barrier_node;
use crate::node::barrier_node::BarrierNode;
use crate::node::node::NodeKind;
use crate::sequences;
use crate::state::delta::{Reducer, ReducerRegistry};
use crate::state::state;
use crate::state::state::{ExecutionEntry, GraphResult, State, StateMutation};
use crate::state::workflow_state;
use crate::state::workflow_state::WorkflowState;
use crate::stream::StreamSink;
use crate::text;
use crate::time::{Duration, Instant};

verus! {

/// At which moments checkpoints are saved.
#[derive(Clone, Copy, PartialEq, Eq, Structural, Debug)]
pub struct SaveMoments {
    pub on_barrier: bool,
    pub on_completion: bool,
    pub on_human_decision: bool,
    pub on_explicit: bool,
    /// After nodes that are judged worth it.
    pub adaptive: bool,
}

/// Why a checkpoint may be saved.
#[derive(Clone, Copy, PartialEq, Eq, Structural, Debug)]
pub enum CheckpointTrigger {
    /// A decision was taken.
    BarrierResolved,
    /// The run is over.
    ExecutionCompleted,
    /// A human has decided.
    HumanDecision,
    /// Someone asked for it.
    Explicit,
    /// A node has run, and was judged worth it or not.
    Adaptive(bool),
}

/// The settings of runs. `F` is the type of custom rules for keys.
pub struct GraphExecutor<F> {
    pub max_steps: usize,
    /// Whether there is a store for checkpoints.
    pub has_store: bool,
    pub moments: SaveMoments,
    /// The fingerprint of the graph, in hexadecimal.
    pub graph_hash: String,
    pub pending_reducers: Vec<(String, Reducer<F>)>,
}

impl<F> GraphExecutor<F> {
    /// Settings without a store.
    pub fn new(max_steps: usize) -> (e: Self)
        ensures
            e.max_steps == max_steps,
            !e.has_store,
            e.moments == (SaveMoments {
                on_barrier: false,
                on_completion: false,
                on_human_decision: false,
                on_explicit: false,
                adaptive: false,
            }),
            e.graph_hash@ == Seq::<char>::empty(),
            e.pending_reducers@ == Seq::<(String, Reducer<F>)>::empty(),
    {
        GraphExecutor {
            max_steps,
            has_store: false,
            moments: SaveMoments {
                on_barrier: false,
                on_completion: false,
                on_human_decision: false,
                on_explicit: false,
                adaptive: false,
            },
            graph_hash: String::new(),
            pending_reducers: Vec::new(),
        }
    }

    /// Settings for a graph with a store.
    pub fn with_checkpoint<N, C>(max_steps: usize, moments: SaveMoments, graph: &Graph<N, C>) -> (e:
        Self)
        ensures
            e.max_steps == max_steps,
            e.has_store,
            e.moments == moments,
            e.graph_hash@ == text::hex_text(graph.canonical_hash as nat, 16),
            e.pending_reducers@ == Seq::<(String, Reducer<F>)>::empty(),
    {
        GraphExecutor {
            max_steps,
            has_store: true,
            moments,
            graph_hash: graph.hash(),
            pending_reducers: Vec::new(),
        }
    }

    /// Adds a rule for a key.
    pub fn register_reducer(&mut self, key: &str, reducer: Reducer<F>)
        ensures
            final(self).pending_reducers@.len() == old(self).pending_reducers@.len() + 1,
            final(self).pending_reducers@.drop_last() == old(self).pending_reducers@,
            final(self).pending_reducers@.last().0@ == key@,
            final(self).pending_reducers@.last().1 == reducer,
            *final(self) == (GraphExecutor {
                pending_reducers: final(self).pending_reducers,
                ..*old(self)
            }),
    {
        self.pending_reducers.push((key.to_owned(), reducer));
        assert(self.pending_reducers@.drop_last() =~= old(self).pending_reducers@);
    }

    /// Sets the graph whose runs are saved.
    pub fn set_graph<N, C>(&mut self, graph: &Graph<N, C>)
        ensures
            final(self).graph_hash@ == text::hex_text(graph.canonical_hash as nat, 16),
            *final(self) == (GraphExecutor { graph_hash: final(self).graph_hash, ..*old(self) }),
    {
        self.graph_hash = graph.hash();
    }

    /// A checkpoint is to be saved.
    pub open spec fn saves(self, trigger: CheckpointTrigger) -> bool {
        self.has_store && (match trigger {
            CheckpointTrigger::BarrierResolved => self.moments.on_barrier,
            CheckpointTrigger::ExecutionCompleted => self.moments.on_completion,
            CheckpointTrigger::HumanDecision => self.moments.on_human_decision,
            CheckpointTrigger::Explicit => self.moments.on_explicit,
            CheckpointTrigger::Adaptive(worth) => self.moments.adaptive && worth,
        })
    }

    /// Whether a checkpoint is to be saved.
    pub fn should_save(&self, trigger: CheckpointTrigger) -> (save: bool)
        ensures
            save == self.saves(trigger),
    {
        let wanted = match trigger {
            CheckpointTrigger::BarrierResolved => self.moments.on_barrier,
            CheckpointTrigger::ExecutionCompleted => self.moments.on_completion,
            CheckpointTrigger::HumanDecision => self.moments.on_human_decision,
            CheckpointTrigger::Explicit => self.moments.on_explicit,
            CheckpointTrigger::Adaptive(worth) => self.moments.adaptive && worth,
        };
        wanted && self.has_store
    }
}

impl<F> Default for GraphExecutor<F> {
    fn default() -> (e: Self)
        ensures
            e.max_steps == 50,
            !e.has_store,
            e.moments == (SaveMoments {
                on_barrier: false,
                on_completion: false,
                on_human_decision: false,
                on_explicit: false,
                adaptive: false,
            }),
            e.graph_hash@ == Seq::<char>::empty(),
            e.pending_reducers@ == Seq::<(String, Reducer<F>)>::empty(),
    {
        GraphExecutor::new(50)
    }
}

/// How an edge was judged, by asking its condition.
pub open spec fn judged<C: Fn(&State) -> bool>(
    e: Edge<C>,
    state: &State,
    eval: ConditionEval,
) -> bool {
    &&& eval.edge@ == e.from@ + "→"@ + e.to@
    &&& match e.condition {
        Some(c) => eval.condition matches Some(t) && t@ == "condition"@ && call_ensures(
            c,
            (state,),
            eval.matched,
        ),
        None => eval.condition is None && !eval.matched,
    }
}

/// The judgements on the edges that leave a node, in order.
pub open spec fn all_judged<C: Fn(&State) -> bool>(
    edges: Seq<Edge<C>>,
    state: &State,
    evals: Seq<ConditionEval>,
) -> bool {
    &&& evals.len() == edges.len()
    &&& forall|i: int| 0 <= i < edges.len() ==> judged(#[trigger] edges[i], state, evals[i])
}

/// Routing that reports every edge it tried where none applies.
pub open spec fn routes_reported<C: Fn(&State) -> bool>(
    edges: Seq<Edge<C>>,
    node: Seq<char>,
    state: &State,
    next: Result<String, GraphError>,
) -> bool {
    match next {
        Ok(t) => graph_core::routes(edges, node, state, Some(t@)),
        Err(e) => graph_core::routes(edges, node, state, None) && (if graph_core::has_exit(
            edges,
            node,
        ) {
            e matches GraphError::Terminal(TerminalError::Unrouted { node: n, attempted_conditions })
                && n@ == node && all_judged(
                graph_core::edges_leaving(edges, node),
                state,
                attempted_conditions@,
            )
        } else {
            graph_core::invalid_graph(e, graph_core::dead_end_text(node))
        }),
    }
}

fn judge<C: Fn(&State) -> bool>(e: &Edge<C>, state: &State) -> (eval: ConditionEval)
    requires
        e.condition matches Some(c) ==> call_requires(c, (state,)),
    ensures
        judged(*e, state, eval),
{
    let mut edge = e.from.clone();
    edge.append("→");
    edge.append(e.to.as_str());
    match &e.condition {
        Some(c) => {
            let matched = c(state);
            ConditionEval { edge, condition: Some("condition".to_owned()), matched }
        },
        None => ConditionEval { edge, condition: None, matched: false },
    }
}

/// Where a run goes from a node. Where no edge applies, the error tells how every
/// edge was judged.
pub fn find_next_node<N, C: Fn(&State) -> bool>(
    graph: &Graph<N, C>,
    current: &str,
    state: &State,
) -> (next: Result<String, GraphError>)
    requires
        routing::conditions_total::<State, C>(graph.edges@),
    ensures
        routes_reported(graph.edges@, current@, state, next),
{
    proof {
        routing::lemma_total_askable(graph.edges@, current@, *state);
    }
    let edges = graph.edges_from(current);
    let ghost leaving = graph_core::edges_leaving(graph.edges@, current@);
    let ghost deref = |e: &Edge<C>| *e;
    proof {
        assert(edges@.map_values(deref) == leaving);
        lemma_leaving(graph.edges@, current@);
    }
    if edges.len() == 0 {
        proof {
            assert(leaving.len() == 0);
            graph_core::lemma_first_edge(graph.edges@, graph_core::normal_from(current@));
            graph_core::lemma_first_edge(graph.edges@, graph_core::fallback_from(current@));
        }
        let mut m = "node '".to_owned();
        m.append(current);
        m.append("' has no outgoing edges and is not the end node");
        return Err(GraphError::Terminal(TerminalError::InvalidGraph(m)));
    }
    if let Some(target) = graph.resolve_next(current, state) {
        return Ok(target);
    }
    let mut evals: Vec<ConditionEval> = Vec::new();
    let mut i: usize = 0;
    while i < edges.len()
        invariant
            i <= edges@.len(),
            evals@.len() == i,
            deref == (|e: &Edge<C>| *e),
            edges@.map_values(deref) == leaving,
            leaving == graph_core::edges_leaving(graph.edges@, current@),
            routing::conditions_total::<State, C>(graph.edges@),
            forall|j: int| 0 <= j < leaving.len() ==> graph.edges@.contains(#[trigger] leaving[j]),
            forall|j: int| 0 <= j < i ==> judged(#[trigger] leaving[j], state, evals@[j]),
        decreases edges@.len() - i,
    {
        let e = edges[i];
        proof {
            assert(edges@.map_values(deref)[i as int] == *e);
            assert(graph.edges@.contains(leaving[i as int]));
            let k = graph.edges@.index_of(*e);
            assert(graph.edges@[k] == *e);
            if e.condition is Some {
                assert(call_requires(graph.edges@[k].condition->0, (state,)));
            }
        }
        evals.push(judge(e, state));
        i += 1;
    }
    assert(leaving.len() == edges@.len());
    Err(
        GraphError::Terminal(
            TerminalError::Unrouted { node: current.to_owned(), attempted_conditions: evals },
        ),
    )
}

proof fn lemma_leaving<C>(edges: Seq<Edge<C>>, node: Seq<char>)
    ensures
        graph_core::edges_leaving(edges, node).len() > 0 <==> graph_core::has_exit(edges, node),
        forall|j: int|
            0 <= j < graph_core::edges_leaving(edges, node).len() ==> edges.contains(
                #[trigger] graph_core::edges_leaving(edges, node)[j],
            ),
{
    broadcast use vstd::seq_lib::group_filter_ensures;

    let p: spec_fn(Edge<C>) -> bool = graph_core::leaves(node);
    let leaving = graph_core::edges_leaving(edges, node);
    assert forall|j: int| 0 <= j < leaving.len() implies edges.contains(#[trigger] leaving[j]) by {
        assert(leaving.contains(leaving[j]));
        sequences::lemma_kept(edges, p, leaving[j]);
    }
    if graph_core::has_exit(edges, node) {
        let i = choose|i: int| 0 <= i < edges.len() && (#[trigger] edges[i]).from@ == node;
        assert(p(edges[i]));
        assert(leaving.contains(edges[i]));
    }
    if leaving.len() > 0 {
        assert(p(leaving[0]));
        let k = edges.index_of(leaving[0]);
        assert(edges[k].from@ == node);
    }
}

/// What a run on the dynamic state wants done next.
pub enum ExecutorAction {
    /// Run the node at which the run stands.
    Execute,
    /// Wait for a decision.
    Wait { barrier_id: BarrierId, timeout: Option<Duration> },
    /// Save a checkpoint if the settings say so, and go on with the node at which
    /// the run now stands.
    Advance { trigger: CheckpointTrigger },
    /// Save a checkpoint if the settings say so, and complete the run.
    Complete,
    /// Nothing: the run is over.
    Stop,
}

/// What a run reports, and what it wants done next.
pub struct ExecutorOutput<P> {
    pub events: Vec<GraphEvent<State, P>>,
    pub action: ExecutorAction,
}

/// Where a run on the dynamic state stands.
pub struct ExecutorRun {
    pub current: String,
    pub step: usize,
    pub max_steps: usize,
    pub trace_id: TraceId,
    pub start_time: Instant,
    /// The execution of the node that runs now.
    pub span_id: SpanId,
    pub node_start: Instant,
    pub execution_log: Vec<ExecutionEntry>,
}

/// The event says that a node has ended.
pub open spec fn is_node_end<P>(
    e: GraphEvent<State, P>,
    node: Seq<char>,
    trace: TraceId,
    span: SpanId,
    success: bool,
    duration: nat,
) -> bool {
    e matches GraphEvent::NodeEnd { node_name, trace_id, span_id, success: ok, duration: d }
        && node_name@ == node && trace_id == trace && span_id == span && ok == success && d@
        == duration
}

/// The log has got one more entry, on the node that runs now.
pub open spec fn logged(
    before: ExecutorRun,
    after: ExecutorRun,
    end: Instant,
    success: bool,
    error: Option<Seq<char>>,
) -> bool {
    &&& after.execution_log@.len() == before.execution_log@.len() + 1
    &&& after.execution_log@.drop_last() == before.execution_log@
    &&& after.execution_log@.last().step == before.step
    &&& after.execution_log@.last().node_name@ == before.current@
    &&& after.execution_log@.last().start_time == before.node_start
    &&& after.execution_log@.last().end_time == end
    &&& after.execution_log@.last().success == success
    &&& match after.execution_log@.last().error {
        Some(e) => error == Some(e@),
        None => error is None,
    }
}

/// Nothing of the run has changed but the log and where it stands.
pub open spec fn same_settings(before: ExecutorRun, after: ExecutorRun) -> bool {
    after == (ExecutorRun {
        current: after.current,
        execution_log: after.execution_log,
        ..before
    })
}

/// What comes of routing: the run advances to a target, or fails.
pub open spec fn advanced<P>(
    before: ExecutorRun,
    after: ExecutorRun,
    state: State,
    next: Result<String, GraphError>,
    trigger: CheckpointTrigger,
    events: Seq<GraphEvent<State, P>>,
    action: ExecutorAction,
) -> bool {
    match next {
        Ok(t) => {
            &&& action == (ExecutorAction::Advance { trigger })
            &&& events.len() == 0
            &&& after == (ExecutorRun { current: t, ..before })
        },
        Err(e) => {
            &&& action is Stop
            &&& events.len() == 1
            &&& execution_loop::is_failure(events[0], e, state)
            &&& after == before
        },
    }
}

/// What comes of what a node asked for: the end of the run, a jump, or the edges,
/// unless the node is the end node.
pub open spec fn answered<P, N, C: Fn(&State) -> bool>(
    before: ExecutorRun,
    after: ExecutorRun,
    graph: Graph<N, C>,
    state: State,
    asked: NextAction,
    trigger: CheckpointTrigger,
    events: Seq<GraphEvent<State, P>>,
    action: ExecutorAction,
) -> bool {
    match asked {
        NextAction::End => action is Complete && events.len() == 0 && after == before,
        NextAction::Goto(t) => advanced(
            before,
            after,
            state,
            Ok::<String, GraphError>(t),
            trigger,
            events,
            action,
        ),
        NextAction::Next => if before.current@ == graph.end@ {
            action is Complete && events.len() == 0 && after == before
        } else {
            exists|next: Result<String, GraphError>| #[trigger]
                routes_reported(graph.edges@, before.current@, &state, next) && advanced(
                    before,
                    after,
                    state,
                    next,
                    trigger,
                    events,
                    action,
                )
        },
    }
}

/// The changes by which the settings of rules reach a registry: later rules for a
/// key take the place of earlier ones.
pub open spec fn rules_of<F>(pending: Seq<(String, Reducer<F>)>, key: Seq<char>) -> Reducer<F>
    decreases pending.len(),
{
    if pending.len() == 0 {
        Reducer::Error
    } else if pending.last().0@ == key {
        pending.last().1
    } else {
        rules_of(pending.drop_last(), key)
    }
}

impl<F> GraphExecutor<F> {
    /// The rules for a run.
    pub fn reducers(self) -> (reg: ReducerRegistry<F>)
        ensures
            forall|k: Seq<char>| #[trigger] reg.rule(k) == rules_of(self.pending_reducers@, k),
    {
        let mut reg: ReducerRegistry<F> = ReducerRegistry::new();
        let ghost all = self.pending_reducers@;
        assert(all.take(0) =~= Seq::empty());
        for entry in it: self.pending_reducers
            invariant
                it.seq() == all,
                forall|k: Seq<char>| #[trigger]
                    reg.rule(k) == rules_of(all.take(it.index() as int), k),
        {
            let ghost n = it.index() as int;
            let ghost was = reg;
            let ghost pair = entry;
            reg.register(entry.0.as_str(), entry.1);
            proof {
                assert(all.take(n + 1).drop_last() =~= all.take(n));
                assert(all.take(n + 1).last() == pair);
                assert forall|k: Seq<char>| #[trigger] reg.rule(k) == rules_of(all.take(n + 1), k) by {
                    assert(was.rule(k) == rules_of(all.take(n), k));
                }
            }
        }
        assert(all.take(all.len() as int) =~= all);
        reg
    }

    /// A run of a graph, from a node other than the start if one is given.
    pub fn start<N, C>(
        &self,
        graph: &Graph<N, C>,
        start_node: Option<String>,
        trace_id: TraceId,
        start_time: Instant,
    ) -> (run: ExecutorRun)
        ensures
            run.current@ == (match start_node {
                Some(s) => s@,
                None => graph.start@,
            }),
            run.step == 0,
            run.max_steps == self.max_steps,
            run.trace_id == trace_id,
            run.start_time == start_time,
            run.execution_log@ == Seq::<ExecutionEntry>::empty(),
    {
        let current = match start_node {
            Some(s) => s,
            None => graph.start_node().to_owned(),
        };
        ExecutorRun {
            current,
            step: 0,
            max_steps: self.max_steps,
            trace_id,
            start_time,
            span_id: SpanId(0),
            node_start: start_time,
            execution_log: Vec::new(),
        }
    }
}

impl ExecutorRun {
    /// How far the run has come.
    pub open spec fn steps(self) -> Steps {
        Steps { taken: self.step, limit: self.max_steps }
    }

    fn failed<P>(state: &State, error: GraphError) -> (e: GraphEvent<State, P>)
        ensures
            execution_loop::is_failure(e, error, *state),
            reporting::ends_rightly(seq![e], true),
            reporting::in_place(None, seq![e], None, true),
    {
        let e = GraphEvent::GraphError { error, state: state.clone() };
        proof {
            reporting::lemma_one(Watch { running: None, resolved: false }, seq![e], true);
        }
        e
    }

    /// The event with which a run begins.
    pub fn begin<P>(&self) -> (e: GraphEvent<State, P>)
        ensures
            e == (GraphEvent::<State, P>::GraphStart { trace_id: self.trace_id }),
            reporting::ends_rightly(seq![e], false),
            reporting::in_place(None, seq![e], None, true),
    {
        let e = GraphEvent::GraphStart { trace_id: self.trace_id };
        proof {
            reporting::lemma_one(Watch { running: None, resolved: false }, seq![e], true);
        }
        e
    }

    /// The event with which a run ends that was told to stop.
    pub fn cancelled<P>(&self, state: &State) -> (e: GraphEvent<State, P>)
        ensures
            exists|error: GraphError| #[trigger]
                execution_loop::is_failure(e, error, *state) && inline_run::is_cancelled_at(
                    error,
                    "execution cancelled by handle"@,
                ),
            reporting::ends_rightly(seq![e], true),
            reporting::in_place(None, seq![e], None, true),
    {
        let error = GraphError::Terminal(
            TerminalError::BarrierCancelled { node: "execution cancelled by handle".to_owned() },
        );
        let ghost g = error;
        let e = Self::failed(state, error);
        assert(execution_loop::is_failure(e, g, *state));
        e
    }

    /// Enters the node at which the run stands, unless the run has entered as many
    /// nodes as it may, or there is no such node.
    pub fn enter<P, N, C>(
        &mut self,
        graph: &Graph<N, C>,
        state: &State,
        span_id: SpanId,
        now: Instant,
    ) -> (out: ExecutorOutput<P>)
        ensures
            reporting::ends_rightly(out.events@, out.action is Stop),
            reporting::in_place(
                None,
                out.events@,
                if out.action is Execute {
                    Some((final(self).span_id, final(self).current@))
                } else {
                    None
                },
                true,
            ),
            stepping::goes_on(old(self).steps(), final(self).steps(), out.action is Execute),
            out.events@.len() == 1,
            if old(self).step >= old(self).max_steps {
                &&& out.action is Stop
                &&& exists|e: GraphError| #[trigger]
                    execution_loop::is_failure(out.events@[0], e, *state)
                        && inline_run::is_steps_exceeded(e, old(self).max_steps)
                &&& *final(self) == *old(self)
            } else if !node_table::has_node(graph.nodes@, old(self).current@) {
                &&& out.action is Stop
                &&& exists|e: GraphError| #[trigger]
                    execution_loop::is_failure(out.events@[0], e, *state)
                        && inline_run::is_not_found(e, old(self).current@)
                &&& *final(self) == (ExecutorRun {
                    step: (old(self).step + 1) as usize,
                    ..*old(self)
                })
            } else {
                &&& out.action is Execute
                &&& out.events@[0] matches GraphEvent::NodeStart { node_name, trace_id, span_id: s, step }
                    && node_name@ == old(self).current@ && trace_id == old(self).trace_id && s
                    == span_id && step == old(self).step + 1
                &&& *final(self) == (ExecutorRun {
                    step: (old(self).step + 1) as usize,
                    span_id,
                    node_start: now,
                    ..*old(self)
                })
            },
    {
        let mut events: Vec<GraphEvent<State, P>> = Vec::new();
        if self.step >= self.max_steps {
            let error = GraphError::Terminal(
                TerminalError::StepsExceeded { limit: self.max_steps },
            );
            let ghost g = error;
            events.push(Self::failed(state, error));
            assert(execution_loop::is_failure(events@[0], g, *state));
            proof {
                reporting::lemma_one(Watch { running: None, resolved: false }, events@, true);
            }
            return ExecutorOutput { events, action: ExecutorAction::Stop };
        }
        self.step += 1;
        if !graph.nodes.contains(self.current.as_str()) {
            let error = GraphError::Terminal(TerminalError::NodeNotFound(self.current.clone()));
            let ghost g = error;
            events.push(Self::failed(state, error));
            assert(execution_loop::is_failure(events@[0], g, *state));
            proof {
                reporting::lemma_one(Watch { running: None, resolved: false }, events@, true);
            }
            return ExecutorOutput { events, action: ExecutorAction::Stop };
        }
        self.span_id = span_id;
        self.node_start = now;
        events.push(
            GraphEvent::NodeStart {
                node_name: self.current.clone(),
                trace_id: self.trace_id,
                span_id,
                step: self.step,
            },
        );
        proof {
            reporting::lemma_one(Watch { running: None, resolved: false }, events@, true);
        }
        ExecutorOutput { events, action: ExecutorAction::Execute }
    }

    fn log(&mut self, end: Instant, success: bool, error: Option<String>)
        ensures
            logged(
                *old(self),
                *final(self),
                end,
                success,
                match error {
                    Some(e) => Some(e@),
                    None => None,
                },
            ),
            *final(self) == (ExecutorRun {
                execution_log: final(self).execution_log,
                ..*old(self)
            }),
    {
        self.execution_log.push(
            ExecutionEntry {
                step: self.step,
                node_name: self.current.clone(),
                start_time: self.node_start,
                end_time: end,
                success,
                error,
            },
        );
        assert(self.execution_log@.drop_last() =~= old(self).execution_log@);
    }

    /// Ends the run after a node that failed with an error.
    pub fn after_failed_node<P>(
        &mut self,
        state: &State,
        error: GraphError,
        now: Instant,
    ) -> (out: ExecutorOutput<P>)
        ensures
            reporting::ends_rightly(out.events@, out.action is Stop),
            reporting::in_place(
                Some((old(self).span_id, old(self).current@)),
                out.events@,
                None,
                true,
            ),
            out.action is Stop,
            out.events@.len() == 2,
            is_node_end(
                out.events@[0],
                old(self).current@,
                old(self).trace_id,
                old(self).span_id,
                false,
                now.since(old(self).node_start) as nat,
            ),
            execution_loop::is_failure(out.events@[1], error, *state),
            logged(*old(self), *final(self), now, false, Some(error.message())),
            stepping::goes_on(old(self).steps(), final(self).steps(), false),
            same_settings(*old(self), *final(self)),
    {
        self.log(now, false, Some(error.to_string()));
        let mut events: Vec<GraphEvent<State, P>> = Vec::new();
        events.push(
            GraphEvent::NodeEnd {
                node_name: self.current.clone(),
                trace_id: self.trace_id,
                span_id: self.span_id,
                success: false,
                duration: now.duration_since(self.node_start),
            },
        );
        events.push(Self::failed(state, error));
        proof {
            reporting::lemma_two(
                Watch { running: Some((self.span_id, self.current@)), resolved: false },
                events@,
                true,
            );
        }
        ExecutorOutput { events, action: ExecutorAction::Stop }
    }

    /// The events within the node, in order, as events of the run.
    pub open spec fn wraps<P>(
        self,
        inner: Seq<FlowEvent<P>>,
        events: Seq<GraphEvent<State, P>>,
    ) -> bool {
        &&& events.len() == inner.len()
        &&& forall|i: int|
            0 <= i < inner.len() ==> ((#[trigger] events[i]) matches GraphEvent::Node {
                span_id,
                node_name,
                event,
            } && span_id == self.span_id && node_name@ == self.current@ && event == inner[i])
    }

    /// Settles what a node that succeeded left behind: its changes are made, the log
    /// is told, and its events are passed on.
    pub fn settle<T: StreamSink, K: CheckpointSink<State>, P>(
        &mut self,
        engine: &mut ExecutionEngine<'_, State, T, K, P>,
        now: Instant,
    ) -> (events: Vec<GraphEvent<State, P>>)
        ensures
            workflow_state::batch_effect(
                old(engine).mutations@,
                *old(engine).state,
                *final(engine).state,
            ),
            final(engine).mutations@ == Seq::<StateMutation>::empty(),
            final(engine).flow_events@ == Seq::<FlowEvent<P>>::empty(),
            final(engine).control == old(engine).control,
            final(engine).metadata == old(engine).metadata,
            *final(final(engine).state) == *final(old(engine).state),
            final(engine).stream == old(engine).stream,
            final(engine).cancel == old(engine).cancel,
            final(engine).checkpoint_sink == old(engine).checkpoint_sink,
            logged(*old(self), *final(self), now, true, None),
            stepping::goes_on(old(self).steps(), final(self).steps(), false),
            same_settings(*old(self), *final(self)),
            final(self).current == old(self).current,
            old(self).wraps(old(engine).flow_events@, events@),
            reporting::ends_rightly(events@, false),
            reporting::in_place(
                Some((old(self).span_id, old(self).current@)),
                events@,
                Some((old(self).span_id, old(self).current@)),
                true,
            ),
    {
        engine.commit();
        let inner = engine.take_flow_events();
        self.log(now, true, None);
        let ghost all = inner@;
        let mut events: Vec<GraphEvent<State, P>> = Vec::new();
        for event in it: inner
            invariant
                it.seq() == all,
                events@.len() == it.index(),
                forall|i: int|
                    0 <= i < it.index() ==> ((#[trigger] events@[i]) matches GraphEvent::Node {
                        span_id,
                        node_name,
                        event,
                    } && span_id == self.span_id && node_name@ == self.current@ && event == all[i]),
        {
            events.push(
                GraphEvent::Node { span_id: self.span_id, node_name: self.current.clone(), event },
            );
        }
        proof {
            reporting::lemma_inner_events(Some((self.span_id, self.current@)), events@, true);
        }
        events
    }

    /// The event with which a node ends that succeeded.
    pub fn node_end<P>(&self, now: Instant) -> (e: GraphEvent<State, P>)
        ensures
            is_node_end(
                e,
                self.current@,
                self.trace_id,
                self.span_id,
                true,
                now.since(self.node_start) as nat,
            ),
            reporting::ends_rightly(seq![e], false),
            reporting::in_place(Some((self.span_id, self.current@)), seq![e], None, true),
    {
        let e = GraphEvent::NodeEnd {
            node_name: self.current.clone(),
            trace_id: self.trace_id,
            span_id: self.span_id,
            success: true,
            duration: now.duration_since(self.node_start),
        };
        proof {
            reporting::lemma_one(
                Watch { running: Some((self.span_id, self.current@)), resolved: false },
                seq![e],
                true,
            );
        }
        e
    }

    fn answer<P, N, C: Fn(&State) -> bool>(
        &mut self,
        graph: &Graph<N, C>,
        state: &State,
        asked: NextAction,
        trigger: CheckpointTrigger,
    ) -> (out: ExecutorOutput<P>)
        requires
            routing::conditions_total::<State, C>(graph.edges@),
        ensures
            reporting::ends_rightly(out.events@, out.action is Stop),
            reporting::in_place(None, out.events@, None, true),
            stepping::goes_on(old(self).steps(), final(self).steps(), false),
            answered(
                *old(self),
                *final(self),
                *graph,
                *state,
                asked,
                trigger,
                out.events@,
                out.action,
            ),
    {
        let ghost before = *self;
        let mut events: Vec<GraphEvent<State, P>> = Vec::new();
        match asked {
            NextAction::End => ExecutorOutput { events, action: ExecutorAction::Complete },
            NextAction::Goto(t) => {
                self.current = t;
                ExecutorOutput { events, action: ExecutorAction::Advance { trigger } }
            },
            NextAction::Next => {
                if text::same_text(self.current.as_str(), graph.end_node()) {
                    return ExecutorOutput { events, action: ExecutorAction::Complete };
                }
                let next = find_next_node(graph, self.current.as_str(), state);
                let ghost taken = next;
                assert(routes_reported(graph.edges@, before.current@, state, taken));
                match next {
                    Ok(t) => {
                        self.current = t;
                        let out = ExecutorOutput {
                            events,
                            action: ExecutorAction::Advance { trigger },
                        };
                        assert(advanced(
                            before,
                            *self,
                            *state,
                            taken,
                            trigger,
                            out.events@,
                            out.action,
                        ));
                        out
                    },
                    Err(e) => {
                        events.push(Self::failed(state, e));
                        proof {
                            reporting::lemma_one(
                                Watch { running: None, resolved: false },
                                events@,
                                true,
                            );
                        }
                        let out = ExecutorOutput { events, action: ExecutorAction::Stop };
                        assert(advanced(
                            before,
                            *self,
                            *state,
                            taken,
                            trigger,
                            out.events@,
                            out.action,
                        ));
                        out
                    },
                }
            },
        }
    }

    /// Moves on after a node that succeeded and was settled. Where the node asked
    /// for a decision, the run waits for it.
    pub fn proceed<T: StreamSink, K: CheckpointSink<State>, P, N, C: Fn(&State) -> bool>(
        &mut self,
        graph: &Graph<N, C>,
        engine: &mut ExecutionEngine<'_, State, T, K, P>,
        span_id: SpanId,
    ) -> (out: ExecutorOutput<P>)
        requires
            routing::conditions_total::<State, C>(graph.edges@),
        ensures
            reporting::ends_rightly(out.events@, out.action is Stop),
            reporting::in_place(None, out.events@, None, true),
            stepping::goes_on(old(self).steps(), final(self).steps(), false),
            final(engine).state == old(engine).state,
            final(engine).mutations == old(engine).mutations,
            final(engine).control.next is None,
            final(engine).control.signal is None,
            final(engine).stream == old(engine).stream,
            final(engine).cancel == old(engine).cancel,
            final(engine).checkpoint_sink == old(engine).checkpoint_sink,
            final(engine).metadata == old(engine).metadata,
            final(engine).flow_events == old(engine).flow_events,
            match old(engine).control.signal {
                Some(ExecutionSignal::Pause { barrier_id, timeout }) => {
                    &&& *final(self) == *old(self)
                    &&& out.events@.len() == 1
                    &&& execution_loop::is_waiting(
                        out.events@[0],
                        barrier_id@,
                        old(self).current@,
                        span_id,
                    )
                    &&& out.action matches ExecutorAction::Wait { barrier_id: id, timeout: t }
                        && id@ == barrier_id@ && t == timeout
                },
                None => answered(
                    *old(self),
                    *final(self),
                    *graph,
                    *old(engine).state,
                    old(engine).control.route(),
                    CheckpointTrigger::Explicit,
                    out.events@,
                    out.action,
                ),
            },
            match (old(engine).control.signal, old(engine).control.next) {
                (Some(_), _) => out.action is Wait,
                (None, Some(NextAction::Goto(t))) => out.action is Advance && final(self).current@
                    == t@,
                (None, Some(NextAction::End)) => out.action is Complete,
                (None, _) => out.action is Complete <==> old(self).current@ == graph.end@,
            },
    {
        let (asked, signal) = engine.take_control();
        match signal {
            Some(ExecutionSignal::Pause { barrier_id, timeout }) => {
                let mut events: Vec<GraphEvent<State, P>> = Vec::new();
                events.push(
                    GraphEvent::BarrierWaiting {
                        barrier_id: barrier_id.clone(),
                        node_name: self.current.clone(),
                        span_id,
                    },
                );
                proof {
                    reporting::lemma_one(Watch { running: None, resolved: false }, events@, true);
                }
                ExecutorOutput { events, action: ExecutorAction::Wait { barrier_id, timeout } }
            },
            None => self.answer(graph, &*engine.state, asked, CheckpointTrigger::Explicit),
        }
    }

    /// Ends the run after a wait during which it was told to stop.
    pub fn cancelled_wait<P>(&self, state: &State) -> (e: GraphEvent<State, P>)
        ensures
            exists|error: GraphError| #[trigger]
                execution_loop::is_failure(e, error, *state) && inline_run::is_cancelled_at(
                    error,
                    self.current@,
                ),
            reporting::ends_rightly(seq![e], true),
            reporting::in_place(None, seq![e], None, true),
    {
        let error = GraphError::Terminal(
            TerminalError::BarrierCancelled { node: self.current.clone() },
        );
        let ghost g = error;
        let e = Self::failed(state, error);
        assert(execution_loop::is_failure(e, g, *state));
        e
    }

    /// What the state is after a decision at a barrier: the changes by which the
    /// decision shows are made.
    pub open spec fn decided(
        barrier: BarrierNode,
        decision: BarrierDecision,
        before: State,
        after: State,
    ) -> bool {
        exists|changes: Seq<StateMutation>| #[trigger]
            barrier_node::decision_changes(
                decision,
                barrier.approve_key@,
                barrier.reject_key@,
                changes,
            ) && workflow_state::batch_effect(changes, before, after)
    }

    /// Where the run goes after a decision: a reroute to its target, any other along
    /// the edges; from the end node nowhere.
    pub open spec fn goes_on<P, N, C: Fn(&State) -> bool>(
        before: ExecutorRun,
        after: ExecutorRun,
        graph: Graph<N, C>,
        state: State,
        decision: BarrierDecision,
        events: Seq<GraphEvent<State, P>>,
        action: ExecutorAction,
    ) -> bool {
        match decision {
            BarrierDecision::Reroute { target } => {
                &&& action == (ExecutorAction::Advance {
                    trigger: CheckpointTrigger::BarrierResolved,
                })
                &&& events.len() == 0
                &&& after.current@ == target@
                &&& after == (ExecutorRun { current: after.current, ..before })
            },
            _ => answered(
                before,
                after,
                graph,
                state,
                NextAction::Next,
                CheckpointTrigger::BarrierResolved,
                events,
                action,
            ),
        }
    }

    /// Goes on after a decision at the node at which the run stands. The decision is
    /// reported. Where the node is a barrier, the decision shows in the state, the
    /// log and the observers are told of a second end of the node, and the run moves
    /// on. A node that asked for a decision without being a barrier ends the run.
    /// Nothing was recorded or asked for since the node was settled.
    pub fn after_decision<T: StreamSink, K: CheckpointSink<State>, P, C: Fn(&State) -> bool, X, M>(
        &mut self,
        graph: &Graph<NodeKind<C, X, M>, C>,
        engine: &mut ExecutionEngine<'_, State, T, K, P>,
        barrier_id: BarrierId,
        decision: BarrierDecision,
        span_id: SpanId,
        now: Instant,
    ) -> (out: ExecutorOutput<P>)
        requires
            routing::conditions_total::<State, C>(graph.edges@),
            old(engine).mutations@.len() == 0,
            old(engine).control.next is None,
        ensures
            reporting::ends_rightly(out.events@, out.action is Stop),
            reporting::in_place(None, out.events@, None, true),
            stepping::goes_on(old(self).steps(), final(self).steps(), false),
            out.events@.len() >= 2,
            execution_loop::is_resolved(out.events@[0], barrier_id@, decision@),
            *final(final(engine).state) == *final(old(engine).state),
            final(engine).mutations@.len() == 0,
            final(engine).stream == old(engine).stream,
            final(engine).cancel == old(engine).cancel,
            final(engine).metadata == old(engine).metadata,
            final(engine).flow_events == old(engine).flow_events,
            final(engine).checkpoint_sink == old(engine).checkpoint_sink,
            if node_table::has_node(graph.nodes@, old(self).current@) && node_table::node_named(
                graph.nodes@,
                old(self).current@,
            ) is Barrier {
                &&& Self::decided(
                    node_table::node_named(graph.nodes@, old(self).current@)->Barrier_0,
                    decision,
                    *old(engine).state,
                    *final(engine).state,
                )
                &&& final(engine).control.next is None
                &&& final(engine).control.signal is None
                &&& is_node_end(
                    out.events@[1],
                    old(self).current@,
                    old(self).trace_id,
                    span_id,
                    true,
                    now.since(old(self).node_start) as nat,
                )
                &&& exists|between: ExecutorRun| #[trigger]
                    logged(*old(self), between, now, true, None) && same_settings(
                        *old(self),
                        between,
                    ) && between.current == old(self).current && Self::goes_on(
                        between,
                        *final(self),
                        *graph,
                        *final(engine).state,
                        decision,
                        out.events@.skip(2),
                        out.action,
                    )
            } else {
                &&& out.action is Stop
                &&& out.events@.len() == 2
                &&& exists|e: GraphError| #[trigger]
                    execution_loop::is_failure(out.events@[1], e, *old(engine).state)
                        && graph_core::invalid_graph(e, "expected BarrierNode for pause signal"@)
                &&& *final(self) == *old(self)
                &&& final(engine).state == old(engine).state
                &&& final(engine).control == old(engine).control
            },
    {
        let ghost verdict = decision@;
        let ghost taken = decision;
        let ghost state0 = *engine.state;
        let mut events: Vec<GraphEvent<State, P>> = Vec::new();
        events.push(
            GraphEvent::BarrierResolved { barrier_id, decision: decision.clone() },
        );
        let barrier = match graph.nodes.get(self.current.as_str()) {
            Some(node) => node.as_barrier(),
            None => None,
        };
        match barrier {
            None => {
                let error = GraphError::Terminal(
                    TerminalError::InvalidGraph(
                        "expected BarrierNode for pause signal".to_owned(),
                    ),
                );
                let ghost g = error;
                events.push(Self::failed(&*engine.state, error));
                assert(execution_loop::is_failure(events@[1], g, state0));
                proof {
                    reporting::lemma_two(Watch { running: None, resolved: false }, events@, true);
                }
                ExecutorOutput { events, action: ExecutorAction::Stop }
            },
            Some(b) => {
                let mut ctx = engine.build_node_context();
                b.apply_decision_to_ctx(&mut ctx, decision);
                let (asked, _signal) = engine.take_control();
                let ghost changes = engine.mutations@;
                engine.commit();
                proof {
                    assert(barrier_node::decision_changes(
                        taken,
                        b.approve_key@,
                        b.reject_key@,
                        changes,
                    ));
                    assert(Self::decided(*b, taken, state0, *engine.state));
                }
                self.log(now, true, None);
                let ghost between = *self;
                events.push(
                    GraphEvent::NodeEnd {
                        node_name: self.current.clone(),
                        trace_id: self.trace_id,
                        span_id,
                        success: true,
                        duration: now.duration_since(self.node_start),
                    },
                );
                let ghost head = events@;
                assert(logged(*old(self), between, now, true, None));
                let out = self.answer(
                    graph,
                    &*engine.state,
                    asked,
                    CheckpointTrigger::BarrierResolved,
                );
                let mut rest = out.events;
                let ghost tail = rest@;
                events.append(&mut rest);
                proof {
                    assert(events@ =~= head + tail);
                    assert(events@.skip(2) =~= tail);
                    reporting::lemma_two(Watch { running: None, resolved: false }, head, true);
                    reporting::lemma_follows(None, head, None, tail, None, true);
                    assert forall|i: int| 0 <= i < events@.len() - 1 && out.action is Stop implies !reporting::is_terminal(
                        #[trigger] events@[i],
                    ) by {
                        if i >= 2 {
                            assert(events@[i] == tail[i - 2]);
                        } else {
                            assert(events@[i] == head[i]);
                        }
                    }
                    assert forall|i: int| 0 <= i < events@.len() && !(out.action is Stop) implies !reporting::is_terminal(
                        #[trigger] events@[i],
                    ) by {
                        if i >= 2 {
                            assert(events@[i] == tail[i - 2]);
                        } else {
                            assert(events@[i] == head[i]);
                        }
                    }
                    if out.action is Stop {
                        assert(events@.last() == tail.last());
                    }
                    assert(Self::goes_on(
                        between,
                        *self,
                        *graph,
                        *engine.state,
                        taken,
                        events@.skip(2),
                        out.action,
                    ));
                }
                ExecutorOutput { events, action: out.action }
            },
        }
    }

    /// The event that a checkpoint was saved.
    pub fn checkpoint_saved<P>(
        &self,
        checkpoint_id: CheckpointId,
        node_name: &str,
        step: usize,
    ) -> (e: GraphEvent<State, P>)
        ensures
            e matches GraphEvent::CheckpointSaved { checkpoint_id: id, node_name: n, step: s }
                && id == checkpoint_id && n@ == node_name@ && s == step,
            reporting::ends_rightly(seq![e], false),
            forall|running: Option<(SpanId, Seq<char>)>| #[trigger]
                reporting::in_place(running, seq![e], running, true),
    {
        let e = GraphEvent::CheckpointSaved {
            checkpoint_id,
            node_name: node_name.to_owned(),
            step,
        };
        proof {
            assert forall|running: Option<(SpanId, Seq<char>)>| #[trigger]
                reporting::in_place(running, seq![e], running, true) by {
                reporting::lemma_one(Watch { running, resolved: false }, seq![e], true);
            }
        }
        e
    }

    /// The event that completes the run.
    pub fn complete<P>(self, state: &State, now: Instant) -> (e: GraphEvent<State, P>)
        ensures
            e matches GraphEvent::GraphComplete { result } && result.trace_id == self.trace_id
                && result.state@ == state@ && result.execution_log@ == self.execution_log@
                && result.duration@ == now.since(self.start_time) && result.trace is None,
            reporting::ends_rightly(seq![e], true),
            reporting::in_place(None, seq![e], None, true),
    {
        let e = GraphEvent::GraphComplete {
            result: GraphResult {
                trace_id: self.trace_id,
                state: state.clone(),
                execution_log: self.execution_log,
                duration: now.duration_since(self.start_time),
                trace: None,
            },
        };
        proof {
            reporting::lemma_one(Watch { running: None, resolved: false }, seq![e], true);
        }
        e
    }
}

/// The result of a run whose events are looked at one by one: that of the last
/// event that ends it.
pub fn absorb_event<S: WorkflowState, P>(
    so_far: Option<Result<GraphResult<S>, GraphError>>,
    event: GraphEvent<S, P>,
) -> (result: Option<Result<GraphResult<S>, GraphError>>)
    ensures
        result == (match event {
            GraphEvent::GraphComplete { result: r } => Some(Ok::<GraphResult<S>, GraphError>(r)),
            GraphEvent::GraphError { error, .. } => Some(Err::<GraphResult<S>, GraphError>(error)),
            _ => so_far,
        }),
{
    match event {
        GraphEvent::GraphComplete { result } => Some(Ok(result)),
        GraphEvent::GraphError { error, .. } => Some(Err(error)),
        _ => so_far,
    }
}

/// The result of a run whose events have all been looked at.
pub fn final_result<S: WorkflowState>(
    result: Option<Result<GraphResult<S>, GraphError>>,
) -> (r: Result<GraphResult<S>, GraphError>)
    ensures
        match result {
            Some(x) => r == x,
            None => r matches Err(e) && graph_core::invalid_graph(
                e,
                "stream ended without completion"@,
            ),
        },
{
    match result {
        Some(r) => r,
        None => Err(
            GraphError::Terminal(
                TerminalError::InvalidGraph("stream ended without completion".to_owned()),
            ),
        ),
    }
}

/// The node from which a run is resumed: that of the checkpoint, unless the run was
/// over or the graph has no such node; then it begins at the start.
pub fn resume_node<N, C>(graph: &Graph<N, C>, checkpoint_node: &str) -> (node: Option<String>)
    ensures
        match node {
            Some(n) => n@ == checkpoint_node@ && checkpoint_node@ != "__complete__"@
                && node_table::has_node(graph.nodes@, checkpoint_node@),
            None => checkpoint_node@ == "__complete__"@ || !node_table::has_node(
                graph.nodes@,
                checkpoint_node@,
            ),
        },
{
    if text::same_text(checkpoint_node, "__complete__") {
        None
    } else if graph.nodes.contains(checkpoint_node) {
        Some(checkpoint_node.to_owned())
    } else {
        None
    }
}

/// The state and the node from which a run is resumed, given what loading its
/// latest checkpoint gave. A checkpoint of another graph is refused.
pub fn resume_from<S: WorkflowState, N, C>(
    loaded: Result<Option<Checkpoint<S>>, CheckpointStoreError>,
    trace_id: &TraceId,
    graph: &Graph<N, C>,
) -> (plan: Result<(S, Option<String>), GraphError>)
    ensures
        match loaded {
            Err(e) => plan matches Err(f) && graph_core::invalid_graph(
                f,
                "failed to load checkpoint: "@ + e.message(),
            ),
            Ok(None) => plan matches Err(f) && graph_core::invalid_graph(
                f,
                "no checkpoint found for trace "@ + ids::id_text(trace_id.0),
            ),
            Ok(Some(cp)) => if cp.graph_hash != graph.canonical_hash {
                plan matches Err(f) && resuming::is_foreign(f, graph.canonical_hash, cp.graph_hash)
            } else {
                plan matches Ok(p) && p.0.recovered(cp.state) && (match p.1 {
                    Some(n) => n@ == cp.current_node.0@ && n@ != "__complete__"@
                        && node_table::has_node(graph.nodes@, n@),
                    None => cp.current_node.0@ == "__complete__"@ || !node_table::has_node(
                        graph.nodes@,
                        cp.current_node.0@,
                    ),
                })
            },
        },
{
    match loaded {
        Err(e) => {
            let mut m = "failed to load checkpoint: ".to_owned();
            m.append(e.to_string().as_str());
            Err(GraphError::Terminal(TerminalError::InvalidGraph(m)))
        },
        Ok(None) => {
            let mut m = "no checkpoint found for trace ".to_owned();
            m.append(trace_id.to_string().as_str());
            Err(GraphError::Terminal(TerminalError::InvalidGraph(m)))
        },
        Ok(Some(cp)) => {
            if cp.graph_hash != graph.canonical_hash() {
                return Err(resuming::foreign_checkpoint(graph.canonical_hash(), cp.graph_hash));
            }
            let node = resume_node(graph, cp.current_node.0.as_str());
            Ok((cp.restore_state(), node))
        },
    }
}

/// Where no edge applies the error tells of every edge that leaves the node, in order,
/// and of none else; each has the names of its ends and what its condition answered.
/// Where an edge applies the run goes along one that leaves the node.
pub proof fn law_every_edge_is_reported<C: Fn(&State) -> bool>(
    edges: Seq<Edge<C>>,
    node: Seq<char>,
    state: &State,
    next: Result<String, GraphError>,
)
    requires
        routes_reported(edges, node, state, next),
    ensures
        next matches Ok(t) ==> exists|i: int|
            0 <= i < edges.len() && (#[trigger] edges[i]).from@ == node && edges[i].to@ == t@ && (
            edges[i].condition is Some && !edges[i].fallback ==> call_ensures(
                edges[i].condition->0,
                (state,),
                true,
            )),
        next is Err ==> forall|i: int|
            0 <= i < edges.len() && (#[trigger] edges[i]).from@ == node ==> !edges[i].fallback
                && edges[i].condition is Some,
        next matches Err(GraphError::Terminal(TerminalError::Unrouted { node: n, attempted_conditions }))
            ==> {
            let leaving = graph_core::edges_leaving(edges, node);
            &&& n@ == node
            &&& leaving.len() > 0
            &&& attempted_conditions@.len() == leaving.len()
            &&& forall|i: int|
                0 <= i < leaving.len() ==> {
                    let e = #[trigger] leaving[i];
                    let eval = attempted_conditions@[i];
                    &&& eval.edge@ == e.from@ + "→"@ + e.to@
                    &&& eval.condition is Some <==> e.condition is Some
                    &&& e.condition is Some ==> call_ensures(
                        e.condition->0,
                        (state,),
                        eval.matched,
                    )
                    &&& e.condition is None ==> !eval.matched
                }
        },
        next is Err && (exists|i: int| 0 <= i < edges.len() && (#[trigger] edges[i]).from@ == node)
            ==> next matches Err(GraphError::Terminal(TerminalError::Unrouted { .. })),
{
    match next {
        Ok(t) => {
            assert(graph_core::routes_inline(edges, node, state, next));
            graph_core::law_routes_follow_edges(edges, node, state, next);
        },
        Err(_) => {
            graph_core::lemma_first_edge(edges, graph_core::normal_from(node));
            graph_core::lemma_first_edge(edges, graph_core::fallback_from(node));
            assert forall|i: int|
                0 <= i < edges.len() && (#[trigger] edges[i]).from@ == node implies !edges[i].fallback
                && edges[i].condition is Some by {
                assert(!graph_core::normal_from::<C>(node)(edges[i]));
                assert(!graph_core::fallback_from::<C>(node)(edges[i]));
            }
            lemma_leaving(edges, node);
        },
    }
}

/// A run on the dynamic state stands where it was sent: after a jump at the node that
/// was named, and after a step along the edges at the target of an edge that leaves the
/// node where it stood. It completes only where it was ended or stood at the end node.
pub proof fn law_executor_stands_where_it_was_sent<P, N, C: Fn(&State) -> bool>(
    before: ExecutorRun,
    after: ExecutorRun,
    graph: Graph<N, C>,
    state: State,
    asked: NextAction,
    trigger: CheckpointTrigger,
    events: Seq<GraphEvent<State, P>>,
    action: ExecutorAction,
)
    requires
        answered(before, after, graph, state, asked, trigger, events, action),
    ensures
        action is Advance || action is Complete || action is Stop,
        action is Advance ==> action == (ExecutorAction::Advance { trigger }),
        asked matches NextAction::Goto(t) ==> action is Advance && after.current@ == t@,
        action is Complete <==> asked is End || (asked is Next && before.current@ == graph.end@),
        asked is Next && action is Advance ==> exists|i: int|
            0 <= i < graph.edges@.len() && (#[trigger] graph.edges@[i]).from@ == before.current@
                && graph.edges@[i].to@ == after.current@,
        !(action is Advance) ==> after == before,
        action is Advance ==> events.len() == 0 && after == (ExecutorRun {
            current: after.current,
            ..before
        }),
        action is Stop ==> events.len() == 1 && events[0] is GraphError && forall|i: int|
            0 <= i < graph.edges@.len() && (#[trigger] graph.edges@[i]).from@ == before.current@
                ==> !graph.edges@[i].fallback && graph.edges@[i].condition is Some,
{
    if asked is Next && before.current@ != graph.end@ {
        let next = choose|next: Result<String, GraphError>| #[trigger]
            routes_reported(graph.edges@, before.current@, &state, next) && advanced(
                before,
                after,
                state,
                next,
                trigger,
                events,
                action,
            );
        law_every_edge_is_reported(graph.edges@, before.current@, &state, next);
    }
}

/// A decision sends the run where it says: a reroute to its target, even from the end
/// node, and anything else along an edge, unless the run stands at the end node.
pub proof fn law_decisions_send_the_run<P, N, C: Fn(&State) -> bool>(
    before: ExecutorRun,
    after: ExecutorRun,
    graph: Graph<N, C>,
    state: State,
    decision: BarrierDecision,
    events: Seq<GraphEvent<State, P>>,
    action: ExecutorAction,
)
    requires
        ExecutorRun::goes_on(before, after, graph, state, decision, events, action),
    ensures
        decision matches BarrierDecision::Reroute { target } ==> action is Advance
            && after.current@ == target@,
        !(decision is Reroute) ==> (action is Complete <==> before.current@ == graph.end@),
        !(decision is Reroute) && action is Advance ==> exists|i: int|
            0 <= i < graph.edges@.len() && (#[trigger] graph.edges@[i]).from@ == before.current@
                && graph.edges@[i].to@ == after.current@,
        action is Advance ==> action == (ExecutorAction::Advance {
            trigger: CheckpointTrigger::BarrierResolved,
        }),
        after.step == before.step,
        after.execution_log == before.execution_log,
{
    if !(decision is Reroute) {
        law_executor_stands_where_it_was_sent(
            before,
            after,
            graph,
            state,
            NextAction::Next,
            CheckpointTrigger::BarrierResolved,
            events,
            action,
        );
    }
}

/// Checkpoints are saved only with a store, and at each moment exactly if it is one of
/// those that were chosen; after a node only if it was judged worth it as well.
pub proof fn law_checkpoints_keep_to_the_moments<F>(e: GraphExecutor<F>, worth: bool)
    ensures
        !e.has_store ==> forall|t: CheckpointTrigger| !#[trigger] e.saves(t),
        e.has_store ==> {
            &&& e.saves(CheckpointTrigger::BarrierResolved) == e.moments.on_barrier
            &&& e.saves(CheckpointTrigger::ExecutionCompleted) == e.moments.on_completion
            &&& e.saves(CheckpointTrigger::HumanDecision) == e.moments.on_human_decision
            &&& e.saves(CheckpointTrigger::Explicit) == e.moments.on_explicit
            &&& e.saves(CheckpointTrigger::Adaptive(worth)) == (e.moments.adaptive && worth)
        },
{
}

/// The rule of a key is the one that was added last for it, and without one it admits
/// one writer only.
pub proof fn law_last_rule_holds<F>(
    pending: Seq<(String, Reducer<F>)>,
    key: String,
    rule: Reducer<F>,
    other: Seq<char>,
)
    ensures
        rules_of(pending.push((key, rule)), key@) == rule,
        other != key@ ==> rules_of(pending.push((key, rule)), other) == rules_of(pending, other),
        rules_of(Seq::<(String, Reducer<F>)>::empty(), other) is Error,
{
    assert(pending.push((key, rule)).drop_last() =~= pending);
}

/// The log has every entry that it had, and one more at its end: on the node at which
/// the run stands, from the time at which it began to the time given.
pub proof fn law_logs_grow_at_the_end(
    before: ExecutorRun,
    after: ExecutorRun,
    end: Instant,
    success: bool,
    error: Option<Seq<char>>,
)
    requires
        logged(before, after, end, success, error),
    ensures
        before.execution_log@.is_prefix_of(after.execution_log@),
        after.execution_log@.len() == before.execution_log@.len() + 1,
        after.execution_log@.last().node_name@ == before.current@,
        after.execution_log@.last().step == before.step,
        after.execution_log@.last().start_time == before.node_start,
        after.execution_log@.last().end_time == end,
        after.execution_log@.last().success == success,
        after.execution_log@.last().error is Some <==> error is Some,
        after.execution_log@.last().error matches Some(e) ==> error == Some(e@),
{
    assert forall|i: int| 0 <= i < before.execution_log@.len() implies before.execution_log@[i]
        == after.execution_log@[i] by {
        assert(after.execution_log@.drop_last()[i] == after.execution_log@[i]);
    }
}

/// A run that finds no way on says so: that no condition held, where edges leave the node,
/// and that there is no edge, where none does; with the state that it has.
pub proof fn law_runs_without_a_way_on_say_so<P, N, C: Fn(&State) -> bool>(
    before: ExecutorRun,
    after: ExecutorRun,
    graph: Graph<N, C>,
    state: State,
    trigger: CheckpointTrigger,
    events: Seq<GraphEvent<State, P>>,
    action: ExecutorAction,
)
    requires
        answered(before, after, graph, state, NextAction::Next, trigger, events, action),
        action is Stop,
    ensures
        events.len() == 1,
        events[0] matches GraphEvent::GraphError { error, state: s } && cloned(state, s) && ((
        error matches GraphError::Terminal(TerminalError::Unrouted { node, .. }) && node@
            == before.current@ && exists|i: int|
            0 <= i < graph.edges@.len() && (#[trigger] graph.edges@[i]).from@ == before.current@)
            || (error matches GraphError::Terminal(TerminalError::InvalidGraph(m)) && (forall|
            i: int,
        |
            0 <= i < graph.edges@.len() ==> (#[trigger] graph.edges@[i]).from@ != before.current@))),
{
    let next = choose|next: Result<String, GraphError>| #[trigger]
        routes_reported(graph.edges@, before.current@, &state, next) && advanced(
            before,
            after,
            state,
            next,
            trigger,
            events,
            action,
        );
    law_every_edge_is_reported(graph.edges@, before.current@, &state, next);
    lemma_leaving(graph.edges@, before.current@);
}

/// The end of a node is reported under its name, its run and its execution, with how long it
/// took and whether it went well; and what happened within it is reported under its name and
/// its execution, each event once and in order.
pub proof fn law_nodes_are_reported_by_name<P>(
    run: ExecutorRun,
    e: GraphEvent<State, P>,
    success: bool,
    duration: nat,
    inner: Seq<FlowEvent<P>>,
    events: Seq<GraphEvent<State, P>>,
    i: int,
)
    ensures
        is_node_end(e, run.current@, run.trace_id, run.span_id, success, duration) ==> (
        e matches GraphEvent::NodeEnd { node_name, trace_id, span_id, success: ok, duration: d }
            && node_name@ == run.current@ && trace_id == run.trace_id && span_id == run.span_id
            && ok == success && d@ == duration),
        run.wraps(inner, events) ==> events.len() == inner.len(),
        run.wraps(inner, events) && 0 <= i < events.len() ==> (events[i] matches GraphEvent::Node {
            span_id,
            node_name,
            event,
        } && span_id == run.span_id && node_name@ == run.current@ && event == inner[i]),
{
}

/// A decision on a barrier shows in the state under the keys of the barrier: an approval
/// under the key for approvals, a rejection under the key for rejections, a change under
/// the key that it names; and no other key changes.
pub proof fn law_decisions_show_under_their_keys(
    barrier: BarrierNode,
    decision: BarrierDecision,
    before: State,
    after: State,
    other: Seq<char>,
)
    requires
        ExecutorRun::decided(barrier, decision, before, after),
        barrier.approve_key@ != barrier.reject_key@,
    ensures
        decision is Approve ==> after@.contains_key(barrier.approve_key@)
            && after@[barrier.approve_key@] == Json::Bool(true) && !after@.contains_key(
            barrier.reject_key@,
        ),
        decision matches BarrierDecision::Reject { reason } ==> after@.contains_key(
            barrier.reject_key@,
        ) && after@[barrier.reject_key@] == Json::String(reason@) && !after@.contains_key(
            barrier.approve_key@,
        ),
        decision matches BarrierDecision::Modify { key, value } ==> after@.contains_key(key@)
            && after@[key@] == value@,
        decision is Reroute ==> after@ == before@,
        other != barrier.approve_key@ && other != barrier.reject_key@ && !(
        decision matches BarrierDecision::Modify { key, .. } && key@ == other)
            ==> after@.contains_key(other) == before@.contains_key(other) && (before@.contains_key(
            other,
        ) ==> after@[other] == before@[other]),
{
    let changes = choose|changes: Seq<StateMutation>| #[trigger]
        barrier_node::decision_changes(
            decision,
            barrier.approve_key@,
            barrier.reject_key@,
            changes,
        ) && workflow_state::batch_effect(changes, before, after);
    state::law_batch_results(changes, before, after);
    barrier_node::law_decisions_change_the_state(
        decision,
        barrier.approve_key@,
        barrier.reject_key@,
        changes,
        before@,
        other,
    );
}

/// The verdict on an edge names its ends, tells whether it has a condition, and says that it
/// applied exactly if it has one and the condition said so.
pub proof fn law_edges_are_judged_by_their_condition<C: Fn(&State) -> bool>(
    e: Edge<C>,
    state: &State,
    eval: ConditionEval,
)
    requires
        judged(e, state, eval),
    ensures
        eval.edge@ == e.from@ + "→"@ + e.to@,
        e.condition is None ==> eval.condition is None && !eval.matched,
        e.condition matches Some(c) ==> (eval.condition matches Some(t) && t@ == "condition"@)
            && call_ensures(c, (state,), eval.matched),
{
}

} // verus!
