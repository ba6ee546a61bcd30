//! A plain run of a graph on the dynamic state, which keeps a log and pays no heed
//! to requests for decisions.

use vstd::prelude::*;

use crate::checkpoint::checkpoint_data::CheckpointSink;
use crate::error::{GraphError, TerminalError};
use crate::exec::execution_engine::{ExecutionEngine, NextAction};
use crate::exec::inline_run;
use crate::exec::routing;
use crate::exec::routing::Move;
use crate::exec::stepping;
use crate::exec::stepping::Steps;
use crate::graph::graph_core::Graph;
use crate::graph::node_table;
use crate::ids::TraceId;
use crate::state::state::{ExecutionEntry, GraphResult, State, StateMutation};
use crate::state::workflow_state;
use crate::stream::StreamSink;
use crate::time::{Duration, Instant};

verus! {

/// The settings of plain runs.
pub struct SimpleExecutor {
    max_steps: usize,
}

impl SimpleExecutor {
    /// How many nodes a run may enter.
    pub closed spec fn limit(self) -> usize {
        self.max_steps
    }

    /// Runs that enter at most so many nodes.
    pub fn new(max_steps: usize) -> (e: Self)
        ensures
            e.limit() == max_steps,
    {
        SimpleExecutor { max_steps }
    }

    /// A run at the start of a graph.
    pub fn start<N, C>(&self, graph: &Graph<N, C>, trace_id: TraceId, now: Instant) -> (run:
        SimpleRun)
        ensures
            run.current@ == graph.start@,
            run.step == 0,
            run.max_steps == self.limit(),
            run.trace_id == trace_id,
            run.start_time == now,
            run.execution_log@ == Seq::<ExecutionEntry>::empty(),
    {
        SimpleRun {
            current: graph.start_node().to_owned(),
            step: 0,
            max_steps: self.max_steps,
            trace_id,
            start_time: now,
            node_start: now,
            execution_log: Vec::new(),
        }
    }
}

impl Default for SimpleExecutor {
    fn default() -> (e: Self)
        ensures
            e.limit() == 100,
    {
        SimpleExecutor { max_steps: 100 }
    }
}

/// Where a plain run stands.
pub struct SimpleRun {
    pub current: String,
    pub step: usize,
    pub max_steps: usize,
    pub trace_id: TraceId,
    pub start_time: Instant,
    pub node_start: Instant,
    pub execution_log: Vec<ExecutionEntry>,
}

/// What a plain run does next.
pub enum SimpleNext {
    /// Enter the node at which it stands.
    Enter,
    /// Nothing: it is over.
    Done,
}

/// The run and what it does next after a move.
pub open spec fn after_move(
    before: SimpleRun,
    after: SimpleRun,
    taken: Move,
    next: Result<SimpleNext, GraphError>,
) -> bool {
    &&& after == (SimpleRun {
        current: after.current,
        execution_log: after.execution_log,
        ..before
    })
    &&& match taken {
        Move::Done => next matches Ok(SimpleNext::Done) && after.current == before.current,
        Move::To(t) => next matches Ok(SimpleNext::Enter) && after.current@ == t,
        Move::Fail(e) => next matches Err(f) && f == e && after.current == before.current,
    }
}

impl SimpleRun {
    /// How far the run has come.
    pub open spec fn steps(self) -> Steps {
        Steps { taken: self.step, limit: self.max_steps }
    }

    /// Enters the node at which the run stands. The run fails where it has entered
    /// as many nodes as it may, or where there is no such node.
    pub fn enter<'g, N, C>(&mut self, graph: &'g Graph<N, C>, now: Instant) -> (node: Result<
        &'g N,
        GraphError,
    >)
        ensures
            stepping::goes_on(old(self).steps(), final(self).steps(), node is Ok),
            if old(self).step >= old(self).max_steps {
                *final(self) == *old(self) && (node matches Err(e) && inline_run::is_steps_exceeded(
                    e,
                    old(self).max_steps,
                ))
            } else if node_table::has_node(graph.nodes@, old(self).current@) {
                &&& *final(self) == (SimpleRun {
                    step: (old(self).step + 1) as usize,
                    node_start: now,
                    ..*old(self)
                })
                &&& node matches Ok(n) && *n == node_table::node_named(
                    graph.nodes@,
                    old(self).current@,
                )
            } else {
                &&& *final(self) == (SimpleRun {
                    step: (old(self).step + 1) as usize,
                    ..*old(self)
                })
                &&& node matches Err(e) && inline_run::is_not_found(e, old(self).current@)
            },
    {
        if self.step >= self.max_steps {
            return Err(
                GraphError::Terminal(TerminalError::StepsExceeded { limit: self.max_steps }),
            );
        }
        self.step += 1;
        match graph.nodes.get(self.current.as_str()) {
            Some(node) => {
                self.node_start = now;
                Ok(node)
            },
            None => Err(GraphError::Terminal(TerminalError::NodeNotFound(self.current.clone()))),
        }
    }

    /// Settles what a node that succeeded left behind: the log is told, its changes
    /// are made, a request for a decision is dropped, and the run moves on in the
    /// new state.
    pub fn after_node<T: StreamSink, K: CheckpointSink<State>, P, N, C: Fn(&State) -> bool>(
        &mut self,
        graph: &Graph<N, C>,
        engine: &mut ExecutionEngine<'_, State, T, K, P>,
        now: Instant,
    ) -> (next: Result<SimpleNext, GraphError>)
        requires
            routing::conditions_total::<State, C>(graph.edges@),
        ensures
            workflow_state::batch_effect(
                old(engine).mutations@,
                *old(engine).state,
                *final(engine).state,
            ),
            final(engine).mutations@ == Seq::<StateMutation>::empty(),
            final(engine).control.next is None,
            final(engine).control.signal is None,
            *final(final(engine).state) == *final(old(engine).state),
            final(engine).stream == old(engine).stream,
            final(engine).cancel == old(engine).cancel,
            final(engine).checkpoint_sink == old(engine).checkpoint_sink,
            final(engine).metadata == old(engine).metadata,
            final(engine).flow_events == old(engine).flow_events,
            stepping::goes_on(old(self).steps(), final(self).steps(), false),
            final(self).execution_log@.len() == old(self).execution_log@.len() + 1,
            final(self).execution_log@.drop_last() == old(self).execution_log@,
            final(self).execution_log@.last().step == old(self).step,
            final(self).execution_log@.last().node_name@ == old(self).current@,
            final(self).execution_log@.last().start_time == old(self).node_start,
            final(self).execution_log@.last().end_time == old(self).node_start.later(
                now.since(old(self).node_start) as nat,
            ),
            final(self).execution_log@.last().success,
            final(self).execution_log@.last().error is None,
            exists|taken: Move| #[trigger]
                routing::moves(
                    *graph,
                    old(self).current@,
                    *final(engine).state,
                    old(engine).control.route(),
                    taken,
                ) && after_move(*old(self), *final(self), taken, next),
            match old(engine).control.next {
                Some(NextAction::Goto(t)) => next matches Ok(SimpleNext::Enter)
                    && final(self).current@ == t@,
                Some(NextAction::End) => next matches Ok(SimpleNext::Done),
                _ => next matches Ok(SimpleNext::Done) <==> old(self).current@ == graph.end@,
            },
    {
        let ghost before = *self;
        let took: Duration = now.duration_since(self.node_start);
        self.execution_log.push(
            ExecutionEntry {
                step: self.step,
                node_name: self.current.clone(),
                start_time: self.node_start,
                end_time: self.node_start.plus(took),
                success: true,
                error: None,
            },
        );
        assert(self.execution_log@.drop_last() =~= before.execution_log@);
        engine.commit();
        let (action, _signal) = engine.take_control();
        let r = routing::next_move(graph, self.current.as_str(), &*engine.state, action);
        let ghost taken = routing::move_of(r);
        assert(routing::moves(*graph, before.current@, *engine.state, action, taken));
        match r {
            Ok(Some(target)) => {
                self.current = target;
                assert(after_move(before, *self, taken, Ok(SimpleNext::Enter)));
                Ok(SimpleNext::Enter)
            },
            Ok(None) => {
                assert(after_move(before, *self, taken, Ok(SimpleNext::Done)));
                Ok(SimpleNext::Done)
            },
            Err(e) => {
                assert(after_move(before, *self, taken, Err(e)));
                Err(e)
            },
        }
    }

    /// The result of a run that is over.
    pub fn finish(self, state: State, now: Instant) -> (result: GraphResult<State>)
        ensures
            result.trace_id == self.trace_id,
            result.state == state,
            result.execution_log == self.execution_log,
            result.duration@ == now.since(self.start_time),
            result.trace is None,
    {
        GraphResult {
            trace_id: self.trace_id,
            state,
            execution_log: self.execution_log,
            duration: now.duration_since(self.start_time),
            trace: None,
        }
    }
}

/// A plain run stands where it was sent: after a jump at the node that was named, and
/// after a step along the edges at the target of an edge that leaves the node where it
/// stood. It is over only where it was ended or stood at the end node.
pub proof fn law_plain_run_stands_where_it_was_sent<N, C: Fn(&State) -> bool>(
    graph: Graph<N, C>,
    before: SimpleRun,
    after: SimpleRun,
    state: State,
    action: NextAction,
    taken: Move,
    next: Result<SimpleNext, GraphError>,
)
    requires
        routing::moves(graph, before.current@, state, action, taken),
        after_move(before, after, taken, next),
    ensures
        after.step == before.step,
        after.max_steps == before.max_steps,
        after.trace_id == before.trace_id,
        after.start_time == before.start_time,
        action matches NextAction::Goto(t) ==> next matches Ok(SimpleNext::Enter)
            && after.current@ == t@,
        (next matches Ok(SimpleNext::Done)) <==> action is End || (action is Next && before.current@
            == graph.end@),
        action is Next && (next matches Ok(SimpleNext::Enter)) ==> exists|i: int|
            0 <= i < graph.edges@.len() && (#[trigger] graph.edges@[i]).from@ == before.current@
                && graph.edges@[i].to@ == after.current@,
        !(next matches Ok(SimpleNext::Enter)) ==> after.current == before.current,
{
    routing::law_runs_go_where_asked(graph, before.current@, state, action, taken);
}

} // verus!
