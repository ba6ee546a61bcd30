//! Runs: the loop under observation, the executor with decisions, the plain runs.

use lellm_graph::checkpoint::checkpoint_data::{
    Checkpoint, CheckpointId, CheckpointStoreError, NoopCheckpointSink,
};
use lellm_graph::checkpoint::checkpoint_policy::TriggerPolicy;
use lellm_graph::checkpoint::trace::MemoryTraceSink;
use lellm_graph::error::{GraphError, TerminalError};
use lellm_graph::event::{
    BarrierDecision, BarrierDecisionMessage, BarrierId, FlowEvent, GraphEvent,
};
use lellm_graph::exec::decision_registry::{
    cancelled_decision, default_decision, DecisionPoll, DecisionRegistry,
};
use lellm_graph::exec::execution_engine::{ExecutionEngine, NextAction};
use lellm_graph::exec::execution_loop::{starting_point, ExecutionLoop, LoopAction};
use lellm_graph::exec::executor::{
    absorb_event, final_result, resume_from, resume_node, CheckpointTrigger, ExecutorAction,
    GraphExecutor, SaveMoments,
};
use lellm_graph::exec::inline_run::{InlineNext, InlineRun, NoopStepCallback};
use lellm_graph::graph::graph_builder::GraphBuilder;
use lellm_graph::graph::graph_core::Graph;
use lellm_graph::ids::{SpanId, TraceId};
use lellm_graph::json::{Number, Value};
use lellm_graph::node::barrier_node::{BarrierDefaultAction, BarrierNode};
use lellm_graph::node::barrier_sink::BarrierOutcome;
use lellm_graph::node::node::{NodeKind, TaskNode};
use lellm_graph::state::delta::Reducer;
use lellm_graph::state::state::{GraphResult, State, StateMerge, StateMutation};
use lellm_graph::stream::NoopSink;
use lellm_graph::test_executor::{SimpleExecutor, SimpleNext};
use lellm_graph::time::{Duration, Instant};
use tokio_util::sync::CancellationToken;

type Condition = fn(&State) -> bool;
type Kind = NodeKind<Condition, u64, StateMerge>;
type Engine<'a> = ExecutionEngine<'a, State, NoopSink, NoopCheckpointSink, ()>;
type Event = GraphEvent<State, ()>;
type Rule = fn(&Value, &Value) -> Result<Value, String>;

fn at(secs: u64) -> Instant {
    Instant { nanos: secs * 1_000_000_000 }
}

fn num(n: u64) -> Value {
    Value::Number(Number::PosInt(n))
}

fn task(name: &str, n: u64) -> Kind {
    NodeKind::Task(TaskNode::new(name, n))
}

fn chain() -> Graph<Kind, Condition> {
    chain_with(BarrierDefaultAction::Reject)
}

fn chain_with(action: BarrierDefaultAction) -> Graph<Kind, Condition> {
    let mut b: GraphBuilder<Kind, Condition> = GraphBuilder::new("g");
    b.start("a");
    b.end("c");
    b.node("a", task("a", 1));
    let barrier = BarrierNode::new("b").timeout(Duration::from_secs(9)).default_action(action);
    b.node("b", NodeKind::Barrier(barrier));
    b.node("c", task("c", 3));
    b.edge("a", "b");
    b.edge("b", "c");
    b.build().ok().unwrap()
}

fn run_node(graph: &Graph<Kind, Condition>, name: &str, engine: &mut Engine<'_>) {
    match graph.node_map().get(name).unwrap() {
        NodeKind::Task(t) => {
            let mut ctx = engine.build_node_context();
            ctx.record(StateMutation::Put(t.name.clone(), num(t.func)));
        }
        NodeKind::Barrier(b) => {
            let mut ctx = engine.build_leaf_context();
            b.execute(&mut ctx);
        }
        _ => unreachable!(),
    }
}

fn engine<'a>(state: &'a mut State) -> Engine<'a> {
    ExecutionEngine::new(state, None, CancellationToken::new(), None)
}

fn observed(outcome: BarrierOutcome, trigger: Option<TriggerPolicy>) -> (Vec<Event>, usize) {
    observed_on(&chain(), outcome, trigger)
}

fn observed_on(
    graph: &Graph<Kind, Condition>,
    outcome: BarrierOutcome,
    trigger: Option<TriggerPolicy>,
) -> (Vec<Event>, usize) {
    let mut state = State::new();
    let mut engine = engine(&mut state);
    let mut run: ExecutionLoop<State> = ExecutionLoop::new(
        "a".to_string(),
        false,
        10,
        TraceId(7),
        at(0),
        Some(MemoryTraceSink::new()),
        trigger,
    );
    let mut outcome = Some(outcome);
    let mut all: Vec<Event> = Vec::new();
    let mut saves = 0;
    let mut out = run.begin(graph, SpanId(1));
    loop {
        all.append(&mut out.events);
        out = match out.action {
            LoopAction::Step => run.next_step(graph, engine.state(), false, SpanId(2), at(1)),
            LoopAction::Save => {
                saves += 1;
                run.next_step(graph, engine.state(), false, SpanId(2), at(1))
            }
            LoopAction::Execute => {
                let name = run.current.clone();
                run_node(graph, &name, &mut engine);
                let end = run.settle(&mut engine, at(2));
                all.push(end);
                run.proceed(graph, &mut engine, at(3))
            }
            LoopAction::Wait { barrier_id, timeout } => {
                assert_eq!(timeout.unwrap().as_secs(), 9);
                run.after_wait(graph, engine.state_mut(), barrier_id, outcome.take().unwrap(), at(4))
            }
            LoopAction::Stop => return (all, saves),
        };
    }
}

fn names(events: &[Event]) -> Vec<String> {
    events
        .iter()
        .map(|e| match e {
            GraphEvent::GraphStart { .. } => "start".to_string(),
            GraphEvent::NodeStart { node_name, .. } => format!("+{}", node_name),
            GraphEvent::NodeEnd { node_name, success, .. } => format!("-{}{}", node_name, success),
            GraphEvent::BarrierWaiting { .. } => "wait".to_string(),
            GraphEvent::BarrierResolved { .. } => "resolved".to_string(),
            GraphEvent::GraphComplete { .. } => "complete".to_string(),
            GraphEvent::GraphError { .. } => "error".to_string(),
            GraphEvent::Node { .. } => "node".to_string(),
            GraphEvent::CheckpointSaved { .. } => "saved".to_string(),
            _ => "other".to_string(),
        })
        .collect()
}

fn completed(events: Vec<Event>) -> GraphResult<State> {
    match events.into_iter().last() {
        Some(GraphEvent::GraphComplete { result }) => result,
        _ => unreachable!(),
    }
}

#[test]
fn a_run_reports_every_step_and_ends_once() {
    let (events, saves) =
        observed(BarrierOutcome::Decision(BarrierDecision::Approve), Some(TriggerPolicy::EveryNode));
    assert_eq!(
        names(&events),
        vec![
            "start", "+a", "-atrue", "+b", "-btrue", "wait", "resolved", "+c", "-ctrue", "complete"
        ]
    );
    assert_eq!(saves, 2);
    let result = completed(events);
    assert_eq!(result.trace_id, TraceId(7));
    assert_eq!(result.state.get_u64("a"), Some(1));
    assert_eq!(result.state.get_u64("c"), Some(3));
    assert_eq!(result.execution_log.len(), 3);
    assert_eq!(result.execution_log[2].step, 3);
    assert_eq!(result.execution_log[0].start_time, at(1));
    assert_eq!(result.execution_log[0].end_time, at(2));
    assert!(!result.state.contains("b.approved"));
    assert_eq!(result.duration.as_secs(), 3);
    assert_eq!(result.trace.unwrap().len(), 2);
}

#[test]
fn checkpoints_follow_the_trigger() {
    let approve = || BarrierOutcome::Decision(BarrierDecision::Approve);
    assert_eq!(observed(approve(), Some(TriggerPolicy::BarrierOnly)).1, 1);
    assert_eq!(observed(approve(), Some(TriggerPolicy::OnMutation)).1, 1);
    assert_eq!(observed(approve(), Some(TriggerPolicy::Manual)).1, 0);
    assert_eq!(observed(approve(), None).1, 0);
}

#[test]
fn a_reroute_sends_the_run_elsewhere() {
    let reroute =
        || BarrierOutcome::Decision(BarrierDecision::Reroute { target: "c".to_string() });
    let (events, _) = observed(reroute(), None);
    assert_eq!(names(&events).last().unwrap(), "complete");
    assert_eq!(observed(reroute(), Some(TriggerPolicy::EveryNode)).1, 2);
    assert_eq!(observed(reroute(), Some(TriggerPolicy::BarrierOnly)).1, 1);
}

#[test]
fn a_modification_reaches_the_state() {
    let modify = || {
        BarrierOutcome::Decision(BarrierDecision::Modify { key: "k".to_string(), value: num(5) })
    };
    let (events, _) = observed(modify(), None);
    let result = completed(events);
    assert_eq!(result.state.get_u64("k"), Some(5));
    let graph = chain();
    let mut state = State::new();
    let mut run = InlineRun::new(&graph, 10);
    run.current = "b".to_string();
    let next = run.after_wait(&graph, &mut state, NextAction::Next, modify());
    assert!(matches!(next, Ok(InlineNext::Enter)));
    assert_eq!(run.current, "c");
    assert_eq!(state.get_u64("k"), Some(5));
}

#[test]
fn the_end_of_the_time_is_a_rejection_unless_the_barrier_says_otherwise() {
    let (events, _) = observed(BarrierOutcome::TimedOut, None);
    assert!(events.iter().any(|e| match e {
        GraphEvent::BarrierResolved { decision: BarrierDecision::Reject { reason }, .. } =>
            reason == "timeout",
        _ => false,
    }));
    assert_eq!(names(&events).last().unwrap(), "complete");
    let graph = chain_with(BarrierDefaultAction::Approve);
    let (events, _) = observed_on(&graph, BarrierOutcome::TimedOut, None);
    assert!(events.iter().any(|e| matches!(
        e,
        GraphEvent::BarrierResolved { decision: BarrierDecision::Approve, .. }
    )));
    let mut state = State::new();
    let mut run = InlineRun::new(&graph, 10);
    run.current = "b".to_string();
    let next = run.after_wait(&graph, &mut state, NextAction::Next, BarrierOutcome::TimedOut);
    assert!(matches!(next, Ok(InlineNext::Enter)));
    assert_eq!(run.current, "c");
    assert!(state.is_empty());
}

#[test]
fn a_cancelled_wait_ends_the_run() {
    let (events, _) = observed(BarrierOutcome::Cancelled, None);
    match events.last() {
        Some(GraphEvent::GraphError {
            error: GraphError::Terminal(TerminalError::BarrierCancelled { node }),
            state,
        }) => {
            assert_eq!(node, "b");
            assert_eq!(state.get_u64("a"), Some(1));
        }
        _ => unreachable!(),
    }
}

fn fresh(current: &str, max_steps: usize) -> ExecutionLoop<State> {
    ExecutionLoop::new(current.to_string(), false, max_steps, TraceId(1), at(0), None, None)
}

#[test]
fn a_run_may_be_told_to_stop_or_run_out_of_steps() {
    let graph = chain();
    let state = State::new();
    let mut run = fresh("a", 0);
    let out = run.next_step::<(), _, _, _>(&graph, &state, false, SpanId(0), at(0));
    assert!(matches!(out.action, LoopAction::Stop));
    assert!(matches!(
        out.events[0],
        GraphEvent::GraphError {
            error: GraphError::Terminal(TerminalError::StepsExceeded { limit: 0 }),
            ..
        }
    ));
    let out = run.next_step::<(), _, _, _>(&graph, &state, true, SpanId(0), at(0));
    match &out.events[0] {
        GraphEvent::GraphError {
            error: GraphError::Terminal(TerminalError::BarrierCancelled { node }),
            ..
        } => assert_eq!(node, "execution cancelled"),
        _ => unreachable!(),
    }
    let mut run = fresh("gone", 5);
    let out = run.next_step::<(), _, _, _>(&graph, &state, false, SpanId(0), at(0));
    assert!(matches!(
        out.events[0],
        GraphEvent::GraphError {
            error: GraphError::Terminal(TerminalError::NodeNotFound(_)),
            ..
        }
    ));
}

#[test]
fn a_failed_node_ends_the_run() {
    let state = State::new();
    let mut run = fresh("a", 5);
    let out = run.after_failed_node::<()>(&state, at(1));
    assert_eq!(names(&out.events), vec!["-afalse", "error"]);
    match &out.events[1] {
        GraphEvent::GraphError {
            error: GraphError::Terminal(TerminalError::NodeExecutionFailed { node, source }),
            ..
        } => {
            assert_eq!(node, "a");
            assert_eq!(source, "node execution failed");
        }
        _ => unreachable!(),
    }
}

#[test]
fn a_run_resumed_at_a_barrier_asks_again_and_skips_it() {
    let graph = chain();
    let mut kept = State::new();
    kept.insert("a".to_string(), num(1));
    let cp = Checkpoint::new("b", &kept, graph.canonical_hash());
    let (mut state, node, resumed) =
        starting_point(&graph, State::new(), Some(cp)).ok().unwrap();
    assert_eq!(node, "b");
    assert!(resumed);
    assert_eq!(state.get_u64("a"), Some(1));
    let mut run: ExecutionLoop<State> =
        ExecutionLoop::new(node, resumed, 5, TraceId(1), at(0), None, None);
    let out = run.begin::<(), _, _, _>(&graph, SpanId(1));
    assert_eq!(names(&out.events), vec!["start", "wait"]);
    let id = match out.action {
        LoopAction::Wait { barrier_id, .. } => barrier_id,
        _ => unreachable!(),
    };
    assert_eq!(id.node_id, "b");
    assert_eq!(id.occurrence, 0);
    let out =
        run.after_rewait::<(), _, _, _>(&graph, &mut state, id, BarrierOutcome::TimedOut);
    assert!(matches!(out.action, LoopAction::Step));
    assert!(matches!(
        &out.events[0],
        GraphEvent::BarrierResolved { decision: BarrierDecision::Reject { reason }, .. }
            if reason == "timeout on restore"
    ));
    assert_eq!(state.len(), 1);
    let out = run.next_step::<(), _, _, _>(&graph, &state, false, SpanId(1), at(1));
    assert!(out.events.is_empty());
    assert_eq!(run.current, "c");
    let out = run.next_step::<(), _, _, _>(&graph, &state, false, SpanId(1), at(1));
    assert_eq!(names(&out.events), vec!["+c"]);
    assert_eq!(run.step, 2);
}

#[test]
fn a_reroute_of_a_resumed_run_runs_its_target() {
    let graph = chain();
    let mut state = State::new();
    let mut run: ExecutionLoop<State> = ExecutionLoop::new(
        "b".to_string(),
        true,
        5,
        TraceId(1),
        at(0),
        None,
        Some(TriggerPolicy::BarrierOnly),
    );
    let outcome = BarrierOutcome::Decision(BarrierDecision::Reroute { target: "a".to_string() });
    let id = BarrierId::new("b", 0);
    let out = run.after_rewait::<(), _, _, _>(&graph, &mut state, id, outcome);
    assert_eq!(names(&out.events), vec!["resolved"]);
    assert!(matches!(out.action, LoopAction::Save));
    let out = run.next_step::<(), _, _, _>(&graph, &state, false, SpanId(1), at(1));
    assert_eq!(names(&out.events), vec!["+a"]);
}

#[test]
fn a_decision_on_resumption_is_saved_only_where_decisions_are() {
    let first = |trigger: TriggerPolicy| {
        let graph = chain();
        let mut state = State::new();
        let mut run: ExecutionLoop<State> = ExecutionLoop::new(
            "b".to_string(),
            true,
            5,
            TraceId(1),
            at(0),
            None,
            Some(trigger),
        );
        let outcome = BarrierOutcome::Decision(BarrierDecision::Approve);
        let id = BarrierId::new("b", 0);
        let out = run.after_rewait::<(), _, _, _>(&graph, &mut state, id, outcome);
        assert!(matches!(out.action, LoopAction::Step));
        run.next_step::<(), _, _, _>(&graph, &state, false, SpanId(1), at(1)).action
    };
    assert!(matches!(first(TriggerPolicy::BarrierOnly), LoopAction::Save));
    assert!(matches!(first(TriggerPolicy::EveryNode), LoopAction::Step));
    assert!(matches!(first(TriggerPolicy::OnMutation), LoopAction::Step));
}

#[test]
fn a_run_is_not_resumed_on_another_graph() {
    let graph = chain();
    let cp = Checkpoint::new("b", &State::new(), 1);
    let error = starting_point(&graph, State::new(), Some(cp)).err().unwrap();
    let out = ExecutionLoop::<State>::refused::<()>(TraceId(1), &State::new(), error);
    assert_eq!(names(&out.events), vec!["start", "error"]);
    let cp = Checkpoint::new("b", &State::new(), 255);
    match resume_from(Ok(Some(cp)), &TraceId(1), &graph) {
        Err(GraphError::Terminal(TerminalError::InvalidGraph(m))) => assert_eq!(
            m,
            format!(
                "failed to load checkpoint: graph mismatch: expected hash 0x{}, got 0x00000000000000ff",
                graph.hash()
            )
        ),
        _ => unreachable!(),
    }
}

#[test]
fn a_run_without_a_checkpoint_begins_at_the_start() {
    let graph = chain();
    let (_, node, resumed) = starting_point(&graph, State::new(), None).ok().unwrap();
    assert_eq!(node, "a");
    assert!(!resumed);
}

fn executed(decision: BarrierDecision) -> Vec<Event> {
    let graph = chain();
    let mut state = State::new();
    let mut engine = engine(&mut state);
    let executor: GraphExecutor<Rule> = GraphExecutor::new(10);
    let mut run = executor.start(&graph, None, TraceId(7), at(0));
    let mut events: Vec<Event> = vec![run.begin()];
    loop {
        let mut out = run.enter(&graph, engine.state(), SpanId(1), at(1));
        events.append(&mut out.events);
        if let ExecutorAction::Stop = out.action {
            return events;
        }
        let name = run.current.clone();
        run_node(&graph, &name, &mut engine);
        engine.emit_flow_event(FlowEvent::Custom { node_id: "n".to_string(), payload: () });
        events.append(&mut run.settle(&mut engine, at(2)));
        events.push(run.node_end(at(2)));
        let mut out = run.proceed(&graph, &mut engine, SpanId(2));
        if let ExecutorAction::Wait { .. } = out.action {
            events.append(&mut out.events);
            if let ExecutorAction::Wait { barrier_id, timeout } = out.action {
                assert_eq!(timeout.unwrap().as_secs(), 9);
                out = run.after_decision(
                    &graph,
                    &mut engine,
                    barrier_id,
                    decision.clone(),
                    SpanId(3),
                    at(3),
                );
            } else {
                unreachable!();
            }
        }
        events.append(&mut out.events);
        match out.action {
            ExecutorAction::Advance { .. } => {}
            ExecutorAction::Complete => {
                events.push(run.complete(engine.state(), at(5)));
                return events;
            }
            ExecutorAction::Stop => return events,
            _ => unreachable!(),
        }
    }
}

#[test]
fn the_executor_shows_decisions_in_the_state() {
    let events = executed(BarrierDecision::Approve);
    assert_eq!(
        names(&events),
        vec![
            "start", "+a", "node", "-atrue", "+b", "node", "-btrue", "wait", "resolved", "-btrue",
            "+c", "node", "-ctrue", "complete"
        ]
    );
    let result = completed(events);
    assert_eq!(result.state.get_bool("b.approved"), Some(true));
    assert_eq!(result.execution_log.len(), 4);
    assert_eq!(result.execution_log[2].node_name, "b");
    assert_eq!(result.duration.as_secs(), 5);
    let rejected = completed(executed(BarrierDecision::Reject { reason: "r".to_string() }));
    assert_eq!(rejected.state.get_str("b.reject_reason"), Some("r"));
    let modified = completed(executed(BarrierDecision::Modify {
        key: "k".to_string(),
        value: num(5),
    }));
    assert_eq!(modified.state.get_u64("k"), Some(5));
    let rerouted = executed(BarrierDecision::Reroute { target: "gone".to_string() });
    assert!(matches!(
        rerouted.last(),
        Some(GraphEvent::GraphError {
            error: GraphError::Terminal(TerminalError::NodeNotFound(_)),
            ..
        })
    ));
}

#[test]
fn a_reroute_leaves_the_end_node() {
    let mut b: GraphBuilder<Kind, Condition> = GraphBuilder::new("g");
    b.start("a");
    b.end("b");
    b.node("a", task("a", 1));
    b.node("b", NodeKind::Barrier(BarrierNode::new("b")));
    b.edge("a", "b");
    let graph = b.build().ok().unwrap();
    let mut state = State::new();
    let mut engine = engine(&mut state);
    let executor: GraphExecutor<Rule> = GraphExecutor::new(5);
    let mut run = executor.start(&graph, Some("b".to_string()), TraceId(7), at(0));
    let id = BarrierId::new("b", 1);
    let reroute = BarrierDecision::Reroute { target: "a".to_string() };
    let out = run.after_decision(&graph, &mut engine, id.clone(), reroute, SpanId(3), at(3));
    assert!(matches!(
        out.action,
        ExecutorAction::Advance { trigger: CheckpointTrigger::BarrierResolved }
    ));
    assert_eq!(run.current, "a");
    run.current = "b".to_string();
    let out =
        run.after_decision(&graph, &mut engine, id, BarrierDecision::Approve, SpanId(3), at(3));
    assert!(matches!(out.action, ExecutorAction::Complete));
}

#[test]
fn a_pause_by_another_node_than_a_barrier_is_an_error() {
    let graph = chain();
    let mut state = State::new();
    let mut engine = engine(&mut state);
    let executor: GraphExecutor<Rule> = GraphExecutor::default();
    assert_eq!(executor.max_steps, 50);
    let mut run = executor.start(&graph, Some("c".to_string()), TraceId(7), at(0));
    let out = run.after_decision(
        &graph,
        &mut engine,
        BarrierId::new("c", 1),
        BarrierDecision::Approve,
        SpanId(3),
        at(3),
    );
    match &out.events[1] {
        GraphEvent::GraphError {
            error: GraphError::Terminal(TerminalError::InvalidGraph(m)),
            ..
        } => assert_eq!(m, "expected BarrierNode for pause signal"),
        _ => unreachable!(),
    }
}

#[test]
fn a_failed_node_of_the_executor_is_logged() {
    let graph = chain();
    let executor: GraphExecutor<Rule> = GraphExecutor::new(1);
    let mut run = executor.start(&graph, None, TraceId(7), at(0));
    let state = State::new();
    run.enter::<(), _, _>(&graph, &state, SpanId(1), at(1));
    let out = run.after_failed_node::<()>(
        &state,
        GraphError::Terminal(TerminalError::StateError("x".to_string())),
        at(2),
    );
    assert_eq!(names(&out.events), vec!["-afalse", "error"]);
    assert_eq!(run.execution_log.len(), 1);
    assert!(!run.execution_log[0].success);
    assert_eq!(
        run.execution_log[0].error.as_deref(),
        Some("[terminal] state error: x")
    );
    let out = run.enter::<(), _, _>(&graph, &state, SpanId(1), at(1));
    assert!(matches!(
        out.events[0],
        GraphEvent::GraphError {
            error: GraphError::Terminal(TerminalError::StepsExceeded { limit: 1 }),
            ..
        }
    ));
    match run.cancelled::<()>(&state) {
        GraphEvent::GraphError {
            error: GraphError::Terminal(TerminalError::BarrierCancelled { node }),
            ..
        } => assert_eq!(node, "execution cancelled by handle"),
        _ => unreachable!(),
    }
    match run.cancelled_wait::<()>(&state) {
        GraphEvent::GraphError {
            error: GraphError::Terminal(TerminalError::BarrierCancelled { node }),
            ..
        } => assert_eq!(node, "a"),
        _ => unreachable!(),
    }
    match run.checkpoint_saved::<()>(CheckpointId(4), "__complete__", 1) {
        GraphEvent::CheckpointSaved { checkpoint_id, node_name, step } => {
            assert_eq!(checkpoint_id, CheckpointId(4));
            assert_eq!(node_name, "__complete__");
            assert_eq!(step, 1);
        }
        _ => unreachable!(),
    }
}

#[test]
fn the_executor_saves_at_its_moments() {
    let graph = chain();
    let moments = SaveMoments {
        on_barrier: true,
        on_completion: false,
        on_human_decision: true,
        on_explicit: false,
        adaptive: true,
    };
    let mut e: GraphExecutor<Rule> = GraphExecutor::with_checkpoint(5, moments, &graph);
    assert_eq!(e.graph_hash, graph.hash());
    assert!(e.should_save(CheckpointTrigger::BarrierResolved));
    assert!(!e.should_save(CheckpointTrigger::ExecutionCompleted));
    assert!(e.should_save(CheckpointTrigger::HumanDecision));
    assert!(!e.should_save(CheckpointTrigger::Explicit));
    assert!(e.should_save(CheckpointTrigger::Adaptive(true)));
    assert!(!e.should_save(CheckpointTrigger::Adaptive(false)));
    e.has_store = false;
    assert!(!e.should_save(CheckpointTrigger::BarrierResolved));
    e.register_reducer("k", Reducer::Sum);
    e.register_reducer("k", Reducer::Append);
    e.set_graph(&graph);
    let rules = e.reducers();
    assert_eq!(rules.get("k").to_string(), "Append");
    assert_eq!(rules.get("other").to_string(), "Error");
}

#[test]
fn the_last_end_counts() {
    let none: Option<Result<GraphResult<State>, GraphError>> = None;
    let r = absorb_event(none, Event::GraphStart { trace_id: TraceId(1) });
    assert!(r.is_none());
    match final_result(r) {
        Err(GraphError::Terminal(TerminalError::InvalidGraph(m))) => {
            assert_eq!(m, "stream ended without completion")
        }
        _ => unreachable!(),
    }
    let r = absorb_event(
        None,
        Event::GraphError {
            error: GraphError::Terminal(TerminalError::StepsExceeded { limit: 1 }),
            state: State::new(),
        },
    );
    assert!(final_result(r).is_err());
}

#[test]
fn resuming_goes_by_the_checkpoint() {
    let graph = chain();
    assert_eq!(resume_node(&graph, "b").as_deref(), Some("b"));
    assert_eq!(resume_node(&graph, "c").as_deref(), Some("c"));
    assert_eq!(resume_node(&graph, "__complete__"), None);
    assert_eq!(resume_node(&graph, "gone"), None);
    let mut kept = State::new();
    kept.insert("a".to_string(), num(1));
    let cp = Checkpoint::new("b", &kept, graph.canonical_hash());
    let (state, node) = resume_from(Ok(Some(cp)), &TraceId(1), &graph).ok().unwrap();
    assert_eq!(state.get_u64("a"), Some(1));
    assert_eq!(node.as_deref(), Some("b"));
    let cp = Checkpoint::new("c", &kept, graph.canonical_hash());
    let (_, node) = resume_from(Ok(Some(cp)), &TraceId(1), &graph).ok().unwrap();
    assert_eq!(node.as_deref(), Some("c"));
    let none: Result<Option<Checkpoint<State>>, CheckpointStoreError> = Ok(None);
    match resume_from(none, &TraceId(1), &graph) {
        Err(GraphError::Terminal(TerminalError::InvalidGraph(m))) => assert_eq!(
            m,
            "no checkpoint found for trace 00000000-0000-0000-0000-000000000001"
        ),
        _ => unreachable!(),
    }
    let bad: Result<Option<Checkpoint<State>>, CheckpointStoreError> =
        Err(CheckpointStoreError::Storage("x".to_string()));
    match resume_from(bad, &TraceId(1), &graph) {
        Err(GraphError::Terminal(TerminalError::InvalidGraph(m))) => {
            assert_eq!(m, "failed to load checkpoint: storage error: x")
        }
        _ => unreachable!(),
    }
}

#[test]
fn decisions_wait_for_their_stop() {
    let mut registry = DecisionRegistry::new();
    let first = registry.next_id("b");
    let second = registry.next_id("b");
    assert_eq!((first.occurrence, second.occurrence), (1, 2));
    assert!(registry.take(&first).is_none());
    let early = BarrierDecisionMessage::Exact {
        barrier_id: second.clone(),
        decision: BarrierDecision::Approve,
    };
    assert!(registry.process_message(early, &first).is_none());
    assert!(matches!(registry.take(&second), Some(BarrierDecision::Approve)));
    assert!(registry.take(&second).is_none());
    let all = BarrierDecisionMessage::Wildcard {
        node_id: "b".to_string(),
        decision: BarrierDecision::Reroute { target: "c".to_string() },
    };
    assert!(registry.process_message(all, &first).is_some());
    let reject = BarrierDefaultAction::Reject;
    let approve = BarrierDefaultAction::Approve;
    assert!(matches!(
        registry.after_poll(DecisionPoll::Closed, &first, &approve, false, false),
        Some(BarrierDecision::Reject { .. })
    ));
    assert!(registry
        .after_poll(DecisionPoll::Quiet, &first, &reject, false, false)
        .is_none());
    assert!(matches!(
        registry.after_poll(DecisionPoll::Quiet, &first, &approve, false, true),
        Some(BarrierDecision::Approve)
    ));
    assert!(matches!(
        registry.after_poll(DecisionPoll::Quiet, &first, &approve, true, true),
        Some(BarrierDecision::Reject { .. })
    ));
    match registry.after_poll(DecisionPoll::Quiet, &first, &reject, false, true) {
        Some(BarrierDecision::Reject { reason }) => {
            assert_eq!(reason, "timeout — no decision received")
        }
        _ => unreachable!(),
    }
    assert!(matches!(
        default_decision(&BarrierDefaultAction::Skip),
        BarrierDecision::Approve
    ));
    assert!(matches!(
        cancelled_decision(),
        BarrierDecision::Reject { reason } if reason == "cancelled"
    ));
}

#[test]
fn a_plain_run_pays_no_heed_to_barriers() {
    let graph = chain();
    let mut state = State::new();
    let executor = SimpleExecutor::default();
    let mut run = executor.start(&graph, TraceId(3), at(10));
    {
        let mut engine = engine(&mut state);
        loop {
            assert!(run.enter(&graph, at(20)).is_ok());
            let name = run.current.clone();
            run_node(&graph, &name, &mut engine);
            match run.after_node(&graph, &mut engine, at(22)).ok().unwrap() {
                SimpleNext::Enter => {}
                SimpleNext::Done => break,
            }
        }
    }
    let result = run.finish(state, at(30));
    assert_eq!(result.execution_log.len(), 3);
    assert_eq!(result.execution_log[1].node_name, "b");
    assert_eq!(result.execution_log[1].start_time, at(20));
    assert_eq!(result.execution_log[1].end_time, at(22));
    assert_eq!(result.state.get_u64("c"), Some(3));
    assert_eq!(result.duration.as_secs(), 20);
    assert!(result.trace.is_none());
    let mut short = SimpleExecutor::new(0).start(&graph, TraceId(3), at(0));
    assert!(matches!(
        short.enter(&graph, at(0)),
        Err(GraphError::Terminal(TerminalError::StepsExceeded { limit: 0 }))
    ));
}

#[test]
fn an_inline_run_waits_at_barriers() {
    let graph = chain();
    let mut state = State::new();
    let mut engine = engine(&mut state);
    let mut run = InlineRun::new(&graph, 10);
    let mut callback = NoopStepCallback;
    let mut visited: Vec<String> = Vec::new();
    loop {
        assert!(run.enter(&graph).is_ok());
        let name = run.current.clone();
        visited.push(name.clone());
        run_node(&graph, &name, &mut engine);
        let mut next = run
            .after_node(&graph, &mut engine, &mut callback, Duration::from_secs(1))
            .ok()
            .unwrap();
        if let InlineNext::Wait { action, .. } = next {
            next = run
                .after_wait(
                    &graph,
                    engine.state_mut(),
                    action,
                    BarrierOutcome::Decision(BarrierDecision::Approve),
                )
                .ok()
                .unwrap();
        }
        if let InlineNext::Done = next {
            break;
        }
    }
    assert_eq!(visited, vec!["a", "b", "c"]);
    assert_eq!(run.step, 3);
    assert_eq!(engine.state().get_u64("c"), Some(3));
}
