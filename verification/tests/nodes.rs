//! Nodes: conditions, barriers, parallel branches, models and tools, streams.

use std::sync::{Arc, Mutex};

use lellm_graph::checkpoint::checkpoint_data::NoopCheckpointSink;
use lellm_graph::error::{GraphError, TerminalError};
use lellm_graph::event::{BarrierDecision, BarrierDecisionMessage, BarrierId};
use lellm_graph::exec::execution_engine::{ExecutionEngine, ExecutionSignal, NextAction};
use lellm_graph::exec::owned_execution_engine::OwnedExecutionEngine;
use lellm_graph::json::{Number, Value};
use lellm_graph::node::barrier_node::BarrierNode;
use lellm_graph::node::barrier_sink::{
    apply_barrier_decision, apply_barrier_decision_generic, cached_decision, end_wait,
    BarrierOutcome, MockBarrierSink, NoopBarrierSink, WaitEvent,
};
use lellm_graph::node::llm_node::{
    read_messages, stop_reason_str, AgentEvent, AgentNode, AgentResult, LLMNode, StopReason,
};
use lellm_graph::node::message::{calls_of, text_of, ContentBlock, Message, ToolCall};
use lellm_graph::node::node::ConditionNode;
use lellm_graph::node::parallel_node::{conclude_branch, ParallelErrorStrategy, ParallelNode};
use lellm_graph::node::tool_node::{tool_message, ToolNode};
use lellm_graph::state::state::{State, StateMutation};
use lellm_graph::stream::{sink_arc, NoopSink, StreamChunk, StreamSink};
use lellm_graph::string_map::StringMap;
use lellm_graph::time::Duration;
use tokio_util::sync::CancellationToken;

type Condition = fn(&State) -> bool;
type Engine<'a> = ExecutionEngine<'a, State, NoopSink, NoopCheckpointSink, ()>;

fn num(n: u64) -> Value {
    Value::Number(Number::PosInt(n))
}

fn engine<'a>(state: &'a mut State) -> Engine<'a> {
    ExecutionEngine::new(state, None, CancellationToken::new(), None)
}

fn yes(_: &State) -> bool {
    true
}

fn no(_: &State) -> bool {
    false
}

#[test]
fn a_condition_jumps_to_the_first_that_holds() {
    let node: ConditionNode<Condition> = ConditionNode::builder("c")
        .branch("x", no as Condition)
        .branch("y", yes as Condition)
        .branch("z", yes as Condition)
        .build();
    let mut state = State::new();
    let mut engine = engine(&mut state);
    {
        let mut ctx = engine.build_leaf_context();
        node.execute(&mut ctx);
    }
    match engine.take_control() {
        (NextAction::Goto(t), None) => assert_eq!(t, "y"),
        _ => unreachable!(),
    }
    let none: ConditionNode<Condition> =
        ConditionNode::builder("c").branch("x", no as Condition).build();
    assert!(none.pick(&State::new()).is_none());
}

#[test]
fn a_barrier_counts_its_stops() {
    let node = BarrierNode::new("b");
    let mut state = State::new();
    let mut engine = engine(&mut state);
    for i in 0..2u32 {
        {
            let mut ctx = engine.build_leaf_context();
            node.execute(&mut ctx);
        }
        match engine.take_control() {
            (_, Some(ExecutionSignal::Pause { barrier_id, timeout })) => {
                assert_eq!(barrier_id.node_id, "b");
                assert_eq!(barrier_id.occurrence, i);
                assert!(timeout.is_none());
            }
            _ => unreachable!(),
        }
    }
}

#[test]
fn decisions_change_the_dynamic_state() {
    let mut s = State::new();
    assert!(apply_barrier_decision(&mut s, "b", &BarrierDecision::Approve).is_none());
    assert_eq!(s.get_bool("b.approved"), Some(true));
    let reject = BarrierDecision::Reject { reason: "r".to_string() };
    assert!(apply_barrier_decision(&mut s, "b", &reject).is_none());
    assert_eq!(s.get_str("b.reject_reason"), Some("r"));
    assert!(!s.contains("b.approved"));
    let modify = BarrierDecision::Modify { key: "k".to_string(), value: num(1) };
    assert!(apply_barrier_decision(&mut s, "b", &modify).is_none());
    assert_eq!(s.get_u64("k"), Some(1));
    let reroute = BarrierDecision::Reroute { target: "t".to_string() };
    assert_eq!(apply_barrier_decision(&mut s, "b", &reroute).as_deref(), Some("t"));
    assert_eq!(apply_barrier_decision_generic(&reroute).as_deref(), Some("t"));
    assert!(apply_barrier_decision_generic(&modify).is_none());
}

#[test]
fn waits_end_by_what_comes_first() {
    let id = BarrierId::new("b", 1);
    let mut cache: StringMap<BarrierDecision> = StringMap::new();
    assert!(cached_decision(&cache, &id).is_none());
    assert!(matches!(
        end_wait(WaitEvent::CancelReceived, &id, &mut cache),
        (BarrierOutcome::Cancelled, true)
    ));
    assert!(matches!(
        end_wait(WaitEvent::Elapsed, &id, &mut cache),
        (BarrierOutcome::TimedOut, false)
    ));
    assert!(matches!(
        end_wait(WaitEvent::Message(None), &id, &mut cache),
        (BarrierOutcome::Cancelled, false)
    ));
    let other = BarrierDecisionMessage::Exact {
        barrier_id: BarrierId::new("b", 2),
        decision: BarrierDecision::Approve,
    };
    assert!(matches!(
        end_wait(WaitEvent::Message(Some(other)), &id, &mut cache),
        (BarrierOutcome::Cancelled, false)
    ));
    let all = BarrierDecisionMessage::Wildcard {
        node_id: "b".to_string(),
        decision: BarrierDecision::Approve,
    };
    assert!(matches!(
        end_wait(WaitEvent::Message(Some(all)), &id, &mut cache),
        (BarrierOutcome::Decision(BarrierDecision::Approve), false)
    ));
    assert!(cached_decision(&cache, &BarrierId::new("b", 9)).is_some());
    let mock = MockBarrierSink::new(BarrierDecision::Approve);
    assert!(matches!(
        mock.outcome(&id, None),
        BarrierOutcome::Decision(BarrierDecision::Approve)
    ));
    assert!(matches!(
        NoopBarrierSink.outcome(&id, Some(Duration::from_secs(1))),
        BarrierOutcome::Decision(BarrierDecision::Approve) | BarrierOutcome::TimedOut | BarrierOutcome::Cancelled
    ));
}

#[test]
fn parallel_branches_are_merged_in_order() {
    let node = ParallelNode::builder::<u8>()
        .label("p")
        .branch("x", 1)
        .branch("y", 2)
        .build();
    assert_eq!(node.branch_count(), 2);
    assert_eq!(node.branch_names(), vec!["x", "y"]);
    assert_eq!(node.label(), Some("p"));
    let mut one = State::new();
    one.insert("k".to_string(), num(1));
    let mut two = State::new();
    two.insert("k".to_string(), num(2));
    let end = node.conclude(vec![("x".to_string(), Ok(one)), ("y".to_string(), Ok(two))]);
    assert!(end.result.is_ok());
    assert_eq!(end.state.unwrap().get_u64("k"), Some(2));
}

#[test]
fn a_failed_branch_ends_the_node() {
    let node = ParallelNode::builder::<u8>()
        .branch("x", 1)
        .branch("y", 2)
        .error_strategy(ParallelErrorStrategy::FailFast)
        .build();
    let results: Vec<(String, Result<State, String>)> = vec![
        ("x".to_string(), Ok(State::new())),
        ("y".to_string(), Err("bad".to_string())),
    ];
    let end = node.conclude(results);
    assert!(end.state.is_none());
    assert!(matches!(
        end.result,
        Err(GraphError::Terminal(TerminalError::NodeExecutionFailed { node, source }))
            if node == "parallel/y" && source == "bad"
    ));
}

#[test]
fn collected_failures_keep_the_other_branches() {
    let node = ParallelNode::builder::<u8>()
        .branch("x", 1)
        .branch("y", 2)
        .branch("z", 3)
        .error_strategy(ParallelErrorStrategy::CollectAll)
        .build();
    let mut state = State::new();
    state.insert("k".to_string(), num(0));
    let mut one = state.clone();
    one.insert("k".to_string(), num(1));
    let mut three = state.clone();
    three.insert("k".to_string(), num(3));
    let mut ending = engine(&mut state);
    let r = node.finish(
        &mut ending,
        vec![
            ("x".to_string(), Ok(one)),
            ("y".to_string(), Err("bad".to_string())),
            ("z".to_string(), Ok(three)),
        ],
    );
    assert!(matches!(
        r,
        Err(GraphError::Terminal(TerminalError::NodeExecutionFailed { node, source }))
            if node == "parallel/y" && source == "bad"
    ));
    assert_eq!(state.get_u64("k"), Some(3));
}

#[test]
fn a_node_whose_branches_all_fail_keeps_the_state() {
    let node = ParallelNode::builder::<u8>()
        .branch("x", 1)
        .error_strategy(ParallelErrorStrategy::CollectAll)
        .build();
    let end = node.conclude::<State>(vec![("x".to_string(), Err("bad".to_string()))]);
    assert!(end.state.is_none());
    assert!(end.result.is_err());
}

#[test]
fn a_branch_ends_with_its_own_state() {
    let mut child: OwnedExecutionEngine<State, NoopSink, ()> =
        OwnedExecutionEngine::new(State::new(), None, CancellationToken::new());
    {
        let mut ctx = child.build_node_context();
        ctx.record(StateMutation::Put("k".to_string(), num(1)));
    }
    let state = conclude_branch(child, true).ok().unwrap();
    assert_eq!(state.get_u64("k"), Some(1));
    let failed: OwnedExecutionEngine<State, NoopSink, ()> =
        OwnedExecutionEngine::new(State::new(), None, CancellationToken::new());
    assert!(conclude_branch(failed, false).is_err());
}

#[test]
fn a_context_sees_that_the_run_was_cancelled() {
    let token = CancellationToken::new();
    let mut state = State::new();
    let mut engine: Engine<'_> = ExecutionEngine::new(&mut state, None, token.clone(), None);
    assert!(!engine.build_leaf_context().is_cancelled());
    token.cancel();
    assert!(engine.build_leaf_context().is_cancelled());
    assert!(engine.build_node_context().is_cancelled());
}

struct Recorder {
    seen: Mutex<usize>,
}

impl StreamSink for Recorder {
    fn emit(&self, _chunk: StreamChunk) {
        *self.seen.lock().unwrap() += 1;
    }
}

#[test]
fn chunks_go_to_the_sink() {
    let sink = sink_arc(Recorder { seen: Mutex::new(0) });
    let mut state = State::new();
    let mut engine: ExecutionEngine<'_, State, Recorder, NoopCheckpointSink, ()> =
        ExecutionEngine::new(&mut state, Some(sink.clone()), CancellationToken::new(), None);
    engine
        .build_leaf_context()
        .emit(StreamChunk::TextDelta("t".to_string()));
    assert_eq!(*sink.seen.lock().unwrap(), 1);
    let again = engine.stream_sink().unwrap();
    assert!(Arc::ptr_eq(&again, &sink));
}

fn assistant(blocks: Vec<ContentBlock>) -> Message {
    Message::Assistant { content: blocks }
}

fn call(id: &str) -> ContentBlock {
    ContentBlock::ToolCall(ToolCall {
        id: id.to_string(),
        name: "tool".to_string(),
        arguments: Value::Null,
    })
}

fn say(t: &str) -> ContentBlock {
    ContentBlock::Text(t.to_string())
}

/// A list of numbers stands for as many user messages, and a text for one assistant
/// message with two calls.
fn read(v: &Value) -> Option<Vec<Message>> {
    match v {
        Value::Array(items) => Some(
            items
                .iter()
                .map(|i| match i {
                    Value::Null => Message::System { content: Vec::new() },
                    _ => Message::User { content: Vec::new() },
                })
                .collect(),
        ),
        Value::String(_) => Some(vec![assistant(vec![say("t"), call("1"), call("2")])]),
        _ => None,
    }
}

fn write_all(messages: &Vec<Message>) -> Option<Value> {
    Some(num(messages.len() as u64))
}

fn result() -> AgentResult {
    AgentResult {
        response: vec![say("he"), call("1"), say("llo")],
        messages: vec![assistant(Vec::new())],
        iterations: 2,
        tool_calls_executed: 3,
        stop_reason: StopReason::MaxIterationsReached,
    }
}

#[test]
fn an_agent_writes_what_it_has_done() {
    let node = AgentNode::new("agent", ()).with_prefix("p");
    let mut s = State::new();
    assert!(matches!(
        node.execute(Ok(result()), &mut s, &write_all),
        Ok(NextAction::Next)
    ));
    assert_eq!(s.get_str("p.output"), Some("hello"));
    assert_eq!(s.get_u64("p.messages"), Some(1));
    assert_eq!(s.get_u64("p.iterations"), Some(2));
    assert_eq!(s.get_u64("p.tool_calls"), Some(3));
    assert_eq!(s.get_str("p.stop_reason"), Some("MaxIterations"));
    let quiet = AgentNode::new("agent", ())
        .with_write_messages(false)
        .with_write_stats(false);
    let mut s = State::new();
    let mut silent = result();
    silent.response = Vec::new();
    quiet.write_agent_result(&silent, &mut s, &write_all);
    assert!(s.is_empty());
}

#[test]
fn an_agent_ends_with_its_stream() {
    let node = AgentNode::new("agent", ());
    let mut s = State::new();
    assert!(node
        .after_event(AgentEvent::Other(1u8), &mut s, &write_all)
        .is_none());
    match node.after_event(
        AgentEvent::<u8>::LoopError { error: "e".to_string() },
        &mut s,
        &write_all,
    ) {
        Some(Err(GraphError::Terminal(TerminalError::NodeExecutionFailed { node, source }))) => {
            assert_eq!(node, "agent");
            assert_eq!(source, "e");
        }
        _ => unreachable!(),
    }
    assert!(s.is_empty());
    assert!(matches!(
        node.after_event(AgentEvent::<u8>::LoopEnd { result: result() }, &mut s, &write_all),
        Some(Ok(NextAction::Next))
    ));
    assert_eq!(s.get_str("agent.output"), Some("hello"));
    assert_eq!(
        node.stream_closed().to_string(),
        "[terminal] node 'agent' execution failed: agent stream closed without terminal event"
    );
}

#[test]
fn an_agent_begins_with_its_own_messages_or_the_common_ones() {
    let mut s = State::new();
    s.insert("messages".to_string(), Value::Array(vec![num(1), num(2)]));
    assert_eq!(read_messages(&s, &"p".to_string(), &read).len(), 2);
    s.insert("p.messages".to_string(), Value::Array(vec![num(1)]));
    assert_eq!(read_messages(&s, &"p".to_string(), &read).len(), 1);
    s.insert("p.messages".to_string(), Value::Bool(true));
    assert_eq!(read_messages(&s, &"p".to_string(), &read).len(), 2);
}

#[test]
fn reasons_have_short_names() {
    assert_eq!(stop_reason_str(&StopReason::Complete), "Complete");
    assert_eq!(stop_reason_str(&StopReason::Cancelled), "Cancelled");
    assert_eq!(stop_reason_str(&StopReason::OutputBudgetExceeded), "OutputBudget");
    assert_eq!(
        stop_reason_str(&StopReason::ReasoningBudgetExceeded),
        "ReasoningBudget"
    );
}

#[test]
fn a_prompt_takes_the_place_of_other_system_messages() {
    let node = LLMNode::new("llm", ()).with_system_prompt("be brief").with_messages_key("m");
    let mut s = State::new();
    s.insert("m".to_string(), Value::Array(vec![Value::Null, num(1), Value::Null]));
    let sent = node.prepare(&s, &read);
    assert_eq!(sent.len(), 2);
    match &sent[0] {
        Message::System { content } => assert_eq!(text_of(content), "be brief"),
        _ => unreachable!(),
    }
    assert!(matches!(sent[1], Message::User { .. }));
    let plain = LLMNode::new("llm", ());
    assert_eq!(plain.prepare(&s, &read).len(), 0);
}

fn write_count(messages: &Vec<Message>) -> Result<Value, String> {
    if messages.len() > 2 {
        Err("too long".to_string())
    } else {
        Ok(num(messages.len() as u64))
    }
}

#[test]
fn a_reply_is_added_to_the_conversation() {
    let node = LLMNode::new("llm", ());
    let mut s = State::new();
    let user = || Message::User { content: Vec::new() };
    assert!(matches!(
        node.execute(vec![user()], Ok(vec![say("hi")]), &mut s, &write_count),
        Ok(NextAction::Next)
    ));
    assert_eq!(s.get_u64("messages"), Some(2));
    match node.execute(vec![user(), user()], Ok(Vec::new()), &mut s, &write_count) {
        Err(GraphError::Terminal(TerminalError::StateError(m))) => {
            assert_eq!(m, "failed to serialize messages: too long")
        }
        _ => unreachable!(),
    }
    assert!(matches!(
        node.execute(Vec::new(), Err("down".to_string()), &mut s, &write_count),
        Err(GraphError::Terminal(TerminalError::NodeExecutionFailed { .. }))
    ));
    assert_eq!(s.get_u64("messages"), Some(2));
}

fn write_one(m: &Message) -> Result<Value, String> {
    match m {
        Message::ToolResult { is_error: true, .. } => Err("bad result".to_string()),
        Message::ToolResult { tool_call_id, .. } => Ok(Value::String(tool_call_id.clone())),
        _ => unreachable!(),
    }
}

#[test]
fn tools_answer_the_calls_of_the_last_message() {
    let node = ToolNode::all(());
    assert_eq!(node.name, "tools");
    let mut s = State::new();
    assert!(node.pending_calls(&s, &read).is_empty());
    s.insert("messages".to_string(), Value::Array(vec![num(1)]));
    assert!(node.pending_calls(&s, &read).is_empty());
    s.insert("messages".to_string(), Value::String("x".to_string()));
    let calls = node.pending_calls(&s, &read);
    assert_eq!(calls.len(), 2);
    assert_eq!(calls[1].id, "2");
    match tool_message(&calls[0], Ok("out".to_string())) {
        Message::ToolResult { tool_call_id, is_error, content } => {
            assert_eq!(tool_call_id, "1");
            assert!(!is_error);
            assert_eq!(text_of(&content), "out");
        }
        _ => unreachable!(),
    }
    assert_eq!(calls_of(&vec![say("x"), call("9")]).len(), 1);
}

#[test]
fn answers_are_appended_and_nothing_is_rewritten() {
    let node = ToolNode::new("t", ()).with_messages_key("m");
    let calls = calls_of(&vec![call("1"), call("2")]);
    let good = vec![
        tool_message(&calls[0], Ok("a".to_string())),
        tool_message(&calls[1], Ok("b".to_string())),
    ];
    let bad = vec![
        tool_message(&calls[0], Ok("a".to_string())),
        tool_message(&calls[1], Err("b".to_string())),
    ];
    let mut s = State::new();
    match node.append_results(&mut s, &bad, &write_one) {
        Err(GraphError::Terminal(TerminalError::StateError(m))) => {
            assert_eq!(m, "failed to serialize tool results: bad result")
        }
        _ => unreachable!(),
    }
    assert!(s.is_empty());
    assert!(node.append_results(&mut s, &good, &write_one).is_ok());
    match node.append_results(&mut s, &bad, &write_one) {
        Err(GraphError::Terminal(TerminalError::StateError(m))) => {
            assert_eq!(m, "failed to serialize tool result: bad result")
        }
        _ => unreachable!(),
    }
    match s.get("m") {
        Some(Value::Array(items)) => assert_eq!(items.len(), 3),
        _ => unreachable!(),
    }
    s.insert("m".to_string(), num(4));
    assert!(node.append_results(&mut s, &bad, &write_one).is_ok());
    assert_eq!(s.get_u64("m"), Some(4));
}
