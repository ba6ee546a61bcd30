//! Sessions: what is kept, what is shared, what is handed out.

use std::sync::Arc;

use lellm_graph::checkpoint::checkpoint_data::Frame;
use lellm_graph::exec::session::{ExecutionSession, SessionCheckpoint, SessionError};
use lellm_graph::graph::graph_builder::GraphBuilder;
use lellm_graph::graph::graph_core::Graph;
use lellm_graph::json::Value;
use lellm_graph::node::node::{NodeKind, TaskNode};
use lellm_graph::state::state::{State, StateMerge};

type Condition = fn(&State) -> bool;
type Task = fn(&State) -> Result<(), String>;
type Kind = NodeKind<Condition, Task, StateMerge>;

fn nothing(_: &State) -> Result<(), String> {
    Ok(())
}

fn single() -> Arc<Graph<Kind, Condition>> {
    let mut builder: GraphBuilder<Kind, Condition> = GraphBuilder::new("test");
    builder.start("a");
    builder.node("a", NodeKind::Task(TaskNode::new("a", nothing as Task)));
    builder.end("a");
    Arc::new(builder.build().ok().unwrap())
}

#[test]
fn test_session_checkpoint_roundtrip() {
    let graph = single();
    let state = State::new();
    let mut session = ExecutionSession::new(state, graph.clone());
    session
        .state_mut()
        .insert("key".to_string(), Value::String("value".to_string()));

    let checkpoint = session.checkpoint();
    assert!(checkpoint.state.contains("key"));

    let restored_session = ExecutionSession::restore(checkpoint, graph).ok().unwrap();
    assert!(restored_session.state().contains("key"));
}

#[test]
fn test_session_into_parts() {
    let graph = single();
    let state = State::new();
    let session = ExecutionSession::new(state, graph);
    let (_state, frame_stack) = session.into_parts();
    assert!(frame_stack.is_empty());
}

#[test]
fn test_session_graph_sharing() {
    let graph = single();
    let _session1 = ExecutionSession::new(State::new(), graph.clone());
    let _session2 = ExecutionSession::new(State::new(), graph.clone());
    assert_eq!(Arc::strong_count(&graph), 3);
}

#[test]
fn the_graph_of_a_session_is_shared_not_copied() {
    let graph = single();
    let session = ExecutionSession::new(State::new(), graph.clone());
    let again = session.graph_arc();
    assert!(Arc::ptr_eq(&again, &graph));
    assert_eq!(session.graph().name(), "test");
    assert_eq!(Arc::strong_count(&graph), 3);
}

#[test]
fn frames_survive_a_roundtrip() {
    let graph = single();
    let mut session = ExecutionSession::new(State::new(), graph.clone());
    let mut inner = State::new();
    inner.insert("n".to_string(), Value::Bool(true));
    session
        .frame_stack_mut()
        .push(Frame::new("g".to_string(), "a".to_string(), &inner, 7));
    let kept = session.checkpoint();
    assert_eq!(kept.graph_hash, graph.canonical_hash());
    let back = ExecutionSession::restore(kept, graph).ok().unwrap();
    assert_eq!(back.frame_stack().depth(), 1);
    let frame = back.frame_stack().current().unwrap();
    assert_eq!(frame.graph_id, "g");
    assert_eq!(frame.node_id, "a");
    assert_eq!(frame.cursor, 7);
    assert_eq!(frame.state.get_bool("n"), Some(true));
}

#[test]
fn a_checkpoint_of_another_graph_is_refused() {
    let graph = single();
    let hash = graph.canonical_hash();
    let kept: SessionCheckpoint<State> = SessionCheckpoint {
        state: State::new(),
        frames: lellm_graph::checkpoint::checkpoint_data::FrameStack::new(),
        graph_hash: hash.wrapping_add(1),
    };
    let refused = ExecutionSession::restore(kept, graph).err().unwrap();
    assert_eq!(
        refused,
        SessionError::GraphMismatch { expected: hash.wrapping_add(1), actual: hash }
    );
    assert_eq!(
        SessionError::GraphMismatch { expected: 255, actual: 1 }.to_string(),
        "graph mismatch: expected hash 0x00000000000000ff, got 0x0000000000000001"
    );
}

#[test]
fn the_state_of_a_session_can_be_taken() {
    let graph = single();
    let mut state = State::new();
    state.insert("k".to_string(), Value::Bool(true));
    let session = ExecutionSession::new(state, graph);
    assert_eq!(session.into_state().get_bool("k"), Some(true));
}
