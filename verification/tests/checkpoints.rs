//! Checkpoints, their sinks, stores, codecs, policies, traces and logs.

use std::sync::Arc;
use std::time::SystemTime;

use lellm_graph::checkpoint::checkpoint_codec::{
    CheckpointCodec, SerdeCheckpointCodec, TypedCheckpointStore,
};
use lellm_graph::checkpoint::checkpoint_data::{
    Checkpoint, CheckpointBlob, CheckpointId, CheckpointStoreError, FrameInfo, MemorySink,
    NodeId, NoopCheckpointSink,
};
use lellm_graph::checkpoint::checkpoint_policy::{
    CheckpointConfig, CheckpointPolicy, RetentionPolicy, TriggerPolicy,
};
use lellm_graph::checkpoint::mutation_log::{
    mutations_to_log_entries, InMemoryMutationLog, MutationLogEntry,
};
use lellm_graph::checkpoint::store::{InMemoryBlobStore, InMemoryCheckpointStore};
use lellm_graph::checkpoint::trace::{ExecutionTrace, MemoryTraceSink, TraceSink, TraceStep};
use lellm_graph::exec::execution_engine::ExecutionEngine;
use lellm_graph::exec::inline_run::{InlineNext, InlineRun, NoopStepCallback};
use lellm_graph::graph::graph_builder::GraphBuilder;
use lellm_graph::graph::graph_core::Graph;
use lellm_graph::ids::TraceId;
use lellm_graph::json::{Number, Value};
use lellm_graph::node::node::{NodeKind, TaskNode};
use lellm_graph::state::state::{State, StateMerge};
use lellm_graph::stream::NoopSink;
use lellm_graph::time::Duration;
use tokio_util::sync::CancellationToken;

type Condition = fn(&State) -> bool;
type Task = fn(&State) -> Result<(), String>;
type Kind = NodeKind<Condition, Task, StateMerge>;

fn nothing(_: &State) -> Result<(), String> {
    Ok(())
}

fn task(name: &str) -> Kind {
    NodeKind::Task(TaskNode::new(name, nothing as Task))
}

fn run_inline<K: lellm_graph::checkpoint::checkpoint_data::CheckpointSink<State>>(
    graph: &Graph<Kind, Condition>,
    engine: &mut ExecutionEngine<'_, State, NoopSink, K, ()>,
    max_steps: usize,
) {
    let mut run = InlineRun::new(graph, max_steps);
    let mut callback = NoopStepCallback;
    loop {
        match run.enter(graph).ok().unwrap() {
            NodeKind::Task(n) => (n.func)(engine.state()).unwrap(),
            _ => unreachable!(),
        }
        match run
            .after_node(graph, engine, &mut callback, Duration::from_millis(1))
            .ok()
            .unwrap()
        {
            InlineNext::Enter => {}
            InlineNext::Done => return,
            InlineNext::Wait { .. } => unreachable!(),
        }
    }
}

#[test]
fn test_auto_checkpoint_via_memory_sink() {
    let mut builder: GraphBuilder<Kind, Condition> = GraphBuilder::new("test");
    builder.start("a");
    builder.node("a", task("a"));
    builder.node("b", task("b"));
    builder.end("b");
    builder.edge("a", "b");
    let graph = Arc::new(builder.build().ok().unwrap());

    let mut sink = MemorySink::<State>::new();
    let mut state = State::new();
    {
        let mut engine: ExecutionEngine<'_, State, NoopSink, MemorySink<State>, ()> =
            ExecutionEngine::new(&mut state, None, CancellationToken::new(), Some(&mut sink));
        run_inline(&graph, &mut engine, 100);
    }

    assert_eq!(sink.frames.len(), 2);
    assert_eq!(sink.frames[0].node_id, "a");
    assert_eq!(sink.frames[1].node_id, "b");
    assert_eq!(sink.frames[0].cursor, 1);
    assert_eq!(sink.frames[1].cursor, 2);
}

#[test]
fn test_noop_checkpoint_sink() {
    let mut builder: GraphBuilder<Kind, Condition> = GraphBuilder::new("test");
    builder.start("a");
    builder.node("a", task("a"));
    builder.end("a");
    let graph = Arc::new(builder.build().ok().unwrap());

    let mut sink = NoopCheckpointSink;
    let mut state = State::new();
    let mut engine: ExecutionEngine<'_, State, NoopSink, NoopCheckpointSink, ()> =
        ExecutionEngine::new(&mut state, None, CancellationToken::new(), Some(&mut sink));
    run_inline(&graph, &mut engine, 100);
}

#[test]
fn test_frame_info_minimal() {
    let info = FrameInfo::new("test_node", 42);
    assert_eq!(info.node_id, "test_node");
    assert_eq!(info.step, 42);
}

#[test]
fn a_checkpoint_gives_the_state_back() {
    let mut state = State::new();
    state.insert("k".to_string(), Value::String("v".to_string()));
    let cp = Checkpoint::new("node", &state, 9);
    assert_eq!(cp.current_node.to_string(), "node");
    assert_eq!(cp.graph_hash, 9);
    assert_eq!(cp.restore_state().get_str("k"), Some("v"));
}

#[test]
fn identifiers_are_random_and_read_as_uuids() {
    let a = CheckpointId::random();
    let b = CheckpointId::random();
    assert_ne!(a, b);
    assert_eq!(
        CheckpointId(0x0123_4567_89ab_cdef_0123_4567_89ab_cdef).to_string(),
        "01234567-89ab-cdef-0123-456789abcdef"
    );
    assert_eq!((a.0 >> 76) & 0xf, 4);
    assert_eq!((a.0 >> 62) & 0x3, 2);
}

#[test]
fn store_errors_have_their_texts() {
    let id = CheckpointId(1);
    assert_eq!(
        CheckpointStoreError::Storage("x".to_string()).to_string(),
        "storage error: x"
    );
    assert_eq!(
        CheckpointStoreError::NotFound(id).to_string(),
        "checkpoint not found: 00000000-0000-0000-0000-000000000001"
    );
    assert_eq!(
        CheckpointStoreError::Corrupted("x".to_string()).to_string(),
        "corrupted checkpoint: x"
    );
    assert_eq!(
        CheckpointStoreError::Serialization("x".to_string()).to_string(),
        "serialization error: x"
    );
    assert_eq!(
        CheckpointStoreError::GraphMismatch { expected: 255, actual: 16 }.to_string(),
        "graph mismatch: expected hash 0x00000000000000ff, got 0x0000000000000010"
    );
}

fn blob(id: u128, byte: u8, hash: u64) -> CheckpointBlob {
    CheckpointBlob::new(CheckpointId(id), vec![byte], hash, SystemTime::now())
}

#[test]
fn what_was_filed_is_found() {
    let mut store = InMemoryBlobStore::new();
    assert!(store.is_empty());
    let run = TraceId(1);
    store.save_with_trace(&run, &blob(10, 1, 0));
    store.save_with_trace(&run, &blob(11, 2, 0));
    store.save_with_trace(&TraceId(2), &blob(12, 3, 0));
    assert_eq!(store.len(), 3);
    assert_eq!(store.load(&CheckpointId(10)).unwrap().data, vec![1]);
    assert_eq!(store.load_latest(&run).unwrap().data, vec![2]);
    assert_eq!(store.list(&run), vec![CheckpointId(11), CheckpointId(10)]);
    assert!(store.load(&CheckpointId(99)).is_none());
    assert!(store.load_latest(&TraceId(3)).is_none());
    assert!(store.list(&TraceId(3)).is_empty());
}

#[test]
fn what_was_deleted_is_forgotten() {
    let mut store = InMemoryBlobStore::new();
    let run = TraceId(1);
    store.save_with_trace(&run, &blob(10, 1, 0));
    store.save_with_trace(&run, &blob(11, 2, 0));
    assert!(store.delete(&CheckpointId(11)));
    assert!(!store.delete(&CheckpointId(11)));
    assert_eq!(store.load_latest(&run).unwrap().data, vec![1]);
    assert_eq!(store.list(&run), vec![CheckpointId(10)]);
    assert!(store.delete(&CheckpointId(10)));
    assert!(store.load_latest(&run).is_none());
    assert!(store.list(&run).is_empty());
}

#[test]
fn pruning_keeps_the_newest() {
    let mut store = InMemoryBlobStore::new();
    let run = TraceId(1);
    for i in 0..5u8 {
        store.save_with_trace(&run, &blob(10 + i as u128, i, 0));
    }
    store.save_with_trace(&TraceId(2), &blob(50, 9, 0));
    assert_eq!(store.prune(&run, 2), 3);
    assert_eq!(store.list(&run), vec![CheckpointId(14), CheckpointId(13)]);
    assert_eq!(store.load_latest(&run).unwrap().data, vec![4]);
    assert!(store.load(&CheckpointId(12)).is_none());
    assert_eq!(store.load_latest(&TraceId(2)).unwrap().data, vec![9]);
    assert_eq!(store.prune(&run, 2), 0);
    assert_eq!(store.prune(&TraceId(7), 0), 0);
    assert_eq!(store.len(), 3);
}

#[test]
fn pruning_keeps_what_a_run_still_names() {
    let mut store = InMemoryBlobStore::new();
    let run = TraceId(1);
    store.save_with_trace(&run, &blob(10, 1, 0));
    store.save_with_trace(&run, &blob(10, 2, 0));
    assert_eq!(store.prune(&run, 1), 1);
    assert_eq!(store.list(&run), vec![CheckpointId(10)]);
    assert_eq!(store.load_latest(&run).unwrap().data, vec![2]);
    store.save_with_trace(&TraceId(2), &blob(10, 3, 0));
    assert_eq!(store.prune(&run, 0), 1);
    assert!(store.list(&run).is_empty());
    assert_eq!(store.load_latest(&TraceId(2)).unwrap().data, vec![3]);
}

#[test]
fn the_store_of_values_tells_whether_it_deleted() {
    let mut store: InMemoryCheckpointStore<State> = InMemoryCheckpointStore::new();
    let cp = Checkpoint::new("n", &State::new(), 3);
    store.save_with_trace(&TraceId(1), &cp);
    assert_eq!(store.len(), 1);
    assert_eq!(store.load(&cp.checkpoint_id).unwrap().graph_hash, 3);
    assert_eq!(store.load_latest(&TraceId(1)).unwrap().current_node.0, "n");
    assert_eq!(store.list(&TraceId(1)), vec![cp.checkpoint_id]);
    assert!(store.delete(&cp.checkpoint_id));
    assert!(!store.delete(&cp.checkpoint_id));
    assert!(store.is_empty());
    assert_eq!(store.prune(&TraceId(1), 0), 0);
}

fn encode(cp: &Checkpoint<State>) -> Result<Vec<u8>, String> {
    if cp.current_node.0 == "bad" {
        Err("cannot write".to_string())
    } else {
        Ok(cp.current_node.0.clone().into_bytes())
    }
}

fn decode(data: &Vec<u8>) -> Result<Checkpoint<State>, String> {
    match String::from_utf8(data.clone()) {
        Ok(name) => Ok(Checkpoint::new(&name, &State::new(), 0)),
        Err(_) => Err("cannot read".to_string()),
    }
}

#[test]
fn blobs_are_bound_to_their_graph() {
    let codec = SerdeCheckpointCodec::new(encode, decode);
    let cp = Checkpoint::new("n", &State::new(), 3);
    let written = codec.serialize(&cp, 7).ok().unwrap();
    assert_eq!(written.data, b"n".to_vec());
    assert_eq!(written.id, cp.checkpoint_id);
    assert_eq!(written.graph_hash, 7);
    assert_eq!(written.created_at, cp.created_at);
    let read: Result<Checkpoint<State>, _> = codec.deserialize(&written, 7);
    assert_eq!(read.ok().unwrap().current_node.0, "n");
    let refused: Result<Checkpoint<State>, _> = codec.deserialize(&written, 8);
    assert!(matches!(
        refused,
        Err(CheckpointStoreError::GraphMismatch { expected: 8, actual: 7 })
    ));
    let broken: Result<Checkpoint<State>, _> = codec.deserialize(&blob(1, 0xff, 7), 7);
    match broken {
        Err(CheckpointStoreError::Corrupted(m)) => assert_eq!(m, "cannot read"),
        _ => unreachable!(),
    }
    let bad = Checkpoint::new("bad", &State::new(), 3);
    match codec.serialize(&bad, 7) {
        Err(CheckpointStoreError::Serialization(m)) => assert_eq!(m, "cannot write"),
        _ => unreachable!(),
    }
}

#[test]
fn typed_checkpoints_go_through_the_store() {
    let mut store = InMemoryBlobStore::new();
    let typed = TypedCheckpointStore::new(SerdeCheckpointCodec::new(encode, decode));
    let run = TraceId(4);
    let cp = Checkpoint::new("n", &State::new(), 3);
    assert!(typed.save_with_trace(&mut store, &run, &cp, 7).is_ok());
    let found: Option<Checkpoint<State>> = typed.load(&store, &cp.checkpoint_id, 7).ok().unwrap();
    assert_eq!(found.unwrap().current_node.0, "n");
    let latest: Option<Checkpoint<State>> = typed.load_latest(&store, &run, 7).ok().unwrap();
    assert_eq!(latest.unwrap().current_node.0, "n");
    let none: Option<Checkpoint<State>> = typed.load_latest(&store, &TraceId(5), 7).ok().unwrap();
    assert!(none.is_none());
    let wrong: Result<Option<Checkpoint<State>>, _> = typed.load_latest(&store, &run, 6);
    assert!(matches!(wrong, Err(CheckpointStoreError::GraphMismatch { .. })));
    let bad = Checkpoint::new("bad", &State::new(), 3);
    assert!(typed.save_with_trace(&mut store, &run, &bad, 7).is_err());
    assert_eq!(store.len(), 1);
    let passed: Result<Option<Checkpoint<State>>, _> =
        typed.open(Err(CheckpointStoreError::Storage("x".to_string())), 7);
    assert!(matches!(passed, Err(CheckpointStoreError::Storage(_))));
}

#[test]
fn policies_say_when_and_how_many() {
    let config: CheckpointConfig<(), InMemoryBlobStore> = CheckpointConfig::new((), 5);
    assert!(config.should_save(false, false));
    let config = config.with_trigger(TriggerPolicy::BarrierOnly);
    assert!(config.should_save(false, true));
    assert!(!config.should_save(true, false));
    let config = config.with_trigger(TriggerPolicy::OnMutation);
    assert!(config.should_save(true, false));
    assert!(!config.should_save(false, true));
    let config = config.with_policy(CheckpointPolicy::Manual);
    assert!(!config.should_save(true, true));
    assert_eq!(config.prune_to(), None);
    let config = config.with_retention(RetentionPolicy::KeepLatest(1));
    assert_eq!(config.prune_to(), None);
    let mut store = InMemoryBlobStore::new();
    store.save_with_trace(&TraceId(1), &blob(10, 1, 0));
    store.save_with_trace(&TraceId(1), &blob(11, 2, 0));
    let mut config = config.with_store(store);
    assert_eq!(config.prune_to(), Some(1));
    assert_eq!(config.apply_retention(&TraceId(1)), 1);
    assert_eq!(config.apply_retention(&TraceId(1)), 0);
    assert_eq!(config.store.as_ref().unwrap().len(), 1);
    let mut all = config.with_retention(RetentionPolicy::KeepAll);
    assert_eq!(all.apply_retention(&TraceId(1)), 0);
}

#[test]
fn a_trace_forgets_the_oldest_steps() {
    let mut sink: MemoryTraceSink<u8> = MemoryTraceSink::with_max_steps(2);
    for i in 1..4usize {
        sink.record_step(TraceStep {
            step: i,
            node_id: NodeId(format!("n{}", i)),
            mutations: vec![i as u8],
        });
    }
    let trace: ExecutionTrace<u8> = sink.into_trace();
    assert_eq!(trace.len(), 2);
    assert_eq!(trace.steps[0].step, 2);
    let written = trace.export(&|e: &u8| {
        if *e == 2 {
            None
        } else {
            Some(Value::Number(Number::PosInt(*e as u64)))
        }
    });
    assert_eq!(written.steps.len(), 2);
    assert!(written.steps[0].mutations.is_empty());
    assert_eq!(written.steps[1].node_id, "n3");
    assert!(matches!(
        written.steps[1].mutations[0],
        Value::Number(Number::PosInt(3))
    ));
}

fn entry(run: u128, step: usize, place: usize) -> MutationLogEntry {
    MutationLogEntry::new(
        TraceId(run),
        step,
        NodeId("n".to_string()),
        None,
        place,
        Value::Bool(true),
    )
}

#[test]
fn the_log_replays_what_was_appended() {
    let mut log = InMemoryMutationLog::new();
    assert!(log.is_empty());
    log.append(entry(1, 1, 0));
    log.append_batch(vec![entry(1, 2, 0), entry(2, 5, 0), entry(1, 2, 1)]);
    assert_eq!(log.len(), 4);
    let later = log.replay(&TraceId(1), 2);
    assert_eq!(later.len(), 2);
    assert_eq!(later[1].mutation_index, 1);
    assert!(log.replay(&TraceId(9), 0).is_empty());
    assert_eq!(log.truncate(&TraceId(1), 2), 1);
    assert_eq!(log.replay(&TraceId(1), 2).len(), 2);
    assert_eq!(log.replay(&TraceId(1), 0).len(), 2);
    assert_eq!(log.truncate(&TraceId(9), 1), 0);
    assert_eq!(log.replay(&TraceId(2), 0).len(), 1);
    assert_eq!(log.len(), 3);
}

#[test]
fn entries_keep_the_places_of_their_changes() {
    let entries = mutations_to_log_entries(
        TraceId(1),
        3,
        NodeId("n".to_string()),
        Some(CheckpointId(8)),
        &vec![1u8, 2, 3],
        &|e: &u8| {
            if *e == 2 {
                None
            } else {
                Some(Value::Number(Number::PosInt(*e as u64)))
            }
        },
    );
    assert_eq!(entries.len(), 2);
    assert_eq!(entries[0].mutation_index, 0);
    assert_eq!(entries[1].mutation_index, 2);
    assert_eq!(entries[1].step, 3);
    assert_eq!(entries[1].node_id.0, "n");
    assert_eq!(entries[1].checkpoint_id, Some(CheckpointId(8)));
}
