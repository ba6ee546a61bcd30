//! Observers and passes.

use std::sync::atomic::{AtomicUsize, Ordering};
use std::sync::Arc;

use lellm_graph::compiler::context::CompilerContext;
use lellm_graph::compiler::inline_pass::InlinePass;
use lellm_graph::compiler::pass::CompilerPass;
use lellm_graph::graph::graph_builder::GraphBuilder;
use lellm_graph::hook::{AgentHook, NoOpHook};
use lellm_graph::ids::{SpanId, TraceId};
use lellm_graph::node::compiled_subgraph::CompiledSubgraph;
use lellm_graph::node::node::{NodeKind, TaskNode};
use lellm_graph::state::state::{State, StateMerge};
use lellm_graph::time::Duration;

type Condition = fn(&State) -> bool;
type Kind = NodeKind<Condition, u8, StateMerge>;

#[test]
fn test_noop_hook() {
    let hook = NoOpHook;
    hook.on_node_start("test", SpanId::new(), 1);
    hook.on_node_end("test", SpanId::new(), Duration::from_secs(1), true);
    hook.on_graph_start(TraceId::default());
}

#[test]
fn test_custom_hook() {
    struct CountingHook {
        starts: Arc<AtomicUsize>,
        ends: Arc<AtomicUsize>,
    }

    impl AgentHook for CountingHook {
        fn on_node_start(&self, _node_name: &str, _span_id: SpanId, _step: usize) {
            self.starts.fetch_add(1, Ordering::Relaxed);
        }

        fn on_node_end(
            &self,
            _node_name: &str,
            _span_id: SpanId,
            _duration: Duration,
            _success: bool,
        ) {
            self.ends.fetch_add(1, Ordering::Relaxed);
        }
    }

    let starts = Arc::new(AtomicUsize::new(0));
    let ends = Arc::new(AtomicUsize::new(0));
    let hook = CountingHook { starts: starts.clone(), ends: ends.clone() };

    hook.on_node_start("a", SpanId::new(), 1);
    hook.on_node_start("b", SpanId::new(), 2);
    hook.on_node_end("a", SpanId::new(), Duration::from_secs(0), true);

    assert_eq!(starts.load(Ordering::Relaxed), 2);
    assert_eq!(ends.load(Ordering::Relaxed), 1);
}

#[test]
fn test_inline_pass_no_subgraphs() {
    let mut builder: GraphBuilder<Kind, Condition> = GraphBuilder::new("test");
    builder.start("a");
    builder.node("a", NodeKind::Task(TaskNode::new("a", 0)));
    builder.end("a");
    let mut graph = builder.build().ok().unwrap();

    let mut ctx = CompilerContext::new();
    let pass = InlinePass::new();

    let modified = pass.run(&mut graph, &mut ctx);

    assert!(!modified);
    assert_eq!(ctx.stats.subgraph_count, 0);
}

#[test]
fn inner_graphs_are_counted_and_left_alone() {
    let mut builder: GraphBuilder<Kind, Condition> = GraphBuilder::new("test");
    builder.start("a");
    builder.end("b");
    builder.node("a", NodeKind::Task(TaskNode::new("a", 0)));
    builder.subgraph("b", CompiledSubgraph::new(7, 10));
    builder.subgraph("c", CompiledSubgraph::new(8, 10));
    builder.edge("a", "b");
    let mut graph = builder.compile().ok().unwrap();
    let mut ctx = CompilerContext::new().max_inline_size(5).debug(true);
    let pass = InlinePass::new();
    let name = CompilerPass::<Kind, Condition>::name(&pass).to_string();
    assert_eq!(name, "inline");
    assert!(!pass.run(&mut graph, &mut ctx));
    assert!(!pass.run(&mut graph, &mut ctx));
    assert_eq!(ctx.stats.subgraph_count, 2);
    assert_eq!(ctx.stats.not_inlined_count, 4);
    assert_eq!(ctx.stats.inlined_count, 0);
    assert_eq!(ctx.stats.total_nodes_before, 3);
    assert_eq!(ctx.stats.total_nodes_after, 3);
    assert_eq!(ctx.max_inline_size, 5);
    assert!(graph.nodes.get("b").unwrap().is_subgraph());
}
