//! Lenses and graphs within graphs.

use lellm_graph::graph::graph_builder::GraphBuilder;
use lellm_graph::node::subgraph_spec::SubgraphSpec;
use lellm_graph::state::state::State;
use lellm_graph::state::state_lens::{IdentityLens, StateLens};

#[derive(Debug, PartialEq)]
struct OuterState {
    inner: InnerState,
    other: String,
}

#[derive(Debug, PartialEq)]
struct InnerState {
    value: i32,
}

struct TestLens;

impl StateLens<OuterState, InnerState> for TestLens {
    fn get<'a>(&self, outer: &'a mut OuterState) -> &'a mut InnerState {
        &mut outer.inner
    }
}

#[test]
fn test_state_lens_projection() {
    let mut outer = OuterState { inner: InnerState { value: 42 }, other: "test".to_string() };
    let lens = TestLens;
    let inner = lens.get(&mut outer);
    inner.value = 100;
    assert_eq!(outer.inner.value, 100);
    assert_eq!(outer.other, "test");
}

#[test]
fn test_identity_lens() {
    let mut state = InnerState { value: 42 };
    let lens = IdentityLens::new();
    let inner = lens.get(&mut state);
    inner.value = 100;
    assert_eq!(state.value, 100);
}

#[test]
fn test_subgraph_spec_projection() {
    let mut outer = OuterState { inner: InnerState { value: 42 }, other: "test".to_string() };
    let lens = TestLens;
    let inner = lens.get(&mut outer);
    inner.value = 100;
    assert_eq!(outer.inner.value, 100);
}

#[test]
fn an_inner_graph_knows_its_name_and_size() {
    let mut builder: GraphBuilder<(), fn(&State) -> bool> = GraphBuilder::new("inner");
    builder.start("a");
    builder.end("b");
    builder.node("a", ());
    builder.node("b", ());
    builder.edge("a", "b");
    let spec: SubgraphSpec<OuterState, InnerState, (), fn(&State) -> bool, TestLens> =
        SubgraphSpec::new(builder.build().ok().unwrap(), TestLens).max_steps(5);
    let mut outer = OuterState { inner: InnerState { value: 1 }, other: String::new() };
    spec.project(&mut outer).value = 2;
    assert_eq!(outer.inner.value, 2);
    let ready = spec.compile();
    assert_eq!(ready.max_steps, 5);
    assert_eq!(ready.graph_name(), "inner");
    assert_eq!(ready.node_count(), 2);
}
