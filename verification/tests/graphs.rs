//! Graphs: building, routing, fingerprints, analysis, errors.

use lellm_graph::error::{
    BuildError, BuildErrors, ConditionEval, DiagnosticCategory, DiagnosticSeverity, GraphError,
    ObservedError, TerminalError,
};
use lellm_graph::exec::executor::find_next_node;
use lellm_graph::graph::cycles::find_all_cycles;
use lellm_graph::graph::graph_builder::GraphBuilder;
use lellm_graph::graph::graph_core::Graph;
use lellm_graph::graph::hash::fnv_hash;
use lellm_graph::json::Value;
use lellm_graph::state::state::State;
use lellm_graph::time::Duration;

type Condition = fn(&State) -> bool;
type Plain = GraphBuilder<u8, Condition>;

fn yes(_: &State) -> bool {
    true
}

fn no(_: &State) -> bool {
    false
}

fn has_k(s: &State) -> bool {
    s.contains("k")
}

fn line(names: &[&str]) -> Plain {
    let mut b: Plain = GraphBuilder::new("g");
    for n in names {
        b.node(n, 0);
    }
    for i in 1..names.len() {
        b.edge(names[i - 1], names[i]);
    }
    b.start(names[0]);
    b.end(names[names.len() - 1]);
    b
}

fn built(b: Plain) -> Graph<u8, Condition> {
    b.build().ok().unwrap()
}

#[test]
fn nodes_keep_the_order_of_their_adding() {
    let g = built(line(&["c", "a", "b"]));
    assert_eq!(g.node_names(), vec!["c", "a", "b"]);
    assert_eq!(g.node_map().get("a"), Some(&0));
    assert_eq!(g.name(), "g");
    assert_eq!(g.start_node(), "c");
    assert_eq!(g.end_node(), "b");
}

#[test]
fn a_name_that_is_added_again_is_an_error() {
    let mut b = line(&["c", "a", "b"]);
    b.node("a", 7);
    b.node("c", 8);
    b.node("a", 9);
    b.edge("a", "z");
    assert_eq!(b.nodes.get("a"), Some(&9));
    match b.build() {
        Err(errors) => {
            let texts: Vec<String> = errors.iter().map(|e| e.to_string()).collect();
            assert_eq!(
                texts,
                vec![
                    "duplicate node id: 'a'",
                    "duplicate node id: 'c'",
                    "duplicate node id: 'a'",
                    "edge references non-existent node: 'z' (in a→z)",
                ]
            );
        }
        Ok(_) => unreachable!(),
    }
    let mut b: Plain = GraphBuilder::new("g");
    b.start("a").end("a").node("a", 1).node("a", 2);
    assert!(matches!(
        b.build(),
        Err(BuildErrors(e)) if matches!(&e[..], [BuildError::DuplicateNode { id }] if id == "a")
    ));
}

#[test]
fn a_graph_needs_both_ends() {
    let b: Plain = GraphBuilder::new("g");
    match b.build() {
        Err(BuildErrors(e)) => assert!(matches!(e[0], BuildError::MissingEntryPoint)),
        Ok(_) => unreachable!(),
    }
    let mut b: Plain = GraphBuilder::new("g");
    b.start("a");
    match b.build() {
        Err(BuildErrors(e)) => assert!(matches!(e[0], BuildError::MissingExitPoint)),
        Ok(_) => unreachable!(),
    }
}

#[test]
fn every_missing_end_of_an_edge_is_named() {
    let mut b = line(&["a", "b"]);
    b.edge("x", "y");
    b.edge("a", "z");
    match b.build() {
        Err(errors) => {
            assert_eq!(errors.len(), 3);
            assert_eq!(
                errors.0[0].to_string(),
                "edge references non-existent node: 'y' (in x→y)"
            );
            assert_eq!(errors.iter().count(), 3);
            assert!(errors.to_string().starts_with("3 error(s):\n  - edge references"));
        }
        Ok(_) => unreachable!(),
    }
}

#[test]
fn a_fallback_to_its_own_node_is_refused() {
    let mut b = line(&["a", "b"]);
    b.edge_fallback("a", "a");
    b.edge_fallback("x", "x");
    match b.build() {
        Err(errors) => {
            assert_eq!(errors.len(), 4);
            assert_eq!(
                errors.0[0].to_string(),
                "invalid fallback for node 'a': fallback edge points to its own node"
            );
            assert!(matches!(errors.0[1], BuildError::MissingNode { .. }));
            assert!(matches!(errors.0[2], BuildError::MissingNode { .. }));
            assert!(
                matches!(&errors.0[3], BuildError::InvalidFallback { node, .. } if node == "x")
            );
        }
        Ok(_) => unreachable!(),
    }
    let mut b = line(&["a", "b"]);
    b.edge("a", "a");
    assert!(b.build().is_ok());
}

#[test]
fn an_end_that_is_no_node_makes_the_graph_invalid() {
    let mut b = line(&["a", "b"]);
    b.end("c");
    match b.build() {
        Err(BuildErrors(e)) => {
            assert_eq!(e.len(), 1);
            match &e[0] {
                BuildError::InvalidEdgeDefinition { from, to, .. } => {
                    assert_eq!(from, "graph");
                    assert_eq!(to, "graph");
                }
                _ => unreachable!(),
            }
        }
        Ok(_) => unreachable!(),
    }
}

#[test]
fn conditions_come_before_plain_edges_and_those_before_fallbacks() {
    let mut b = line(&["a", "b"]);
    b.node("c", 0);
    b.node("d", 0);
    b.edge_fallback("a", "d");
    b.edge_if("a", "c", has_k as Condition);
    let g = built(b);
    let mut s = State::new();
    assert_eq!(find_next_node(&g, "a", &s).ok().unwrap(), "b");
    s.insert("k".to_string(), Value::Null);
    assert_eq!(g.resolve_next_inline("a", &s).ok().unwrap(), "c");
    assert_eq!(g.find_fallback_edge("a").unwrap(), "d");
    assert_eq!(g.edges_from("a").len(), 3);
    assert!(g.find_edge("a", "c").unwrap().is_conditional());
    assert!(g.find_edge("a", "b").unwrap().is_normal());
    assert!(g.find_edge("b", "a").is_none());
}

#[test]
fn the_first_condition_that_holds_wins() {
    let mut b: Plain = GraphBuilder::new("g");
    for n in ["a", "b", "c", "d"] {
        b.node(n, 0);
    }
    b.start("a");
    b.end("d");
    b.edge_if("a", "b", no as Condition);
    b.edge_if("a", "c", yes as Condition);
    b.edge_if("a", "d", yes as Condition);
    let g = built(b);
    assert_eq!(g.resolve_next("a", &State::new()).unwrap(), "c");
}

#[test]
fn a_dead_end_is_no_route() {
    let mut b = line(&["a", "b"]);
    b.node("c", 0);
    let g = built(b);
    match find_next_node(&g, "c", &State::new()) {
        Err(GraphError::Terminal(TerminalError::InvalidGraph(m))) => {
            assert_eq!(m, "node 'c' has no outgoing edges and is not the end node")
        }
        _ => unreachable!(),
    }
    assert!(g.resolve_next_inline("c", &State::new()).is_err());
}

#[test]
fn every_edge_that_was_tried_is_reported() {
    let mut b: Plain = GraphBuilder::new("g");
    b.node("a", 0);
    b.node("b", 0);
    b.start("a");
    b.end("b");
    b.edge_if("a", "b", no as Condition);
    let g = built(b);
    match find_next_node(&g, "a", &State::new()) {
        Err(GraphError::Terminal(TerminalError::Unrouted { node, attempted_conditions })) => {
            assert_eq!(node, "a");
            assert_eq!(attempted_conditions.len(), 1);
            assert_eq!(attempted_conditions[0].edge, "a→b");
            assert_eq!(attempted_conditions[0].condition.as_deref(), Some("condition"));
            assert!(!attempted_conditions[0].matched);
        }
        _ => unreachable!(),
    }
}

#[test]
fn fingerprints_are_fnv_of_the_sorted_structure() {
    assert_eq!(fnv_hash("foobar"), 0x8594_4171_f739_67e8);
    let g = built(line(&["a", "b"]));
    assert_eq!(g.canonical_hash(), 0xc400_a722_dff1_a224);
    assert_eq!(g.hash(), "c400a722dff1a224");
    assert_eq!(g.hash_u64(), g.canonical_hash());
    let mut b: Plain = GraphBuilder::new("other name");
    for n in ["c", "b", "a"] {
        b.node(n, 9);
    }
    b.edge_fallback("a", "c");
    b.edge_if("a", "b", yes as Condition);
    b.start("a");
    b.end("c");
    assert_eq!(built(b).canonical_hash(), 0x0b65_3958_159a_2b3a);
}

#[test]
fn fingerprints_do_not_depend_on_order() {
    let mut one = line(&["a", "b", "c"]);
    one.edge("c", "a");
    let mut two: Plain = GraphBuilder::new("g");
    for n in ["c", "a", "b"] {
        two.node(n, 0);
    }
    two.edge("c", "a");
    two.edge("b", "c");
    two.edge("a", "b");
    two.start("a");
    two.end("c");
    assert_eq!(built(one).hash_u64(), built(two).hash_u64());
}

#[test]
fn a_given_fingerprint_takes_the_place_of_the_structure() {
    let mut b = line(&["a", "b"]);
    b.canonical_hash(5);
    let g = built(b);
    assert_eq!(g.canonical_hash(), 5);
    assert_eq!(g.hash(), "0000000000000005");
    assert_ne!(g.hash_u64(), 5);
}

#[test]
fn every_cycle_is_found_once() {
    let mut b = line(&["a", "b", "c"]);
    b.edge("c", "a");
    b.edge("b", "b");
    let g = built(b);
    assert_eq!(find_all_cycles(&g), vec![vec!["a", "b", "c"], vec!["b"]]);
    let mut b = line(&["a"]);
    b.edge("a", "a");
    let g = built(b);
    assert_eq!(find_all_cycles(&g), vec![vec!["a"]]);
    assert_eq!(g.analyze().warnings[0].message, "cycle detected: a → a");
    assert!(g.analyze_cycles().has_cycles);
}

#[test]
fn limits_on_edges_protect_cycles() {
    let mut b = line(&["a", "b"]);
    b.edge("b", "a").max_visits(3);
    let g = built(b);
    let found = g.analyze_cycles();
    assert!(found.all_protected());
    assert_eq!(
        found.report(),
        "=== Graph Cycle Analysis ===\nFound 1 cycle(s).\nEdge protection: 1/2 edges have analysis set.\n  Cycle 1: a → b → a\n    ✅ Protected by edge-level analysis"
    );
    let diag = g.analyze();
    assert!(!diag.has_warnings());
}

#[test]
fn open_cycles_are_reported() {
    let mut b = line(&["a", "b"]);
    b.edge("b", "a");
    b.node("z", 0);
    let g = built(b);
    let diag = g.analyze();
    assert!(diag.has_warnings());
    assert_eq!(diag.warnings.len(), 1);
    assert_eq!(diag.warnings[0].category, DiagnosticCategory::Cycle);
    assert_eq!(diag.warnings[0].severity, DiagnosticSeverity::Warning);
    assert_eq!(diag.warnings[0].message, "cycle detected: a → b → a");
    let messages: Vec<&str> = diag.infos.iter().map(|d| d.message.as_str()).collect();
    assert!(messages.contains(&"node 'z' is not reachable from start node 'a'"));
    assert!(messages.contains(&"end node 'b' has 1 outgoing edge(s) to: [\"a\"]"));
    assert!(!g.analyze_cycles().all_protected());
}

#[test]
fn a_graph_without_cycles_says_so() {
    let g = built(line(&["a", "b"]));
    assert_eq!(
        g.analyze_cycles().report(),
        "=== Graph Cycle Analysis ===\nNo cycles detected — graph is a DAG."
    );
    assert!(g.analyze().is_empty());
    assert_eq!(g.analyze().to_string(), "no issues found");
}

#[test]
fn a_fallback_within_a_cycle_is_a_risk() {
    let mut b = line(&["a", "b"]);
    b.edge_fallback("b", "a");
    let diag = built(b).analyze();
    assert!(diag
        .warnings
        .iter()
        .any(|d| d.category == DiagnosticCategory::FallbackInCycle
            && d.message == "fallback edge b → a participates in cycle: a → b → a"));
}

#[test]
fn errors_have_their_texts() {
    let t = |e: TerminalError| GraphError::Terminal(e).to_string();
    assert_eq!(
        t(TerminalError::InvalidGraph("x".to_string())),
        "[terminal] invalid graph: x"
    );
    assert_eq!(
        t(TerminalError::NodeNotFound("x".to_string())),
        "[terminal] node not found: x"
    );
    assert_eq!(
        t(TerminalError::MissingEdge { from: "a".to_string(), to: "b".to_string() }),
        "[terminal] goto 'b' from 'a' failed: no edge a→b exists"
    );
    assert_eq!(
        t(TerminalError::NodeExecutionFailed {
            node: "n".to_string(),
            source: "e".to_string()
        }),
        "[terminal] node 'n' execution failed: e"
    );
    assert_eq!(
        t(TerminalError::StepsExceeded { limit: 3 }),
        "[terminal] step limit 3 exceeded (potential infinite loop)"
    );
    assert_eq!(
        t(TerminalError::LoopLimitExceeded { limit: 3 }),
        "[terminal] loop limit exceeded: 3"
    );
    assert_eq!(
        t(TerminalError::BarrierTimeout {
            node: "n".to_string(),
            timeout: Duration::from_millis(1500)
        }),
        "[terminal] barrier 'n' timed out after 1.5s"
    );
    assert_eq!(
        t(TerminalError::BarrierCancelled { node: "n".to_string() }),
        "[terminal] barrier 'n' cancelled: consumer dropped the signal channel"
    );
    assert_eq!(
        t(TerminalError::StateError("x".to_string())),
        "[terminal] state error: x"
    );
    assert_eq!(
        t(TerminalError::Unrouted {
            node: "n".to_string(),
            attempted_conditions: vec![ConditionEval {
                edge: "a→b".to_string(),
                condition: None,
                matched: false,
            }],
        }),
        "[terminal] node 'n' has no matching outgoing edge. evaluated: [a→b=false]"
    );
    assert_eq!(
        t(TerminalError::Unrouted { node: "n".to_string(), attempted_conditions: Vec::new() }),
        "[terminal] node 'n' has no matching outgoing edge"
    );
}

#[test]
fn observed_errors_have_their_texts() {
    assert_eq!(
        ObservedError::Warning { node: "n".to_string(), message: "m".to_string() }.to_string(),
        "node 'n': m"
    );
    assert_eq!(
        ObservedError::Degraded { node: "n".to_string(), message: "m".to_string() }.to_string(),
        "node 'n' degraded: m"
    );
    assert_eq!(
        ObservedError::PartialFailure {
            node: "n".to_string(),
            succeeded: 2,
            failed: 1,
            message: "m".to_string()
        }
        .to_string(),
        "node 'n' partial: 2/3 ok, m"
    );
}

#[test]
fn build_errors_have_their_texts() {
    assert_eq!(
        BuildError::DuplicateNode { id: "a".to_string() }.to_string(),
        "duplicate node id: 'a'"
    );
    assert_eq!(BuildError::MissingEntryPoint.to_string(), "entry point not set");
    assert_eq!(BuildError::MissingExitPoint.to_string(), "exit point not set");
    assert_eq!(
        BuildError::InvalidEdgeDefinition {
            from: "a".to_string(),
            to: "b".to_string(),
            reason: "r".to_string()
        }
        .to_string(),
        "invalid edge a→b: r"
    );
    assert_eq!(
        BuildError::InvalidFallback { node: "a".to_string(), reason: "r".to_string() }.to_string(),
        "invalid fallback for node 'a': r"
    );
    assert_eq!(BuildErrors::new().to_string(), "no errors");
}
