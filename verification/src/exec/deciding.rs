//! What is decided at a barrier, by a message or by the end of the time.

use vstd::prelude::*;

use crate::event::{BarrierDecision, Verdict};
use crate::graph::graph_core::Graph;
use crate::graph::node_table;
use crate::node::barrier_node;
use crate::node::barrier_node::BarrierDefaultAction;
use crate::node::barrier_sink::BarrierOutcome;
use crate::node::node::NodeKind;
use crate::json::Json;
use crate::state::state::State;
use crate::state::workflow_state::WorkflowState;

verus! {

/// What happens at a node when no decision comes in time: what the barrier says, and
/// a rejection where the node is none.
pub open spec fn default_action_at<C, X, M>(
    nodes: Seq<(Seq<char>, NodeKind<C, X, M>)>,
    node: Seq<char>,
) -> BarrierDefaultAction {
    if node_table::has_node(nodes, node) {
        match node_table::node_named(nodes, node) {
            NodeKind::Barrier(b) => b.default_action,
            _ => BarrierDefaultAction::Reject,
        }
    } else {
        BarrierDefaultAction::Reject
    }
}

/// What happens at a node when no decision comes in time.
pub fn default_action<C, X, M>(graph: &Graph<NodeKind<C, X, M>, C>, node: &str) -> (action:
    BarrierDefaultAction)
    ensures
        action == default_action_at(graph.nodes@, node@),
{
    match graph.nodes.get(node) {
        Some(kind) => match kind.as_barrier() {
            Some(b) => b.default_action,
            None => BarrierDefaultAction::Reject,
        },
        None => BarrierDefaultAction::Reject,
    }
}

/// What a wait that was not cancelled ends with: the decision that came, or that of
/// the default action, with a reason where it rejects.
pub open spec fn outcome_verdict(
    outcome: BarrierOutcome,
    action: BarrierDefaultAction,
    reason: Seq<char>,
) -> Option<Verdict> {
    match outcome {
        BarrierOutcome::Decision(d) => Some(d@),
        BarrierOutcome::TimedOut => Some(barrier_node::timeout_verdict(action, reason)),
        BarrierOutcome::Cancelled => None,
    }
}

/// The decision with which a wait ends, if it was not cancelled.
pub fn outcome_decision(
    outcome: BarrierOutcome,
    action: &BarrierDefaultAction,
    reason: &str,
) -> (decision: Option<BarrierDecision>)
    ensures
        match decision {
            Some(d) => outcome_verdict(outcome, *action, reason@) == Some(d@),
            None => outcome_verdict(outcome, *action, reason@) is None,
        },
{
    match outcome {
        BarrierOutcome::Decision(d) => Some(d),
        BarrierOutcome::TimedOut => Some(barrier_node::timeout_decision(action, reason)),
        BarrierOutcome::Cancelled => None,
    }
}

/// What a decision makes of the state of a run: a modification shows in it, and
/// nothing else does.
pub open spec fn shown<S: WorkflowState>(before: S, decision: Verdict, after: S) -> bool {
    match decision {
        Verdict::Modify(key, value) => before.modified(key, value, after),
        _ => after == before,
    }
}

/// Makes the modification that a decision asks for, if it does.
pub fn show<S: WorkflowState>(state: &mut S, decision: &BarrierDecision)
    ensures
        shown(*old(state), decision@, *final(state)),
{
    match decision {
        BarrierDecision::Modify { key, value } => {
            state.modify(key.as_str(), value);
        },
        _ => {},
    }
}

/// The node's own word decides what the end of the time means: a barrier that approves or
/// skips approves, and everything else, barrier or not, rejects with the reason given. A
/// decision that came stands, and a cancelled wait decides nothing.
pub proof fn law_waits_decide<C, X, M>(
    nodes: Seq<(Seq<char>, NodeKind<C, X, M>)>,
    i: int,
    outcome: BarrierOutcome,
    reason: Seq<char>,
)
    requires
        node_table::distinct_names(nodes),
        0 <= i < nodes.len(),
    ensures
        outcome matches BarrierOutcome::Decision(d) ==> outcome_verdict(
            outcome,
            default_action_at(nodes, nodes[i].0),
            reason,
        ) == Some(d@),
        outcome is Cancelled ==> outcome_verdict(
            outcome,
            default_action_at(nodes, nodes[i].0),
            reason,
        ) is None,
        outcome is TimedOut ==> outcome_verdict(
            outcome,
            default_action_at(nodes, nodes[i].0),
            reason,
        ) == (if nodes[i].1 is Barrier && !(nodes[i].1->Barrier_0.default_action is Reject) {
            Some(Verdict::Approve)
        } else {
            Some(Verdict::Reject(reason))
        }),
        nodes[i].1 is Barrier ==> default_action_at(nodes, nodes[i].0)
            == nodes[i].1->Barrier_0.default_action,
{
    node_table::law_nodes_are_found(nodes, i, nodes[i].0);
}

/// Of all decisions only a modification changes the state of a run, and it changes it as the
/// state's type says.
pub proof fn law_only_modifications_show<S: WorkflowState>(before: S, decision: Verdict, after: S)
    requires
        shown(before, decision, after),
    ensures
        !(decision is Modify) ==> after == before,
        decision matches Verdict::Modify(key, value) ==> before.modified(key, value, after),
{
}

/// On the dynamic state a modification puts its value under its key and leaves every other
/// key alone.
pub proof fn law_modifications_show(
    before: State,
    key: Seq<char>,
    value: Json,
    after: State,
    other: Seq<char>,
)
    requires
        shown(before, Verdict::Modify(key, value), after),
    ensures
        after@.contains_key(key),
        after@[key] == value,
        other != key ==> after@.contains_key(other) == before@.contains_key(other) && (
        before@.contains_key(other) ==> after@[other] == before@[other]),
{
}

} // verus!
