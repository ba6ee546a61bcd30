//! The forms of nodes.

use vstd::prelude::*;

use crate::exec::execution_engine::NextAction;
use crate::node::barrier_node::BarrierNode;
use crate::node::compiled_subgraph::CompiledSubgraph;
use crate::node::node_context::LeafContext;
use crate::node::parallel_node::ParallelNode;
use crate::state::workflow_state::WorkflowState;
use crate::stream::StreamSink;

verus! {

/// A node of a graph. `C` is the type of conditions, `X` that of what runs a node
/// outside this library, `M` the strategy by which parallel branches are merged.
pub enum NodeKind<C, X, M> {
    /// A function.
    Task(TaskNode<X>),
    /// A choice between targets.
    Condition(ConditionNode<C>),
    /// A stop for a decision.
    Barrier(BarrierNode),
    /// Branches that run side by side.
    Parallel(ParallelNode<X, M>),
    /// A node that may replace the state.
    External(X),
    /// A node that may only read the state and record changes.
    ExternalLeaf(X),
    /// A graph within the graph.
    Subgraph(CompiledSubgraph<X>),
}

impl<C, X, M> NodeKind<C, X, M> {
    /// Whether the node is a graph within the graph.
    pub fn is_subgraph(&self) -> (r: bool)
        ensures
            r == (*self is Subgraph),
    {
        match self {
            NodeKind::Subgraph(_) => true,
            _ => false,
        }
    }

    /// The barrier, if the node is one.
    pub fn as_barrier(&self) -> (barrier: Option<&BarrierNode>)
        ensures
            match barrier {
                Some(b) => *self == NodeKind::<C, X, M>::Barrier(*b),
                None => !(*self is Barrier),
            },
    {
        match self {
            NodeKind::Barrier(b) => Some(b),
            _ => None,
        }
    }
}

/// A node that is a function.
pub struct TaskNode<X> {
    pub name: String,
    pub func: X,
}

impl<X> TaskNode<X> {
    /// A node of a name that runs a function.
    pub fn new(name: &str, func: X) -> (n: Self)
        ensures
            n.name@ == name@,
            n.func == func,
    {
        TaskNode { name: name.to_owned(), func }
    }
}

/// A node that chooses where the run goes: to the target of the first branch whose
/// condition holds.
pub struct ConditionNode<C> {
    pub name: String,
    pub branches: Vec<(String, C)>,
}

/// The condition of branch `i` may answer `answer` on a state.
pub open spec fn branch_answers<S, C: Fn(&S) -> bool>(
    branches: Seq<(String, C)>,
    state: &S,
    i: int,
    answer: bool,
) -> bool {
    call_ensures(branches[i].1, (state,), answer)
}

/// Branch `i` is the first whose condition holds.
pub open spec fn first_branch<S, C: Fn(&S) -> bool>(
    branches: Seq<(String, C)>,
    state: &S,
    i: int,
) -> bool {
    &&& 0 <= i < branches.len()
    &&& branch_answers(branches, state, i, true)
    &&& forall|j: int| 0 <= j < i ==> #[trigger] branch_answers(branches, state, j, false)
}

/// No branch has a condition that holds.
pub open spec fn no_branch<S, C: Fn(&S) -> bool>(branches: Seq<(String, C)>, state: &S) -> bool {
    forall|j: int|
        0 <= j < branches.len() ==> #[trigger] branch_answers(branches, state, j, false)
}

impl<C> ConditionNode<C> {
    /// A builder for a node of a name.
    pub fn builder(name: &str) -> (b: ConditionNodeBuilder<C>)
        ensures
            b.name@ == name@,
            b.branches@ == Seq::<(String, C)>::empty(),
    {
        ConditionNodeBuilder { name: name.to_owned(), branches: Vec::new() }
    }

    /// The target of the first branch whose condition holds.
    pub fn pick<S>(&self, state: &S) -> (target: Option<&String>) where C: Fn(&S) -> bool
        requires
            forall|i: int|
                0 <= i < self.branches@.len() ==> call_requires(
                    (#[trigger] self.branches@[i]).1,
                    (state,),
                ),
        ensures
            match target {
                Some(t) => exists|i: int| #[trigger]
                    first_branch(self.branches@, state, i) && *t == self.branches@[i].0,
                None => no_branch(self.branches@, state),
            },
    {
        let mut i: usize = 0;
        while i < self.branches.len()
            invariant
                i <= self.branches@.len(),
                forall|i: int|
                    0 <= i < self.branches@.len() ==> call_requires(
                        (#[trigger] self.branches@[i]).1,
                        (state,),
                    ),
                forall|j: int|
                    0 <= j < i ==> #[trigger] branch_answers(self.branches@, state, j, false),
            decreases self.branches@.len() - i,
        {
            let condition = &self.branches[i].1;
            let holds = condition(state);
            assert(branch_answers(self.branches@, state, i as int, holds));
            if holds {
                assert(first_branch(self.branches@, state, i as int));
                return Some(&self.branches[i].0);
            }
            i += 1;
        }
        None
    }

    /// Asks for a jump to the target of the first branch whose condition holds;
    /// without one, asks for nothing.
    pub fn execute<S: WorkflowState, T: StreamSink, P>(
        &self,
        ctx: &mut LeafContext<'_, S, T, P>,
    ) where C: Fn(&S) -> bool
        requires
            forall|i: int|
                0 <= i < self.branches@.len() ==> call_requires(
                    (#[trigger] self.branches@[i]).1,
                    (old(ctx).state,),
                ),
        ensures
            (exists|i: int| #[trigger]
                first_branch(self.branches@, old(ctx).state, i) && (final(ctx).control.next matches Some(NextAction::Goto(t)) && t@
                    == self.branches@[i].0@)) || (no_branch(self.branches@, old(ctx).state)
                && final(ctx).control.next == old(ctx).control.next),
            final(ctx).control.signal == old(ctx).control.signal,
            *final(final(ctx).control) == *final(old(ctx).control),
            final(ctx).state == old(ctx).state,
            final(ctx).metadata == old(ctx).metadata,
            final(ctx).mutations == old(ctx).mutations,
            final(ctx).flow_events == old(ctx).flow_events,
    {
        let state = ctx.state;
        if let Some(target) = self.pick(state) {
            ctx.goto(target.as_str());
        }
    }
}

/// A condition node under construction.
pub struct ConditionNodeBuilder<C> {
    pub name: String,
    pub branches: Vec<(String, C)>,
}

impl<C> ConditionNodeBuilder<C> {
    /// Adds a branch at the end.
    pub fn branch(self, target: &str, condition: C) -> (b: Self)
        ensures
            b.name == self.name,
            b.branches@.len() == self.branches@.len() + 1,
            b.branches@.drop_last() == self.branches@,
            b.branches@.last().0@ == target@,
            b.branches@.last().1 == condition,
    {
        let mut branches = self.branches;
        branches.push((target.to_owned(), condition));
        assert(branches@.drop_last() =~= self.branches@);
        ConditionNodeBuilder { name: self.name, branches }
    }

    /// The node.
    pub fn build(self) -> (n: ConditionNode<C>)
        ensures
            n.name == self.name,
            n.branches == self.branches,
    {
        ConditionNode { name: self.name, branches: self.branches }
    }
}

/// The first branch whose condition can only hold is the one that is chosen, if every one
/// before it can only fail; and where every condition can only fail none is.
pub proof fn law_first_branch_is_chosen<S, C: Fn(&S) -> bool>(
    branches: Seq<(String, C)>,
    state: &S,
    i: int,
    chosen: int,
)
    requires
        0 <= i < branches.len(),
        forall|b: bool| call_ensures(branches[i].1, (state,), b) ==> b,
        forall|j: int, b: bool|
            0 <= j < i && #[trigger] call_ensures((#[trigger] branches[j]).1, (state,), b) ==> !b,
    ensures
        first_branch(branches, state, chosen) ==> chosen == i,
        !no_branch(branches, state),
{
    if first_branch(branches, state, chosen) {
        if chosen < i {
            assert(call_ensures(branches[chosen].1, (state,), true));
        } else if chosen > i {
            assert(branch_answers(branches, state, i, false));
            assert(call_ensures(branches[i].1, (state,), false));
        }
    }
    if no_branch(branches, state) {
        assert(branch_answers(branches, state, i, false));
        assert(call_ensures(branches[i].1, (state,), false));
    }
}

/// A branch is chosen only if its condition held on the state.
pub proof fn law_chosen_branches_hold<S, C: Fn(&S) -> bool>(
    branches: Seq<(String, C)>,
    state: &S,
    i: int,
)
    ensures
        first_branch(branches, state, i) ==> 0 <= i < branches.len() && call_ensures(
            branches[i].1,
            (state,),
            true,
        ),
        no_branch(branches, state) && 0 <= i < branches.len() ==> call_ensures(
            branches[i].1,
            (state,),
            false,
        ),
{
    if no_branch(branches, state) && 0 <= i < branches.len() {
        assert(branch_answers(branches, state, i, false));
    }
}

} // verus!
