//! Branches that run side by side, each on its own copy of the state.

use core::marker::PhantomData;
use vstd::prelude::*;

use crate::checkpoint::checkpoint_data::CheckpointSink;
use crate::error::{GraphError, TerminalError};
use crate::exec::execution_engine::ExecutionEngine;
use crate::exec::owned_execution_engine::OwnedExecutionEngine;
use crate::state::state::StateMerge;
use crate::state::workflow_state;
use crate::state::workflow_state::{MergeStrategy, WorkflowError, WorkflowState};
use crate::stream::StreamSink;
use crate::text;

verus! {

/// What is done when a branch fails.
#[derive(Clone, Copy, PartialEq, Eq, Structural, Debug)]
pub enum ParallelErrorStrategy {
    /// The node fails with the first failure, and the other branches count for
    /// nothing.
    FailFast,
    /// The node fails with the first failure, but the state has the changes of the
    /// branches that did not fail.
    CollectAll,
}

impl Default for ParallelErrorStrategy {
    fn default() -> (s: Self)
        ensures
            s == ParallelErrorStrategy::FailFast,
    {
        ParallelErrorStrategy::FailFast
    }
}

/// A node whose branches run side by side. `X` is the type of what runs a branch,
/// `M` the strategy by which the branches' states are merged.
pub struct ParallelNode<X, M> {
    label: Option<String>,
    branches: Vec<(String, X)>,
    error_strategy: ParallelErrorStrategy,
    _merge_strategy: PhantomData<M>,
}

/// The names of branches, in order.
pub open spec fn branch_texts<X>(branches: Seq<(String, X)>) -> Seq<Seq<char>> {
    branches.map_values(|b: (String, X)| b.0@)
}

/// The first branch that failed, if any did. A branch ends with its state, or with
/// the reason why it failed.
pub open spec fn first_failure<S>(results: Seq<(String, Result<S, String>)>) -> Option<int>
    decreases results.len(),
{
    if results.len() == 0 {
        None
    } else {
        match first_failure(results.drop_last()) {
            Some(i) => Some(i),
            None => if results.last().1 is Err {
                Some(results.len() - 1)
            } else {
                None
            },
        }
    }
}

/// The states of the branches that did not fail, in the order of the branches.
pub open spec fn states_left<S>(results: Seq<(String, Result<S, String>)>) -> Seq<S>
    decreases results.len(),
{
    if results.len() == 0 {
        Seq::empty()
    } else {
        match results.last().1 {
            Ok(s) => states_left(results.drop_last()).push(s),
            Err(_) => states_left(results.drop_last()),
        }
    }
}

/// How a parallel node ends.
pub struct ParallelEnd<S> {
    /// The state that takes the place of the one that the branches began with, if
    /// one does.
    pub state: Option<S>,
    /// Whether the node failed.
    pub result: Result<(), GraphError>,
}

impl ParallelNode<(), StateMerge> {
    /// A builder for a node that merges dynamic states key by key.
    pub fn builder<X>() -> (b: ParallelNodeBuilder<X, StateMerge>)
        ensures
            b.name_label() is None,
            b.entries() == Seq::<(String, X)>::empty(),
            b.strategy() == ParallelErrorStrategy::FailFast,
    {
        ParallelNodeBuilder::new()
    }
}

impl<X, M> ParallelNode<X, M> {
    /// There is at least one branch.
    #[verifier::type_invariant]
    spec fn well_formed(self) -> bool {
        self.branches@.len() > 0
    }

    /// The label.
    pub closed spec fn name_label(self) -> Option<String> {
        self.label
    }

    /// The branches.
    pub closed spec fn entries(self) -> Seq<(String, X)> {
        self.branches@
    }

    /// What is done when a branch fails.
    pub closed spec fn strategy(self) -> ParallelErrorStrategy {
        self.error_strategy
    }

    /// The name under which the node appears: its label, or `parallel`.
    pub open spec fn shown_name(self) -> Seq<char> {
        match self.name_label() {
            Some(l) => l@,
            None => "parallel"@,
        }
    }

    /// The node with a label.
    pub fn with_label(self, label: &str) -> (n: Self)
        ensures
            n.name_label() matches Some(l) && l@ == label@,
            n.entries() == self.entries(),
            n.strategy() == self.strategy(),
    {
        proof {
            use_type_invariant(&self);
        }
        ParallelNode {
            label: Some(label.to_owned()),
            branches: self.branches,
            error_strategy: self.error_strategy,
            _merge_strategy: PhantomData,
        }
    }

    /// The number of branches. There is at least one.
    pub fn branch_count(&self) -> (n: usize)
        ensures
            n == self.entries().len(),
            n > 0,
    {
        proof {
            use_type_invariant(self);
        }
        self.branches.len()
    }

    /// The names of the branches, in order.
    pub fn branch_names(&self) -> (names: Vec<String>)
        ensures
            text::texts(names@) == branch_texts(self.entries()),
    {
        let ghost wanted = branch_texts(self.branches@);
        let mut names: Vec<String> = Vec::new();
        let mut i: usize = 0;
        assert(text::texts(names@) =~= wanted.take(0));
        while i < self.branches.len()
            invariant
                i <= self.branches@.len(),
                wanted == branch_texts(self.branches@),
                text::texts(names@) == wanted.take(i as int),
            decreases self.branches@.len() - i,
        {
            let name = self.branches[i].0.clone();
            proof {
                text::lemma_texts_push(names@, name);
                assert(wanted.take(i + 1) =~= wanted.take(i as int).push(name@));
            }
            names.push(name);
            i += 1;
        }
        assert(wanted.take(wanted.len() as int) =~= wanted);
        names
    }

    /// The branches, in order.
    pub fn branches_iter(&self) -> (branches: &Vec<(String, X)>)
        ensures
            branches@ == self.entries(),
    {
        &self.branches
    }

    /// What is done when a branch fails.
    pub fn error_strategy(&self) -> (s: ParallelErrorStrategy)
        ensures
            s == self.strategy(),
    {
        self.error_strategy
    }

    /// The label.
    pub fn label(&self) -> (label: Option<&str>)
        ensures
            match label {
                Some(l) => self.name_label() matches Some(s) && s@ == l@,
                None => self.name_label() is None,
            },
    {
        match &self.label {
            Some(l) => Some(l.as_str()),
            None => None,
        }
    }

    fn display_name(&self) -> (name: String)
        ensures
            name@ == self.shown_name(),
    {
        match &self.label {
            Some(l) => l.clone(),
            None => "parallel".to_owned(),
        }
    }

    /// How the node ends, given how its branches ended. Where none failed, it has
    /// the merged state, or fails because the states do not go together. Otherwise
    /// it fails with the failure of the first branch that failed; where failures
    /// are collected and some branch did not fail, it has the merged state of those
    /// that did not as well, if their states go together.
    pub open spec fn ends<S>(
        self,
        results: Seq<(String, Result<S, String>)>,
        end: ParallelEnd<S>,
    ) -> bool where M: MergeStrategy<S> {
        match first_failure(results) {
            Some(i) => {
                &&& end.result matches Err(
                    GraphError::Terminal(TerminalError::NodeExecutionFailed { node, source }),
                ) && node@ == self.shown_name() + "/"@ + results[i].0@ && source@
                    == results[i].1->Err_0@
                &&& if self.strategy() == ParallelErrorStrategy::CollectAll && states_left(
                    results,
                ).len() > 0 {
                    exists|merged: Result<S, WorkflowError>| #[trigger]
                        M::merged(states_left(results), merged) && end.state == (match merged {
                            Ok(s) => Some(s),
                            Err(_) => None,
                        })
                } else {
                    end.state is None
                }
            },
            None => exists|merged: Result<S, WorkflowError>| #[trigger]
                M::merged(states_left(results), merged) && (match merged {
                    Ok(s) => end.state == Some(s) && end.result is Ok,
                    Err(e) => end.state is None && (end.result matches Err(
                        GraphError::Terminal(TerminalError::StateError(m)),
                    ) && m@ == "parallel merge conflict: "@ + e.message()),
                }),
        }
    }

    /// Joins the ends of the branches, in the order of the branches.
    pub fn conclude<S>(&self, results: Vec<(String, Result<S, String>)>) -> (end: ParallelEnd<S>)
        where M: MergeStrategy<S>
        ensures
            self.ends(results@, end),
    {
        let ghost all = results@;
        let mut states: Vec<S> = Vec::new();
        let mut failed: Option<(String, String)> = None;
        let ghost mut at: int = 0;
        assert(all.take(0) =~= Seq::empty());
        for result in it: results
            invariant
                it.seq() == all,
                states@ == states_left(all.take(it.index() as int)),
                match failed {
                    None => first_failure(all.take(it.index() as int)) is None,
                    Some(f) => first_failure(all.take(it.index() as int)) == Some(at) && 0 <= at
                        < it.index() && all[at].0 == f.0 && all[at].1 == Err::<S, String>(f.1),
                },
        {
            let ghost k = it.index() as int;
            let ghost now = all.take(k + 1);
            proof {
                assert(now.drop_last() =~= all.take(k));
                assert(now.last() == all[k]);
            }
            let (name, outcome) = result;
            match outcome {
                Ok(state) => {
                    states.push(state);
                },
                Err(reason) => {
                    if failed.is_none() {
                        proof {
                            at = k;
                        }
                        failed = Some((name, reason));
                    }
                },
            }
        }
        assert(all.take(all.len() as int) =~= all);
        match failed {
            Some((name, reason)) => {
                let mut node = self.display_name();
                node.append("/");
                node.append(name.as_str());
                let error = GraphError::Terminal(
                    TerminalError::NodeExecutionFailed { node, source: reason },
                );
                let state = match self.error_strategy {
                    ParallelErrorStrategy::FailFast => None,
                    ParallelErrorStrategy::CollectAll => if states.len() == 0 {
                        None
                    } else {
                        let merged = M::merge(states);
                        let ghost outcome = merged;
                        assert(M::merged(states_left(all), outcome));
                        match merged {
                            Ok(s) => Some(s),
                            Err(_) => None,
                        }
                    },
                };
                ParallelEnd { state, result: Err(error) }
            },
            None => {
                match M::merge(states) {
                    Ok(s) => ParallelEnd { state: Some(s), result: Ok(()) },
                    Err(e) => {
                        let mut m = "parallel merge conflict: ".to_owned();
                        m.append(e.to_string().as_str());
                        ParallelEnd {
                            state: None,
                            result: Err(GraphError::Terminal(TerminalError::StateError(m))),
                        }
                    },
                }
            },
        }
    }

    /// Ends the node: the state with which it ends, if there is one, takes the
    /// place of the engine's.
    pub fn finish<S: WorkflowState, T: StreamSink, K: CheckpointSink<S>, P>(
        &self,
        engine: &mut ExecutionEngine<'_, S, T, K, P>,
        results: Vec<(String, Result<S, String>)>,
    ) -> (r: Result<(), GraphError>) where M: MergeStrategy<S>
        ensures
            exists|end: ParallelEnd<S>| #[trigger]
                self.ends(results@, end) && r == end.result && *final(engine).state == (
                match end.state {
                    Some(s) => s,
                    None => *old(engine).state,
                }),
            *final(final(engine).state) == *final(old(engine).state),
            final(engine).stream == old(engine).stream,
            final(engine).cancel == old(engine).cancel,
            final(engine).control == old(engine).control,
            final(engine).metadata == old(engine).metadata,
            final(engine).mutations == old(engine).mutations,
            final(engine).flow_events == old(engine).flow_events,
            final(engine).checkpoint_sink == old(engine).checkpoint_sink,
    {
        let end = self.conclude(results);
        let ghost ended = end;
        if let Some(s) = end.state {
            *engine.state = s;
        }
        assert(self.ends(results@, ended));
        end.result
    }
}

/// How a branch ends, given whether its node did: the state with the recorded
/// changes made, or a failure.
pub fn conclude_branch<S: WorkflowState, T: StreamSink, P>(
    child: OwnedExecutionEngine<S, T, P>,
    ok: bool,
) -> (end: Result<S, String>)
    ensures
        if ok {
            end matches Ok(s) && workflow_state::batch_effect(child.mutations@, child.inner, s)
        } else {
            end matches Err(e) && e@ == "branch execution failed"@
        },
{
    if !ok {
        return Err("branch execution failed".to_owned());
    }
    let mut child = child;
    child.commit();
    Ok(child.into_state())
}

/// A parallel node under construction.
pub struct ParallelNodeBuilder<X, M> {
    label: Option<String>,
    branches: Vec<(String, X)>,
    error_strategy: ParallelErrorStrategy,
    _phantom: PhantomData<M>,
}

impl<X, M> ParallelNodeBuilder<X, M> {
    /// The label.
    pub closed spec fn name_label(self) -> Option<String> {
        self.label
    }

    /// The branches.
    pub closed spec fn entries(self) -> Seq<(String, X)> {
        self.branches@
    }

    /// What is done when a branch fails.
    pub closed spec fn strategy(self) -> ParallelErrorStrategy {
        self.error_strategy
    }

    fn new() -> (b: Self)
        ensures
            b.name_label() is None,
            b.entries() == Seq::<(String, X)>::empty(),
            b.strategy() == ParallelErrorStrategy::FailFast,
    {
        ParallelNodeBuilder {
            label: None,
            branches: Vec::new(),
            error_strategy: ParallelErrorStrategy::default(),
            _phantom: PhantomData,
        }
    }

    /// Sets the label.
    pub fn label(self, label: &str) -> (b: Self)
        ensures
            b.name_label() matches Some(l) && l@ == label@,
            b.entries() == self.entries(),
            b.strategy() == self.strategy(),
    {
        let mut b = self;
        b.label = Some(label.to_owned());
        b
    }

    /// Adds a branch at the end.
    pub fn branch(self, name: &str, node: X) -> (b: Self)
        ensures
            b.name_label() == self.name_label(),
            b.entries().len() == self.entries().len() + 1,
            b.entries().drop_last() == self.entries(),
            b.entries().last().0@ == name@,
            b.entries().last().1 == node,
            b.strategy() == self.strategy(),
    {
        let mut b = self;
        b.branches.push((name.to_owned(), node));
        assert(b.branches@.drop_last() =~= self.branches@);
        b
    }

    /// Sets what is done when a branch fails.
    pub fn error_strategy(self, strategy: ParallelErrorStrategy) -> (b: Self)
        ensures
            b.name_label() == self.name_label(),
            b.entries() == self.entries(),
            b.strategy() == strategy,
    {
        let mut b = self;
        b.error_strategy = strategy;
        b
    }

    /// The node. It has at least one branch.
    pub fn build(self) -> (n: ParallelNode<X, M>)
        requires
            self.entries().len() > 0,
        ensures
            n.name_label() == self.name_label(),
            n.entries() == self.entries(),
            n.strategy() == self.strategy(),
    {
        ParallelNode {
            label: self.label,
            branches: self.branches,
            error_strategy: self.error_strategy,
            _merge_strategy: PhantomData,
        }
    }

    /// The builder with another merge strategy.
    pub fn merge_strategy<NM>(self) -> (b: ParallelNodeBuilder<X, NM>)
        ensures
            b.name_label() == self.name_label(),
            b.entries() == self.entries(),
            b.strategy() == self.strategy(),
    {
        ParallelNodeBuilder {
            label: self.label,
            branches: self.branches,
            error_strategy: self.error_strategy,
            _phantom: PhantomData,
        }
    }
}

/// The first failure is the one before which no branch failed; without a failure there is
/// none.
pub proof fn law_first_failure_counts<S>(results: Seq<(String, Result<S, String>)>, i: int)
    ensures
        first_failure(results) == Some(i) <==> 0 <= i < results.len() && results[i].1 is Err && (
        forall|j: int| 0 <= j < i ==> (#[trigger] results[j]).1 is Ok),
        first_failure(results) is None <==> forall|j: int|
            0 <= j < results.len() ==> (#[trigger] results[j]).1 is Ok,
    decreases results.len(),
{
    if results.len() > 0 {
        let front = results.drop_last();
        let n = front.len() as int;
        law_first_failure_counts(front, i);
        assert(results[n] == results.last());
        assert(forall|j: int| 0 <= j < n ==> front[j] == results[j]);
        match first_failure(front) {
            Some(k) => {
                law_first_failure_counts(front, k);
                assert(front[k].1 is Err);
                assert(results[k].1 is Err);
                if i > k {
                    assert(!(results[k].1 is Ok));
                }
                if i < k && 0 <= i {
                    assert(front[i].1 is Ok);
                }
            },
            None => {
                if forall|j: int| 0 <= j < results.len() ==> (#[trigger] results[j]).1 is Ok {
                    assert(results[n].1 is Ok);
                }
                if 0 <= i < n {
                    assert(front[i].1 is Ok);
                }
            },
        }
    }
}

/// The states that are left are those of the branches that did not fail, in the order of
/// the branches.
pub proof fn law_good_branches_are_left<S>(
    a: Seq<(String, Result<S, String>)>,
    b: Seq<(String, Result<S, String>)>,
    one: (String, Result<S, String>),
)
    ensures
        states_left(a + b) == states_left(a) + states_left(b),
        states_left(seq![one]) == (if one.1 is Ok {
            seq![one.1->Ok_0]
        } else {
            Seq::empty()
        }),
    decreases b.len(),
{
    assert(states_left(seq![one].drop_last()) =~= Seq::empty());
    assert(states_left(seq![one]) =~= if one.1 is Ok {
        seq![one.1->Ok_0]
    } else {
        Seq::empty()
    });
    if b.len() == 0 {
        assert(a + b =~= a);
        assert(states_left(a + b) =~= states_left(a) + states_left(b));
    } else {
        assert((a + b).drop_last() =~= a + b.drop_last());
        law_good_branches_are_left(a, b.drop_last(), one);
        assert(states_left(a + b) =~= states_left(a) + states_left(b));
    }
}

/// A parallel node fails exactly if a branch fails or the states do not go together. It
/// fails with the first branch that failed, under the node's name and the branch's, and
/// gives the reason of that branch. A node that fails fast leaves the state alone then; one
/// that collects has what merging the other branches gives. Where no branch fails, the
/// state is what merging all of them gives.
pub proof fn law_branches_decide<X, M: MergeStrategy<S>, S>(
    node: ParallelNode<X, M>,
    results: Seq<(String, Result<S, String>)>,
    end: ParallelEnd<S>,
    i: int,
)
    requires
        node.ends(results, end),
    ensures
        end.result is Ok ==> forall|j: int|
            0 <= j < results.len() ==> (#[trigger] results[j]).1 is Ok,
        end.result is Ok ==> end.state is Some && M::merged(
            states_left(results),
            Ok::<S, WorkflowError>(end.state->0),
        ),
        0 <= i < results.len() && results[i].1 is Err && (forall|j: int|
            0 <= j < i ==> (#[trigger] results[j]).1 is Ok) ==> {
            &&& end.result matches Err(
                GraphError::Terminal(TerminalError::NodeExecutionFailed { node: n, source }),
            ) && source@ == results[i].1->Err_0@ && n@ == node.shown_name() + "/"@ + results[i].0@
            &&& node.strategy() is FailFast ==> end.state is None
            &&& end.state matches Some(s) ==> M::merged(
                states_left(results),
                Ok::<S, WorkflowError>(s),
            )
            &&& node.strategy() is CollectAll && states_left(results).len() > 0 && end.state is None
                ==> exists|e: WorkflowError| M::merged(states_left(results), Err::<S, WorkflowError>(e))
        },
        (forall|j: int| 0 <= j < results.len() ==> (#[trigger] results[j]).1 is Ok)
            && end.result is Err ==> end.state is None && exists|e: WorkflowError|
            M::merged(states_left(results), Err::<S, WorkflowError>(e)),
{
    law_first_failure_counts(results, i);
    match first_failure(results) {
        Some(k) => {
            law_first_failure_counts(results, k);
            if node.strategy() is CollectAll && states_left(results).len() > 0 {
                let merged = choose|merged: Result<S, WorkflowError>| #[trigger]
                    M::merged(states_left(results), merged) && end.state == (match merged {
                        Ok(s) => Some(s),
                        Err(_) => None,
                    });
                match merged {
                    Ok(s) => {
                        assert(M::merged(states_left(results), Ok::<S, WorkflowError>(s)));
                    },
                    Err(e) => {
                        assert(M::merged(states_left(results), Err::<S, WorkflowError>(e)));
                    },
                }
            }
        },
        None => {
            let merged = choose|merged: Result<S, WorkflowError>| #[trigger]
                M::merged(states_left(results), merged) && (match merged {
                    Ok(s) => end.state == Some(s) && end.result is Ok,
                    Err(e) => end.state is None && (end.result matches Err(
                        GraphError::Terminal(TerminalError::StateError(m)),
                    ) && m@ == "parallel merge conflict: "@ + e.message()),
                });
            match merged {
                Ok(s) => {
                    assert(M::merged(states_left(results), Ok::<S, WorkflowError>(s)));
                },
                Err(e) => {
                    assert(M::merged(states_left(results), Err::<S, WorkflowError>(e)));
                },
            }
        },
    }
}

/// A node appears under its label, or under a common name without one.
pub proof fn law_nodes_show_their_label<X, M>(node: ParallelNode<X, M>, label: String)
    ensures
        node.name_label() == Some(label) ==> node.shown_name() == label@,
        node.name_label() is None ==> node.shown_name() == "parallel"@,
{
}

/// The names of branches are those of each, in order.
pub proof fn law_branches_are_named<X>(branches: Seq<(String, X)>, i: int)
    ensures
        branch_texts(branches).len() == branches.len(),
        0 <= i < branches.len() ==> branch_texts(branches)[i] == branches[i].0@,
{
}

} // verus!
