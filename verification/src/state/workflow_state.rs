//! What a workflow's state has to offer, how it is mutated and how the states of
//! parallel branches are merged.

use vstd::prelude::*;

use crate::json::{Json, Value};

verus! {

/// A command that changes a state.
pub trait StateMutation<S>: Sized {
    /// What the command does to a state. An implementation that leaves this
    /// out promises nothing.
    open spec fn effect(self, before: S, after: S) -> bool {
        true
    }

    /// Carries the command out.
    fn apply(self, state: &mut S)
        ensures
            self.effect(*old(state), *final(state)),
    ;

    /// Joins the command with the one that follows it, where that is possible.
    fn combine(self, other: Self) -> (joined: Option<Self>)
        default_ensures
            joined is None,
    {
        None
    }
}

/// What a list of commands does, one after the other.
pub open spec fn batch_effect<S, M: StateMutation<S>>(commands: Seq<M>, before: S, after: S) -> bool
    decreases commands.len(),
{
    if commands.len() == 0 {
        before == after
    } else {
        exists|between: S|
            batch_effect(commands.drop_last(), before, between)
                && #[trigger] commands.last().effect(between, after)
    }
}

/// Two batches one after the other are one batch.
pub proof fn law_batches_compose<S, M: StateMutation<S>>(
    first: Seq<M>,
    second: Seq<M>,
    before: S,
    between: S,
    after: S,
)
    requires
        batch_effect(first, before, between),
        batch_effect(second, between, after),
    ensures
        batch_effect(first + second, before, after),
    decreases second.len(),
{
    let all = first + second;
    if second.len() == 0 {
        assert(all =~= first);
    } else {
        let last = choose|last: S|
            batch_effect(second.drop_last(), between, last) && #[trigger] second.last().effect(
                last,
                after,
            );
        law_batches_compose(first, second.drop_last(), before, between, last);
        assert(all.drop_last() =~= first + second.drop_last());
        assert(all.last().effect(last, after));
    }
}

/// The state of a workflow.
pub trait WorkflowState: Clone + Sized {
    /// What is kept of a state in a checkpoint.
    type Checkpoint: Clone;

    /// The commands that change a state.
    type Mutation: StateMutation<Self>;

    /// The checkpoint keeps what it should of the state. An implementation that leaves this
    /// out promises nothing.
    open spec fn captured(self, checkpoint: Self::Checkpoint) -> bool {
        true
    }

    /// The state is one that the checkpoint gives back. An implementation that leaves this
    /// out promises nothing.
    open spec fn recovered(self, checkpoint: Self::Checkpoint) -> bool {
        true
    }

    /// What the modification of one key by hand makes of the state. An implementation
    /// that leaves this out promises nothing.
    open spec fn modified(self, key: Seq<char>, value: Json, after: Self) -> bool {
        true
    }

    /// The checkpoint of the state.
    fn snapshot(&self) -> (checkpoint: Self::Checkpoint)
        ensures
            self.captured(checkpoint),
    ;

    /// The state of a checkpoint.
    fn restore(checkpoint: Self::Checkpoint) -> (state: Self)
        ensures
            state.recovered(checkpoint),
    ;

    /// Modifies one key by hand. A state without keys stays as it is.
    fn modify(&mut self, key: &str, value: &Value)
        ensures
            old(self).modified(key@, value@, *final(self)),
    ;

    /// Carries commands out, in order.
    fn apply_batch(&mut self, mutations: Vec<Self::Mutation>)
        ensures
            batch_effect(mutations@, *old(self), *final(self)),
    {
        let ghost all = mutations@;
        let ghost start = *self;
        assert(all.take(0) =~= Seq::empty());
        for mutation in it: mutations
            invariant
                it.seq() == all,
                batch_effect(all.take(it.index() as int), start, *self),
        {
            let ghost k = it.index() as int;
            let ghost between = *self;
            mutation.apply(self);
            proof {
                assert(all.take(k + 1).drop_last() =~= all.take(k));
                assert(all.take(k + 1).last().effect(between, *self));
            }
        }
        assert(all.take(all.len() as int) =~= all);
    }

    /// The state at the beginning.
    fn initial() -> (state: Self) where Self: Default
        ensures
            call_ensures(Self::default, (), state),
    {
        Self::default()
    }
}

/// How the states of parallel branches become one.
pub trait MergeStrategy<S>: Sized {
    /// What merging gives. An implementation that leaves this
    /// out promises nothing.
    open spec fn merged(branches: Seq<S>, result: Result<S, WorkflowError>) -> bool {
        true
    }

    /// Merges the states of the branches, in the order of the branches.
    fn merge(branches: Vec<S>) -> (result: Result<S, WorkflowError>)
        ensures
            Self::merged(branches@, result),
    ;

    /// An instance of the strategy.
    fn default_instance() -> Self;
}

/// The strategy by which the last branch wins.
pub struct LastWriteWins;

impl<S> MergeStrategy<S> for LastWriteWins {
    open spec fn merged(branches: Seq<S>, result: Result<S, WorkflowError>) -> bool {
        if branches.len() == 0 {
            result matches Err(WorkflowError::MergeConflict(m)) && m@ == "no branches to merge"@
        } else {
            result == Ok::<S, WorkflowError>(branches.last())
        }
    }

    fn merge(branches: Vec<S>) -> (result: Result<S, WorkflowError>) {
        let mut branches = branches;
        match branches.pop() {
            Some(last) => Ok(last),
            None => Err(WorkflowError::MergeConflict("no branches to merge".to_owned())),
        }
    }

    fn default_instance() -> Self {
        LastWriteWins
    }
}

/// An error of an operation on a workflow's state.
#[derive(Debug)]
pub enum WorkflowError {
    /// The states of branches do not go together.
    MergeConflict(String),
    /// A command could not be carried out.
    ApplyFailed(String),
    /// A state could not be written or read.
    Serialization(String),
}

impl WorkflowError {
    /// The text of the error.
    pub open spec fn message(self) -> Seq<char> {
        match self {
            WorkflowError::MergeConflict(m) => "state merge conflict: "@ + m@,
            WorkflowError::ApplyFailed(m) => "failed to apply mutation: "@ + m@,
            WorkflowError::Serialization(m) => "state serialization error: "@ + m@,
        }
    }

    /// The text of the error.
    pub fn to_string(&self) -> (s: String)
        ensures
            s@ == self.message(),
    {
        let (prefix, m) = match self {
            WorkflowError::MergeConflict(m) => ("state merge conflict: ", m),
            WorkflowError::ApplyFailed(m) => ("failed to apply mutation: ", m),
            WorkflowError::Serialization(m) => ("state serialization error: ", m),
        };
        let mut s = prefix.to_owned();
        s.append(m.as_str());
        s
    }
}

/// The last branch wins whole, whatever the others hold; without a branch there is nothing
/// to win.
pub proof fn law_last_branch_wins<S>(
    earlier: Seq<S>,
    other: Seq<S>,
    last: S,
    result: Result<S, WorkflowError>,
)
    ensures
        <LastWriteWins as MergeStrategy<S>>::merged(earlier.push(last), result) <==> result
            == Ok::<S, WorkflowError>(last),
        <LastWriteWins as MergeStrategy<S>>::merged(earlier.push(last), result)
            <==> <LastWriteWins as MergeStrategy<S>>::merged(other.push(last), result),
        <LastWriteWins as MergeStrategy<S>>::merged(Seq::empty(), result) ==> (
        result matches Err(WorkflowError::MergeConflict(m)) && m@ == "no branches to merge"@),
{
    assert(earlier.push(last).last() == last);
    assert(other.push(last).last() == last);
}

/// What went wrong with a state is told by its sort and its cause.
pub proof fn law_state_failures_are_told(m: String)
    ensures
        WorkflowError::MergeConflict(m).message() == "state merge conflict: "@ + m@,
        WorkflowError::ApplyFailed(m).message() == "failed to apply mutation: "@ + m@,
        WorkflowError::Serialization(m).message() == "state serialization error: "@ + m@,
{
}

} // verus!
