//! When checkpoints are saved, and how many are kept.

use vstd::prelude::*;

use crate::checkpoint::store::InMemoryBlobStore;
use crate::ids::TraceId;
use crate::time::Duration;

verus! {

/// When a checkpoint is saved.
#[derive(Clone, Copy, PartialEq, Eq, Structural, Debug)]
pub enum TriggerPolicy {
    /// After every node.
    EveryNode,
    /// After a barrier.
    BarrierOnly,
    /// Never by itself.
    Manual,
    /// After a node that changed the state.
    OnMutation,
}

impl Default for TriggerPolicy {
    fn default() -> (p: Self)
        ensures
            p == TriggerPolicy::EveryNode,
    {
        TriggerPolicy::EveryNode
    }
}

impl TriggerPolicy {
    /// A checkpoint is due after a node.
    pub open spec fn due(self, has_mutations: bool, is_barrier: bool) -> bool {
        match self {
            TriggerPolicy::EveryNode => true,
            TriggerPolicy::BarrierOnly => is_barrier,
            TriggerPolicy::Manual => false,
            TriggerPolicy::OnMutation => has_mutations,
        }
    }
}

/// How many checkpoints are kept.
#[derive(Clone, Copy, PartialEq, Eq, Structural, Debug)]
pub enum RetentionPolicy {
    /// All of them.
    KeepAll,
    /// The latest so many.
    KeepLatest(usize),
    /// Those that are young enough. The store has to see to it.
    TimeBased(Duration),
}

impl Default for RetentionPolicy {
    fn default() -> (p: Self)
        ensures
            p == RetentionPolicy::KeepAll,
    {
        RetentionPolicy::KeepAll
    }
}

impl RetentionPolicy {
    /// To how many checkpoints a store is to be pruned, if at all.
    pub fn prune_keep(&self) -> (keep: Option<usize>)
        ensures
            keep == (match *self {
                RetentionPolicy::KeepLatest(n) => Some(n),
                _ => None,
            }),
    {
        match self {
            RetentionPolicy::KeepAll => None,
            RetentionPolicy::KeepLatest(n) => Some(*n),
            RetentionPolicy::TimeBased(_) => None,
        }
    }
}

/// When a checkpoint is saved, in its older form.
#[derive(Clone, Copy, PartialEq, Eq, Structural, Debug)]
pub enum CheckpointPolicy {
    /// After every node.
    EveryNode,
    /// After a barrier.
    BarrierOnly,
    /// Never by itself.
    Manual,
}

impl Default for CheckpointPolicy {
    fn default() -> (p: Self)
        ensures
            p == CheckpointPolicy::EveryNode,
    {
        CheckpointPolicy::EveryNode
    }
}

/// The trigger that an older policy stands for.
pub open spec fn trigger_of(policy: CheckpointPolicy) -> TriggerPolicy {
    match policy {
        CheckpointPolicy::EveryNode => TriggerPolicy::EveryNode,
        CheckpointPolicy::BarrierOnly => TriggerPolicy::BarrierOnly,
        CheckpointPolicy::Manual => TriggerPolicy::Manual,
    }
}

impl From<CheckpointPolicy> for TriggerPolicy {
    fn from(policy: CheckpointPolicy) -> (t: TriggerPolicy) {
        match policy {
            CheckpointPolicy::EveryNode => TriggerPolicy::EveryNode,
            CheckpointPolicy::BarrierOnly => TriggerPolicy::BarrierOnly,
            CheckpointPolicy::Manual => TriggerPolicy::Manual,
        }
    }
}

impl vstd::std_specs::convert::FromSpecImpl<CheckpointPolicy> for TriggerPolicy {
    open spec fn obeys_from_spec() -> bool {
        true
    }

    open spec fn from_spec(policy: CheckpointPolicy) -> TriggerPolicy {
        trigger_of(policy)
    }
}

/// The settings for checkpoints of a run. `F` is the type of what saves one, `B`
/// that of the store.
pub struct CheckpointConfig<F, B> {
    pub trigger: TriggerPolicy,
    pub retention: RetentionPolicy,
    pub save_fn: F,
    /// The fingerprint of the run's graph.
    pub graph_hash: u64,
    /// The store that is pruned.
    pub store: Option<B>,
}

impl<F, B> CheckpointConfig<F, B> {
    /// Settings that save after every node and keep everything.
    pub fn new(save_fn: F, graph_hash: u64) -> (c: Self)
        ensures
            c.save_fn == save_fn,
            c.graph_hash == graph_hash,
            c.trigger == TriggerPolicy::EveryNode,
            c.retention == RetentionPolicy::KeepAll,
            c.store is None,
    {
        CheckpointConfig {
            trigger: TriggerPolicy::default(),
            retention: RetentionPolicy::default(),
            save_fn,
            graph_hash,
            store: None,
        }
    }

    /// The settings with another trigger.
    pub fn with_trigger(self, trigger: TriggerPolicy) -> (c: Self)
        ensures
            c == (CheckpointConfig { trigger, ..self }),
    {
        let mut c = self;
        c.trigger = trigger;
        c
    }

    /// The settings with another retention.
    pub fn with_retention(self, retention: RetentionPolicy) -> (c: Self)
        ensures
            c == (CheckpointConfig { retention, ..self }),
    {
        let mut c = self;
        c.retention = retention;
        c
    }

    /// The settings with a store to prune.
    pub fn with_store(self, store: B) -> (c: Self)
        ensures
            c == (CheckpointConfig { store: Some(store), ..self }),
    {
        let mut c = self;
        c.store = Some(store);
        c
    }

    /// The settings with the trigger of an older policy.
    pub fn with_policy(self, policy: CheckpointPolicy) -> (c: Self)
        ensures
            c == (CheckpointConfig { trigger: trigger_of(policy), ..self }),
    {
        let mut c = self;
        c.trigger = TriggerPolicy::from(policy);
        c
    }

    /// Whether a checkpoint is to be saved after a node.
    pub fn should_save(&self, has_mutations: bool, is_barrier: bool) -> (save: bool)
        ensures
            save == self.trigger.due(has_mutations, is_barrier),
    {
        match self.trigger {
            TriggerPolicy::EveryNode => true,
            TriggerPolicy::BarrierOnly => is_barrier,
            TriggerPolicy::Manual => false,
            TriggerPolicy::OnMutation => has_mutations,
        }
    }

    /// To how many checkpoints the store is to be pruned, if there is a store and
    /// it is to be pruned at all.
    pub fn prune_to(&self) -> (keep: Option<usize>)
        ensures
            keep == (match self.retention {
                RetentionPolicy::KeepLatest(n) => if self.store is Some {
                    Some(n)
                } else {
                    None
                },
                _ => None,
            }),
    {
        match self.retention.prune_keep() {
            Some(n) => if self.store.is_some() {
                Some(n)
            } else {
                None
            },
            None => None,
        }
    }
}

impl<F> CheckpointConfig<F, InMemoryBlobStore> {
    /// Prunes the checkpoints of a run as the settings say. The result is how many
    /// went.
    pub fn apply_retention(&mut self, trace_id: &TraceId) -> (pruned: usize)
        ensures
            match (old(self).retention, old(self).store) {
                (RetentionPolicy::KeepLatest(n), Some(before)) => {
                    &&& final(self).store matches Some(after) && after@ == before@.pruned(
                        trace_id.0,
                        n as nat,
                    )
                    &&& pruned == before@.surplus(trace_id.0, n as nat)
                },
                _ => final(self).store == old(self).store && pruned == 0,
            },
            *final(self) == (CheckpointConfig { store: final(self).store, ..*old(self) }),
    {
        match self.retention.prune_keep() {
            Some(keep) => match self.store.take() {
                Some(kept) => {
                    let mut store = kept;
                    let pruned = store.prune(trace_id, keep);
                    self.store = Some(store);
                    pruned
                },
                None => 0,
            },
            None => 0,
        }
    }
}

/// Checkpoints are due after every node, after barriers, after changes or never, as the
/// trigger says and by nothing else.
pub proof fn law_triggers(changed: bool, barrier: bool)
    ensures
        TriggerPolicy::EveryNode.due(changed, barrier),
        !TriggerPolicy::Manual.due(changed, barrier),
        TriggerPolicy::BarrierOnly.due(changed, barrier) == barrier,
        TriggerPolicy::OnMutation.due(changed, barrier) == changed,
{
}

/// An older policy is as often due as the trigger that it stands for.
pub proof fn law_older_policies(changed: bool, barrier: bool)
    ensures
        trigger_of(CheckpointPolicy::EveryNode).due(changed, barrier),
        !trigger_of(CheckpointPolicy::Manual).due(changed, barrier),
        trigger_of(CheckpointPolicy::BarrierOnly).due(changed, barrier) == barrier,
{
}

} // verus!
