//! Barriers: nodes at which a run waits for a decision.

use core::sync::atomic::AtomicU32;
use std::sync::Arc;
use vstd::prelude::*;

use crate::event::{BarrierDecision, BarrierId, Verdict};
use crate::exec::execution_engine::{ExecutionSignal, NextAction, NodeMetadata};
use crate::json;
use crate::json::{Json, Value};
use crate::node::node_context::{LeafContext, NodeContext};
use crate::sharing;
use crate::state::state;
use crate::state::state::{State, StateMutation};
use crate::state::workflow_state::WorkflowState;
use crate::stream::StreamSink;
use crate::time::Duration;

verus! {

/// What happens at a barrier when no decision comes in time.
#[derive(Clone, Copy, PartialEq, Eq, Structural, Debug)]
pub enum BarrierDefaultAction {
    Reject,
    Approve,
    Skip,
}

impl Default for BarrierDefaultAction {
    fn default() -> (a: Self)
        ensures
            a == BarrierDefaultAction::Reject,
    {
        BarrierDefaultAction::Reject
    }
}

/// What is decided when no decision comes in time, with a reason where it rejects.
pub open spec fn timeout_verdict(action: BarrierDefaultAction, reason: Seq<char>) -> Verdict {
    match action {
        BarrierDefaultAction::Reject => Verdict::Reject(reason),
        BarrierDefaultAction::Approve => Verdict::Approve,
        BarrierDefaultAction::Skip => Verdict::Approve,
    }
}

/// What is decided when no decision comes in time, with a reason where it rejects.
pub fn timeout_decision(action: &BarrierDefaultAction, reason: &str) -> (d: BarrierDecision)
    ensures
        d@ == timeout_verdict(*action, reason@),
{
    match action {
        BarrierDefaultAction::Reject => BarrierDecision::Reject { reason: reason.to_owned() },
        BarrierDefaultAction::Approve => BarrierDecision::Approve,
        BarrierDefaultAction::Skip => BarrierDecision::Approve,
    }
}

/// A barrier.
pub struct BarrierNode {
    pub name: String,
    /// How long a decision may take.
    pub timeout: Option<Duration>,
    pub default_action: BarrierDefaultAction,
    /// The state's key for the reason of a rejection.
    pub reject_key: String,
    /// The state's key for an approval.
    pub approve_key: String,
    /// The number of stops so far, shared by all copies of the node.
    pub occurrence_counter: Arc<AtomicU32>,
}

/// The changes by which a decision shows in a state, given the keys for approval
/// and rejection.
pub open spec fn decision_changes(
    decision: BarrierDecision,
    approve_key: Seq<char>,
    reject_key: Seq<char>,
    changes: Seq<StateMutation>,
) -> bool {
    match decision {
        BarrierDecision::Approve => {
            &&& changes.len() == 2
            &&& changes[0] matches StateMutation::Put(k, v) && k@ == approve_key && v@
                == Json::Bool(true)
            &&& changes[1] matches StateMutation::Delete(k) && k@ == reject_key
        },
        BarrierDecision::Reject { reason } => {
            &&& changes.len() == 2
            &&& changes[0] matches StateMutation::Put(k, v) && k@ == reject_key && v@
                == Json::String(reason@)
            &&& changes[1] matches StateMutation::Delete(k) && k@ == approve_key
        },
        BarrierDecision::Modify { key, value } => {
            &&& changes.len() == 1
            &&& changes[0] == StateMutation::Put(key, value)
        },
        BarrierDecision::Reroute { target } => changes.len() == 0,
    }
}

impl BarrierNode {
    /// A barrier without a time limit, with keys made of its name.
    pub fn new(name: &str) -> (n: Self)
        ensures
            n.name@ == name@,
            n.timeout is None,
            n.default_action == BarrierDefaultAction::Reject,
            n.reject_key@ == name@ + ".reject_reason"@,
            n.approve_key@ == name@ + ".approved"@,
    {
        let mut reject_key = name.to_owned();
        reject_key.append(".reject_reason");
        let mut approve_key = name.to_owned();
        approve_key.append(".approved");
        BarrierNode {
            name: name.to_owned(),
            timeout: None,
            default_action: BarrierDefaultAction::default(),
            reject_key,
            approve_key,
            occurrence_counter: Arc::new(AtomicU32::new(0)),
        }
    }

    /// The barrier with a time limit.
    pub fn timeout(self, timeout: Duration) -> (n: Self)
        ensures
            n.timeout == Some(timeout),
            n.name == self.name,
            n.default_action == self.default_action,
            n.reject_key == self.reject_key,
            n.approve_key == self.approve_key,
            n.occurrence_counter == self.occurrence_counter,
    {
        let mut n = self;
        n.timeout = Some(timeout);
        n
    }

    /// The barrier with another default.
    pub fn default_action(self, action: BarrierDefaultAction) -> (n: Self)
        ensures
            n.default_action == action,
            n.name == self.name,
            n.timeout == self.timeout,
            n.reject_key == self.reject_key,
            n.approve_key == self.approve_key,
            n.occurrence_counter == self.occurrence_counter,
    {
        let mut n = self;
        n.default_action = action;
        n
    }

    /// The barrier with another key for rejections.
    pub fn reject_key(self, key: &str) -> (n: Self)
        ensures
            n.reject_key@ == key@,
            n.name == self.name,
            n.timeout == self.timeout,
            n.default_action == self.default_action,
            n.approve_key == self.approve_key,
            n.occurrence_counter == self.occurrence_counter,
    {
        let mut n = self;
        n.reject_key = key.to_owned();
        n
    }

    /// The barrier with another key for approvals.
    pub fn approve_key(self, key: &str) -> (n: Self)
        ensures
            n.approve_key@ == key@,
            n.name == self.name,
            n.timeout == self.timeout,
            n.default_action == self.default_action,
            n.reject_key == self.reject_key,
            n.occurrence_counter == self.occurrence_counter,
    {
        let mut n = self;
        n.approve_key = key.to_owned();
        n
    }

    /// Shows a decision in what is recorded and asked for: an approval and a
    /// rejection leave their key and take the other's out, a modification puts its
    /// value, a reroute asks for a jump.
    pub fn apply_decision_to_ctx<T: StreamSink, P>(
        &self,
        ctx: &mut NodeContext<'_, State, T, P>,
        decision: BarrierDecision,
    )
        ensures
            exists|changes: Seq<StateMutation>| #[trigger]
                decision_changes(decision, self.approve_key@, self.reject_key@, changes) && final(ctx).mutations@ == old(ctx).mutations@ + changes,
            match decision {
                BarrierDecision::Reroute { target } => final(ctx).control.next matches Some(
                    NextAction::Goto(t),
                ) && t@ == target@,
                _ => final(ctx).control.next == old(ctx).control.next,
            },
            final(ctx).control.signal == old(ctx).control.signal,
            *final(final(ctx).control) == *final(old(ctx).control),
            *final(final(ctx).mutations) == *final(old(ctx).mutations),
            final(ctx).state == old(ctx).state,
            final(ctx).metadata == old(ctx).metadata,
            final(ctx).flow_events == old(ctx).flow_events,
            final(ctx).stream == old(ctx).stream,
            final(ctx).cancel == old(ctx).cancel,
    {
        let ghost before = ctx.mutations@;
        let ghost taken = decision;
        match decision {
            BarrierDecision::Approve => {
                let yes = Value::Bool(true);
                proof {
                    json::lemma_value(yes);
                }
                ctx.record(StateMutation::Put(self.approve_key.clone(), yes));
                ctx.record(StateMutation::Delete(self.reject_key.clone()));
            },
            BarrierDecision::Reject { reason } => {
                let why = Value::String(reason);
                proof {
                    json::lemma_value(why);
                }
                ctx.record(StateMutation::Put(self.reject_key.clone(), why));
                ctx.record(StateMutation::Delete(self.approve_key.clone()));
            },
            BarrierDecision::Modify { key, value } => {
                ctx.record(StateMutation::Put(key, value));
            },
            BarrierDecision::Reroute { target } => {
                ctx.goto(target.as_str());
            },
        }
        proof {
            let changes = ctx.mutations@.skip(before.len() as int);
            assert(ctx.mutations@ =~= before + changes);
            assert(decision_changes(taken, self.approve_key@, self.reject_key@, changes));
        }
    }

    /// Asks for a decision on the stop of that number.
    pub fn pause_at<S: WorkflowState, T: StreamSink, P>(
        &self,
        ctx: &mut LeafContext<'_, S, T, P>,
        occurrence: u32,
    )
        ensures
            final(ctx).control.signal matches Some(ExecutionSignal::Pause { barrier_id, timeout })
                && barrier_id@ == (self.name@, occurrence) && timeout == self.timeout,
            final(ctx).control.next == old(ctx).control.next,
            *final(ctx).metadata == (NodeMetadata { has_side_effects: true, ..*old(ctx).metadata }),
            *final(final(ctx).control) == *final(old(ctx).control),
            *final(final(ctx).metadata) == *final(old(ctx).metadata),
            final(ctx).state == old(ctx).state,
            final(ctx).mutations == old(ctx).mutations,
            final(ctx).flow_events == old(ctx).flow_events,
            final(ctx).stream == old(ctx).stream,
            final(ctx).cancel == old(ctx).cancel,
    {
        let barrier_id = BarrierId::new(self.name.as_str(), occurrence);
        ctx.pause(barrier_id, self.timeout);
        ctx.set_has_side_effects();
    }

    /// Asks for a decision on the next stop. Copies of the node count stops
    /// together, so any number may have been reached.
    pub fn execute<S: WorkflowState, T: StreamSink, P>(&self, ctx: &mut LeafContext<'_, S, T, P>)
        ensures
            final(ctx).control.signal matches Some(ExecutionSignal::Pause { barrier_id, timeout })
                && barrier_id@.0 == self.name@ && timeout == self.timeout,
            final(ctx).control.next == old(ctx).control.next,
            *final(ctx).metadata == (NodeMetadata { has_side_effects: true, ..*old(ctx).metadata }),
            *final(final(ctx).control) == *final(old(ctx).control),
            *final(final(ctx).metadata) == *final(old(ctx).metadata),
            final(ctx).state == old(ctx).state,
            final(ctx).mutations == old(ctx).mutations,
            final(ctx).flow_events == old(ctx).flow_events,
            final(ctx).stream == old(ctx).stream,
            final(ctx).cancel == old(ctx).cancel,
    {
        let occurrence: u32 = self.occurrence_counter.fetch_add(
            1,
            core::sync::atomic::Ordering::Relaxed,
        );
        self.pause_at(ctx, occurrence);
    }
}

impl Clone for BarrierNode {
    fn clone(&self) -> (copy: Self)
        ensures
            copy == *self,
    {
        BarrierNode {
            name: self.name.clone(),
            timeout: self.timeout,
            default_action: self.default_action,
            reject_key: self.reject_key.clone(),
            approve_key: self.approve_key.clone(),
            occurrence_counter: sharing::share(&self.occurrence_counter),
        }
    }
}

/// Where no decision comes in time, a barrier that rejects rejects with the reason given,
/// and any other approves.
pub proof fn law_time_decides(action: BarrierDefaultAction, reason: Seq<char>)
    ensures
        action is Reject ==> timeout_verdict(action, reason) == Verdict::Reject(reason),
        !(action is Reject) ==> timeout_verdict(action, reason) is Approve,
{
}

/// A decision shows in the state once its changes are made: an approval leaves its key and
/// not that of a rejection, a rejection the other way round with its reason, a modification
/// its value, and a reroute nothing. No other key is touched.
pub proof fn law_decisions_change_the_state(
    decision: BarrierDecision,
    approve_key: Seq<char>,
    reject_key: Seq<char>,
    changes: Seq<StateMutation>,
    before: Map<Seq<char>, Json>,
    other: Seq<char>,
)
    requires
        decision_changes(decision, approve_key, reject_key, changes),
        approve_key != reject_key,
    ensures
        ({
            let after = state::results(changes, before);
            &&& decision is Approve ==> after.contains_key(approve_key) && after[approve_key]
                == Json::Bool(true) && !after.contains_key(reject_key)
            &&& decision matches BarrierDecision::Reject { reason } ==> after.contains_key(
                reject_key,
            ) && after[reject_key] == Json::String(reason@) && !after.contains_key(approve_key)
            &&& decision matches BarrierDecision::Modify { key, value } ==> after.contains_key(key@)
                && after[key@] == value@
            &&& decision is Reroute ==> after == before
            &&& other != approve_key && other != reject_key && !(
            decision matches BarrierDecision::Modify { key, .. } && key@ == other)
                ==> after.contains_key(other) == before.contains_key(other) && (before.contains_key(
                other,
            ) ==> after[other] == before[other])
            &&& decision is Modify && !(decision matches BarrierDecision::Modify { key, .. } && key@
                == other) ==> after.contains_key(other) == before.contains_key(other)
        }),
{
    if changes.len() == 2 {
        let front = changes.drop_last();
        assert(front.drop_last().len() == 0);
        assert(state::results(front.drop_last(), before) == before);
        assert(front.last() == changes[0]);
        assert(state::results(front, before) == changes[0].result(before));
        assert(state::results(changes, before) == changes[1].result(changes[0].result(before)));
    } else if changes.len() == 1 {
        assert(state::results(changes.drop_last(), before) == before);
        assert(state::results(changes, before) == changes[0].result(before));
    } else {
        assert(changes =~= Seq::empty());
    }
}

} // verus!
