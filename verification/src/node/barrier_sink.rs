//! How a wait at a barrier ends.

use vstd::prelude::*;

use crate::event::{BarrierDecision, BarrierDecisionMessage, BarrierId, Verdict};
use crate::json;
use crate::json::{Json, Value};
use crate::state::state::State;
use crate::string_map::StringMap;
use crate::text;
use crate::time::Duration;

verus! {

/// How a wait ended.
pub enum BarrierOutcome {
    /// With a decision.
    Decision(BarrierDecision),
    /// The time was up.
    TimedOut,
    /// No decision can come any more.
    Cancelled,
}

impl BarrierOutcome {
    /// The decision, if there is one.
    pub open spec fn verdict(self) -> Option<Verdict> {
        match self {
            BarrierOutcome::Decision(d) => Some(d@),
            _ => None,
        }
    }
}

/// What ends a wait.
pub enum WaitEvent {
    /// The run was told to stop.
    CancelReceived,
    /// The time was up.
    Elapsed,
    /// A message came, or none can come any more.
    Message(Option<BarrierDecisionMessage>),
}

/// The decision that a cache holds for a stop, if any.
pub open spec fn cached(
    cache: Map<Seq<char>, BarrierDecision>,
    id: (Seq<char>, u32),
    found: Option<BarrierDecision>,
) -> bool {
    match found {
        Some(d) => cache.contains_key(id.0) && d@ == cache[id.0]@,
        None => !cache.contains_key(id.0),
    }
}

/// The decision that was given for every stop at a barrier.
pub fn cached_decision(
    cache: &StringMap<BarrierDecision>,
    barrier_id: &BarrierId,
) -> (found: Option<BarrierDecision>)
    ensures
        cached(cache@, barrier_id@, found),
{
    match cache.get(barrier_id.node_id.as_str()) {
        Some(d) => Some(d.clone()),
        None => None,
    }
}

/// The message is meant for a stop.
pub open spec fn meant_for(message: BarrierDecisionMessage, id: (Seq<char>, u32)) -> bool {
    match message {
        BarrierDecisionMessage::Exact { barrier_id, .. } => barrier_id@ == id,
        BarrierDecisionMessage::Wildcard { node_id, .. } => node_id@ == id.0,
    }
}

/// The decision that a message carries.
pub open spec fn carried(message: BarrierDecisionMessage) -> BarrierDecision {
    match message {
        BarrierDecisionMessage::Exact { decision, .. } => decision,
        BarrierDecisionMessage::Wildcard { decision, .. } => decision,
    }
}

/// How a wait ends on an event, and what it leaves in the cache. A decision for
/// every stop is kept. A message that is not meant for the stop ends the wait as a
/// cancellation.
pub open spec fn wait_ended(
    event: WaitEvent,
    id: (Seq<char>, u32),
    before: Map<Seq<char>, BarrierDecision>,
    after: Map<Seq<char>, BarrierDecision>,
    outcome: BarrierOutcome,
) -> bool {
    &&& match event {
        WaitEvent::CancelReceived => outcome is Cancelled,
        WaitEvent::Elapsed => outcome is TimedOut,
        WaitEvent::Message(None) => outcome is Cancelled,
        WaitEvent::Message(Some(m)) => if meant_for(m, id) {
            outcome.verdict() == Some(carried(m)@)
        } else {
            outcome is Cancelled
        },
    }
    &&& match event {
        WaitEvent::Message(Some(BarrierDecisionMessage::Wildcard { node_id, decision })) =>
            if node_id@ == id.0 {
                after.contains_key(node_id@) && after == before.insert(node_id@, after[node_id@])
                    && after[node_id@]@ == decision@
            } else {
                after == before
            },
        _ => after == before,
    }
}

/// How a wait ends on an event, and whether the run is to be cancelled with it.
pub fn end_wait(
    event: WaitEvent,
    barrier_id: &BarrierId,
    cache: &mut StringMap<BarrierDecision>,
) -> (ended: (BarrierOutcome, bool))
    ensures
        ended.1 == (event is CancelReceived),
        wait_ended(event, barrier_id@, old(cache)@, final(cache)@, ended.0),
{
    match event {
        WaitEvent::CancelReceived => (BarrierOutcome::Cancelled, true),
        WaitEvent::Elapsed => (BarrierOutcome::TimedOut, false),
        WaitEvent::Message(None) => (BarrierOutcome::Cancelled, false),
        WaitEvent::Message(Some(message)) => match message {
            BarrierDecisionMessage::Exact { barrier_id: id, decision } => {
                if id.same(barrier_id) {
                    (BarrierOutcome::Decision(decision), false)
                } else {
                    (BarrierOutcome::Cancelled, false)
                }
            },
            BarrierDecisionMessage::Wildcard { node_id, decision } => {
                if text::same_text(node_id.as_str(), barrier_id.node_id.as_str()) {
                    let kept = decision.clone();
                    cache.insert(node_id, kept);
                    (BarrierOutcome::Decision(decision), false)
                } else {
                    (BarrierOutcome::Cancelled, false)
                }
            },
        },
    }
}

/// A decision for every stop at a barrier, once it has ended a wait there, is the
/// answer at every later stop at that barrier. What is kept for other barriers stays.
pub proof fn law_standing_decision_answers(
    message: BarrierDecisionMessage,
    id: (Seq<char>, u32),
    before: Map<Seq<char>, BarrierDecision>,
    after: Map<Seq<char>, BarrierDecision>,
    outcome: BarrierOutcome,
    later: (Seq<char>, u32),
    found: Option<BarrierDecision>,
)
    requires
        message is Wildcard,
        meant_for(message, id),
        wait_ended(WaitEvent::Message(Some(message)), id, before, after, outcome),
        cached(after, later, found),
    ensures
        later.0 == id.0 ==> (found matches Some(d) && d@ == carried(message)@ && outcome.verdict()
            == Some(d@)),
        later.0 != id.0 ==> cached(before, later, found),
{
}

/// The sink that approves everything.
#[derive(Clone, Copy, Debug)]
pub struct NoopBarrierSink;

impl NoopBarrierSink {
    /// How every wait ends.
    pub fn outcome(&self, barrier_id: &BarrierId, timeout: Option<Duration>) -> (o: BarrierOutcome)
        ensures
            o.verdict() == Some(Verdict::Approve),
    {
        BarrierOutcome::Decision(BarrierDecision::Approve)
    }
}

/// The sink that always decides the same.
pub struct MockBarrierSink {
    pub decision: BarrierDecision,
}

impl MockBarrierSink {
    /// A sink with a decision.
    pub fn new(decision: BarrierDecision) -> (s: Self)
        ensures
            s.decision == decision,
    {
        MockBarrierSink { decision }
    }

    /// How every wait ends.
    pub fn outcome(&self, barrier_id: &BarrierId, timeout: Option<Duration>) -> (o: BarrierOutcome)
        ensures
            o.verdict() == Some(self.decision@),
    {
        BarrierOutcome::Decision(self.decision.clone())
    }
}

/// Where a decision sends the run, for states that have no keys: only a reroute
/// has an effect.
pub fn apply_barrier_decision_generic(decision: &BarrierDecision) -> (target: Option<String>)
    ensures
        match target {
            Some(t) => decision@ == Verdict::Reroute(t@),
            None => !(decision@ is Reroute),
        },
{
    match decision {
        BarrierDecision::Reroute { target } => Some(target.clone()),
        _ => None,
    }
}

/// What a decision makes of a state's contents, under keys made of the node's name.
pub open spec fn decided(
    before: Map<Seq<char>, Json>,
    node: Seq<char>,
    decision: Verdict,
) -> Map<Seq<char>, Json> {
    let approve_key = node + ".approved"@;
    let reject_key = node + ".reject_reason"@;
    match decision {
        Verdict::Approve => before.insert(approve_key, Json::Bool(true)).remove(reject_key),
        Verdict::Reject(reason) => before.insert(reject_key, Json::String(reason)).remove(
            approve_key,
        ),
        Verdict::Modify(key, value) => before.insert(key, value),
        Verdict::Reroute(_) => before,
    }
}

/// After an approval a state has the key for it and not that for a rejection, and
/// after a rejection the other way round. No decision touches any key but these two
/// and the one that it names.
pub proof fn law_decision_shows(
    before: Map<Seq<char>, Json>,
    node: Seq<char>,
    decision: Verdict,
    key: Seq<char>,
)
    ensures
        decision is Approve ==> {
            let after = decided(before, node, decision);
            &&& after.contains_key(node + ".approved"@)
            &&& after[node + ".approved"@] == Json::Bool(true)
            &&& !after.contains_key(node + ".reject_reason"@)
        },
        decision matches Verdict::Reject(reason) ==> {
            let after = decided(before, node, decision);
            &&& after.contains_key(node + ".reject_reason"@)
            &&& after[node + ".reject_reason"@] == Json::String(reason)
            &&& !after.contains_key(node + ".approved"@)
        },
        key != node + ".approved"@ && key != node + ".reject_reason"@ && !(decision matches
            Verdict::Modify(k, _) && k == key) ==> {
            let after = decided(before, node, decision);
            &&& after.contains_key(key) == before.contains_key(key)
            &&& before.contains_key(key) ==> after[key] == before[key]
        },
{
    reveal_strlit(".approved");
    reveal_strlit(".reject_reason");
    assert((node + ".approved"@).len() != (node + ".reject_reason"@).len());
}

/// Shows a decision in a state, and says where it sends the run.
pub fn apply_barrier_decision(
    state: &mut State,
    node_name: &str,
    decision: &BarrierDecision,
) -> (target: Option<String>)
    ensures
        final(state)@ == decided(old(state)@, node_name@, decision@),
        match target {
            Some(t) => decision@ == Verdict::Reroute(t@),
            None => !(decision@ is Reroute),
        },
{
    let mut approve_key = node_name.to_owned();
    approve_key.append(".approved");
    let mut reject_key = node_name.to_owned();
    reject_key.append(".reject_reason");
    match decision {
        BarrierDecision::Approve => {
            let yes = Value::Bool(true);
            proof {
                json::lemma_value(yes);
            }
            state.insert(approve_key, yes);
            state.remove(reject_key.as_str());
            None
        },
        BarrierDecision::Reject { reason } => {
            let why = Value::String(reason.clone());
            proof {
                json::lemma_value(why);
            }
            state.insert(reject_key, why);
            state.remove(approve_key.as_str());
            None
        },
        BarrierDecision::Modify { key, value } => {
            state.insert(key.clone(), value.clone());
            None
        },
        BarrierDecision::Reroute { target } => Some(target.clone()),
    }
}

/// A message for one stop is meant for that stop alone; one for a barrier is meant for every
/// stop there and for none elsewhere. Either way the stop gets the decision in the message.
pub proof fn law_messages_reach_their_stop(
    barrier_id: BarrierId,
    node_id: String,
    decision: BarrierDecision,
    id: (Seq<char>, u32),
    later: u32,
)
    ensures
        meant_for(BarrierDecisionMessage::Exact { barrier_id, decision }, id) <==> id.0
            == barrier_id.node_id@ && id.1 == barrier_id.occurrence,
        meant_for(BarrierDecisionMessage::Wildcard { node_id, decision }, id) <==> id.0 == node_id@,
        meant_for(BarrierDecisionMessage::Wildcard { node_id, decision }, id) <==> meant_for(
            BarrierDecisionMessage::Wildcard { node_id, decision },
            (id.0, later),
        ),
        carried(BarrierDecisionMessage::Exact { barrier_id, decision }) == decision,
        carried(BarrierDecisionMessage::Wildcard { node_id, decision }) == decision,
{
}

/// A wait ends with a decision only if one came that was meant for the stop, with the end
/// of the time only if the time was up, and otherwise cancelled; only a decision for every
/// stop at the barrier is kept, and what was kept for other barriers stays.
pub proof fn law_waits_end_for_a_reason(
    event: WaitEvent,
    id: (Seq<char>, u32),
    before: Map<Seq<char>, BarrierDecision>,
    after: Map<Seq<char>, BarrierDecision>,
    outcome: BarrierOutcome,
    other: Seq<char>,
)
    requires
        wait_ended(event, id, before, after, outcome),
    ensures
        outcome is TimedOut <==> event is Elapsed,
        outcome matches BarrierOutcome::Decision(d) ==> (event matches WaitEvent::Message(Some(m))
            && meant_for(m, id) && d@ == carried(m)@),
        event matches WaitEvent::Message(Some(m)) && meant_for(m, id) ==> outcome is Decision,
        event is CancelReceived ==> outcome is Cancelled,
        other != id.0 ==> after.contains_key(other) == before.contains_key(other) && (
        before.contains_key(other) ==> after[other] == before[other]),
        !(event matches WaitEvent::Message(Some(m)) && m is Wildcard && meant_for(m, id)) ==> after
            == before,
{
}

/// What a cache holds for a barrier is found at every stop there, and nothing is found at a
/// barrier for which it holds nothing.
pub proof fn law_kept_decisions_are_found(
    cache: Map<Seq<char>, BarrierDecision>,
    id: (Seq<char>, u32),
    found: Option<BarrierDecision>,
)
    requires
        cached(cache, id, found),
    ensures
        found is Some <==> cache.contains_key(id.0),
        found matches Some(d) ==> d@ == cache[id.0]@,
{
}

/// A wait that ended with a decision ended with that decision, and no other wait did; and a
/// message carries the decision that it was sent with.
pub proof fn law_outcomes_carry_the_decision(outcome: BarrierOutcome, m: BarrierDecisionMessage)
    ensures
        outcome matches BarrierOutcome::Decision(d) ==> outcome.verdict() == Some(d@),
        !(outcome is Decision) ==> outcome.verdict() is None,
        m matches BarrierDecisionMessage::Exact { decision, .. } ==> carried(m) == decision,
        m matches BarrierDecisionMessage::Wildcard { decision, .. } ==> carried(m) == decision,
{
}

/// A decision shows in the contents under keys made of the node's name: an approval leaves
/// its key and not that of a rejection, a rejection the other way round with its reason, a
/// modification its value, and a reroute nothing. No other key is touched.
pub proof fn law_decisions_show_in_the_contents(
    before: Map<Seq<char>, Json>,
    node: Seq<char>,
    decision: Verdict,
    other: Seq<char>,
)
    ensures
        decision is Approve ==> decided(before, node, decision).contains_key(node + ".approved"@)
            && decided(before, node, decision)[node + ".approved"@] == Json::Bool(true)
            && !decided(before, node, decision).contains_key(node + ".reject_reason"@),
        decision matches Verdict::Reject(reason) ==> decided(before, node, decision).contains_key(
            node + ".reject_reason"@,
        ) && decided(before, node, decision)[node + ".reject_reason"@] == Json::String(reason)
            && !decided(before, node, decision).contains_key(node + ".approved"@),
        decision matches Verdict::Modify(key, value) ==> decided(before, node, decision).contains_key(
            key,
        ) && decided(before, node, decision)[key] == value,
        decision is Reroute ==> decided(before, node, decision) == before,
        other != node + ".approved"@ && other != node + ".reject_reason"@ && !(
        decision matches Verdict::Modify(key, _) && key == other) ==> decided(
            before,
            node,
            decision,
        ).contains_key(other) == before.contains_key(other) && (before.contains_key(other)
            ==> decided(before, node, decision)[other] == before[other]),
{
    reveal_strlit(".approved");
    reveal_strlit(".reject_reason");
    assert((node + ".approved"@).len() != (node + ".reject_reason"@).len());
}

} // verus!
