//! Decisions that have come in, for this stop at a barrier or for another.

use vstd::prelude::*;

use crate::event::{BarrierDecision, BarrierDecisionMessage, BarrierId, Verdict};
use crate::node::barrier_node;
use crate::node::barrier_node::BarrierDefaultAction;
use crate::node::barrier_sink;
use crate::string_map::StringMap;
use crate::text;

verus! {

/// The decisions of a list, by stop.
pub open spec fn decisions_map(list: Seq<(BarrierId, BarrierDecision)>) -> Map<
    (Seq<char>, u32),
    Verdict,
>
    decreases list.len(),
{
    if list.len() == 0 {
        Map::empty()
    } else {
        decisions_map(list.drop_last()).insert(list.last().0@, list.last().1@)
    }
}

/// No stop occurs twice.
pub open spec fn distinct_stops(list: Seq<(BarrierId, BarrierDecision)>) -> bool {
    forall|i: int, j: int|
        0 <= i < j < list.len() ==> (#[trigger] list[i]).0@ != (#[trigger] list[j]).0@
}

proof fn lemma_decisions_map(list: Seq<(BarrierId, BarrierDecision)>)
    requires
        distinct_stops(list),
    ensures
        forall|i: int|
            0 <= i < list.len() ==> decisions_map(list).contains_key((#[trigger] list[i]).0@)
                && decisions_map(list)[list[i].0@] == list[i].1@,
        forall|k: (Seq<char>, u32)| #[trigger]
            decisions_map(list).contains_key(k) ==> exists|i: int|
                0 <= i < list.len() && (#[trigger] list[i]).0@ == k,
    decreases list.len(),
{
    if list.len() > 0 {
        let front = list.drop_last();
        lemma_decisions_map(front);
        let all = decisions_map(list);
        assert forall|i: int| 0 <= i < list.len() implies all.contains_key((#[trigger] list[i]).0@)
            && all[list[i].0@] == list[i].1@ by {
            if i < front.len() {
                assert(front[i] == list[i]);
            }
        }
        assert forall|k: (Seq<char>, u32)| #[trigger] all.contains_key(k) implies exists|i: int|
            0 <= i < list.len() && (#[trigger] list[i]).0@ == k by {
            if k == list.last().0@ {
                assert(list[list.len() - 1].0@ == k);
            } else {
                assert(decisions_map(front).contains_key(k));
                let i = choose|i: int| 0 <= i < front.len() && (#[trigger] front[i]).0@ == k;
                assert(list[i].0@ == k);
            }
        }
    }
}

/// The decisions that have come in: for single stops, and for every stop at a
/// barrier. It also numbers stops.
pub struct DecisionRegistry {
    pending: Vec<(BarrierId, BarrierDecision)>,
    wildcards: StringMap<BarrierDecision>,
    occurrence_counter: StringMap<u32>,
}

impl DecisionRegistry {
    #[verifier::type_invariant]
    spec fn well_formed(self) -> bool {
        distinct_stops(self.pending@)
    }

    /// The decisions for single stops.
    pub closed spec fn waiting(self) -> Map<(Seq<char>, u32), Verdict> {
        decisions_map(self.pending@)
    }

    /// The decisions for every stop at a barrier.
    pub closed spec fn standing(self) -> Map<Seq<char>, Verdict> {
        self.wildcards@.map_values(|d: BarrierDecision| d@)
    }

    /// How many stops at a barrier were numbered.
    pub closed spec fn counted(self, node: Seq<char>) -> u32 {
        if self.occurrence_counter@.contains_key(node) {
            self.occurrence_counter@[node]
        } else {
            0
        }
    }

    /// No decisions, no stops.
    pub fn new() -> (r: Self)
        ensures
            r.waiting() == Map::<(Seq<char>, u32), Verdict>::empty(),
            r.standing() == Map::<Seq<char>, Verdict>::empty(),
            forall|node: Seq<char>| #[trigger] r.counted(node) == 0,
    {
        let r = DecisionRegistry {
            pending: Vec::new(),
            wildcards: StringMap::new(),
            occurrence_counter: StringMap::new(),
        };
        assert(r.standing() =~= Map::empty());
        r
    }

    /// Numbers the next stop at a barrier. The numbers begin with one.
    pub fn next_id(&mut self, node_id: &str) -> (id: BarrierId)
        requires
            old(self).counted(node_id@) < u32::MAX,
        ensures
            id@ == (node_id@, (old(self).counted(node_id@) + 1) as u32),
            final(self).waiting() == old(self).waiting(),
            final(self).standing() == old(self).standing(),
            forall|node: Seq<char>| #[trigger]
                final(self).counted(node) == (if node == node_id@ {
                    (old(self).counted(node) + 1) as u32
                } else {
                    old(self).counted(node)
                }),
    {
        proof {
            use_type_invariant(&*self);
        }
        let occurrence: u32 = match self.occurrence_counter.get(node_id) {
            Some(n) => *n + 1,
            None => 1,
        };
        let key = node_id.to_owned();
        let mut counter: StringMap<u32> = StringMap::new();
        core::mem::swap(&mut counter, &mut self.occurrence_counter);
        counter.insert(key, occurrence);
        self.occurrence_counter = counter;
        BarrierId::new(node_id, occurrence)
    }

    fn position(&self, id: &BarrierId) -> (at: Option<usize>)
        ensures
            match at {
                Some(i) => i < self.pending@.len() && self.pending@[i as int].0@ == id@,
                None => forall|j: int|
                    0 <= j < self.pending@.len() ==> (#[trigger] self.pending@[j]).0@ != id@,
            },
    {
        let mut i: usize = 0;
        while i < self.pending.len()
            invariant
                i <= self.pending@.len(),
                forall|j: int| 0 <= j < i ==> (#[trigger] self.pending@[j]).0@ != id@,
            decreases self.pending@.len() - i,
        {
            if self.pending[i].0.same(id) {
                return Some(i);
            }
            i += 1;
        }
        None
    }

    fn take_pending(&mut self, id: &BarrierId) -> (found: Option<BarrierDecision>)
        ensures
            match found {
                Some(d) => old(self).waiting().contains_key(id@) && d@ == old(self).waiting()[id@],
                None => !old(self).waiting().contains_key(id@),
            },
            final(self).waiting() == old(self).waiting().remove(id@),
            final(self).standing() == old(self).standing(),
            forall|node: Seq<char>| #[trigger] final(self).counted(node) == old(self).counted(node),
    {
        proof {
            use_type_invariant(&*self);
            lemma_decisions_map(self.pending@);
        }
        match self.position(id) {
            None => {
                assert(self.waiting().remove(id@) =~= self.waiting());
                None
            },
            Some(i) => {
                let mut pending: Vec<(BarrierId, BarrierDecision)> = Vec::new();
                core::mem::swap(&mut pending, &mut self.pending);
                let ghost before = pending@;
                let taken = pending.remove(i);
                proof {
                    assert(pending@ =~= before.remove(i as int));
                    assert forall|j: int| 0 <= j < pending@.len() implies #[trigger] pending@[j] == (if j
                        < i {
                        before[j]
                    } else {
                        before[j + 1]
                    }) by {}
                    assert(distinct_stops(pending@));
                    lemma_decisions_map(pending@);
                    let m = decisions_map(before).remove(id@);
                    let n = decisions_map(pending@);
                    assert forall|k: (Seq<char>, u32)| n.contains_key(k) <==> m.contains_key(k) by {
                        if n.contains_key(k) {
                            let j = choose|j: int| 0 <= j < pending@.len() && (#[trigger] pending@[j]).0@ == k;
                            let b = if j < i { j } else { j + 1 };
                            assert(before[b] == pending@[j]);
                            assert(before[i as int].0@ != before[b].0@);
                        }
                        if m.contains_key(k) {
                            let b = choose|b: int| 0 <= b < before.len() && (#[trigger] before[b]).0@ == k;
                            let j = if b < i { b } else { b - 1 };
                            assert(pending@[j].0@ == k);
                        }
                    }
                    assert forall|k: (Seq<char>, u32)| m.contains_key(k) implies n[k] == m[k] by {
                        assert(n.contains_key(k));
                        let j = choose|j: int| 0 <= j < pending@.len() && (#[trigger] pending@[j]).0@ == k;
                        let b = if j < i { j } else { j + 1 };
                        assert(before[b] == pending@[j]);
                    }
                    assert(n =~= m);
                }
                self.pending = pending;
                Some(taken.1)
            },
        }
    }

    /// The decision for a stop, if one has come in. One that was for this stop alone
    /// is used up; one for every stop stands.
    pub fn take(&mut self, target_id: &BarrierId) -> (found: Option<BarrierDecision>)
        ensures
            taken(*old(self), target_id@, found, *final(self)),
            forall|node: Seq<char>| #[trigger] final(self).counted(node) == old(self).counted(node),
    {
        match self.take_pending(target_id) {
            Some(d) => Some(d),
            None => match self.wildcards.get(target_id.node_id.as_str()) {
                Some(d) => Some(d.clone()),
                None => None,
            },
        }
    }

    /// Takes a message in, and gives the decision if it is for the stop. A message
    /// for another stop is kept; one for every stop stands.
    pub fn process_message(
        &mut self,
        msg: BarrierDecisionMessage,
        target_id: &BarrierId,
    ) -> (found: Option<BarrierDecision>)
        ensures
            match found {
                Some(d) => barrier_sink::meant_for(msg, target_id@) && d@ == barrier_sink::carried(
                    msg,
                )@,
                None => !barrier_sink::meant_for(msg, target_id@),
            },
            received(*old(self), msg, target_id@, *final(self)),
            forall|node: Seq<char>| #[trigger] final(self).counted(node) == old(self).counted(node),
    {
        match msg {
            BarrierDecisionMessage::Exact { barrier_id, decision } => {
                if barrier_id.same(target_id) {
                    Some(decision)
                } else {
                    let ghost id = barrier_id@;
                    let ghost verdict = decision@;
                    let replaced = self.take_pending(&barrier_id);
                    let ghost between = *self;
                    proof {
                        use_type_invariant(&*self);
                        lemma_decisions_map(self.pending@);
                    }
                    let mut pending: Vec<(BarrierId, BarrierDecision)> = Vec::new();
                    core::mem::swap(&mut pending, &mut self.pending);
                    let ghost before = pending@;
                    pending.push((barrier_id, decision));
                    proof {
                        assert(pending@.drop_last() =~= before);
                        assert forall|j: int| 0 <= j < before.len() implies (#[trigger] before[j]).0@ != id by {
                            if before[j].0@ == id {
                                assert(decisions_map(before).contains_key(id));
                            }
                        }
                        assert(distinct_stops(pending@));
                        assert(decisions_map(pending@) =~= old(self).waiting().insert(id, verdict));
                    }
                    self.pending = pending;
                    assert forall|node: Seq<char>| #[trigger] self.counted(node) == old(self).counted(node) by {
                        assert(self.counted(node) == between.counted(node));
                    }
                    None
                }
            },
            BarrierDecisionMessage::Wildcard { node_id, decision } => {
                proof {
                    use_type_invariant(&*self);
                }
                let mine = text::same_text(node_id.as_str(), target_id.node_id.as_str());
                let kept = decision.clone();
                let ghost word = node_id@;
                let mut wildcards: StringMap<BarrierDecision> = StringMap::new();
                core::mem::swap(&mut wildcards, &mut self.wildcards);
                wildcards.insert(node_id, kept);
                self.wildcards = wildcards;
                assert(self.standing() =~= old(self).standing().insert(word, decision@));
                if mine {
                    Some(decision)
                } else {
                    None
                }
            },
        }
    }
}

/// A decision was asked for: one for the stop alone comes first and is used up, one
/// for every stop at the barrier stands.
pub open spec fn taken(
    before: DecisionRegistry,
    id: (Seq<char>, u32),
    found: Option<BarrierDecision>,
    after: DecisionRegistry,
) -> bool {
    &&& match found {
        Some(d) => d@ == (if before.waiting().contains_key(id) {
            before.waiting()[id]
        } else {
            before.standing()[id.0]
        }) && (before.waiting().contains_key(id) || before.standing().contains_key(id.0)),
        None => !before.waiting().contains_key(id) && !before.standing().contains_key(id.0),
    }
    &&& after.waiting() == before.waiting().remove(id)
    &&& after.standing() == before.standing()
}

/// A message came in during the wait at a stop: one for another stop is kept, one
/// for every stop at a barrier stands.
pub open spec fn received(
    before: DecisionRegistry,
    msg: BarrierDecisionMessage,
    id: (Seq<char>, u32),
    after: DecisionRegistry,
) -> bool {
    match msg {
        BarrierDecisionMessage::Exact { barrier_id, decision } => {
            &&& after.standing() == before.standing()
            &&& after.waiting() == (if barrier_id@ == id {
                before.waiting()
            } else {
                before.waiting().insert(barrier_id@, decision@)
            })
        },
        BarrierDecisionMessage::Wildcard { node_id, decision } => {
            &&& after.waiting() == before.waiting()
            &&& after.standing() == before.standing().insert(node_id@, decision@)
        },
    }
}

/// A decision that came in for another stop is the answer when that stop is reached,
/// and is used up by it. One for every stop at a barrier is the answer at each stop
/// there for which none of its own has come in, and stands.
pub proof fn law_early_decision_answers(
    before: DecisionRegistry,
    msg: BarrierDecisionMessage,
    id: (Seq<char>, u32),
    between: DecisionRegistry,
    later: (Seq<char>, u32),
    found: Option<BarrierDecision>,
    after: DecisionRegistry,
)
    requires
        received(before, msg, id, between),
        barrier_sink::meant_for(msg, later),
        taken(between, later, found, after),
    ensures
        msg is Exact && later != id ==> (found matches Some(d) && d@ == barrier_sink::carried(
            msg,
        )@) && !after.waiting().contains_key(later),
        msg is Wildcard ==> found is Some && after.standing().contains_key(later.0)
            && after.standing()[later.0] == barrier_sink::carried(msg)@ && (
        !before.waiting().contains_key(later) ==> found->0@ == barrier_sink::carried(msg)@),
{
}

/// The decision of a default action.
pub open spec fn default_verdict(action: BarrierDefaultAction) -> Verdict {
    barrier_node::timeout_verdict(action, "timeout — no decision received"@)
}

/// The decision of a default action.
pub fn default_decision(action: &BarrierDefaultAction) -> (d: BarrierDecision)
    ensures
        d@ == default_verdict(*action),
{
    barrier_node::timeout_decision(action, "timeout — no decision received")
}

/// The decision where the run was told to stop before it began to wait.
pub fn cancelled_decision() -> (d: BarrierDecision)
    ensures
        d@ == Verdict::Reject("cancelled"@),
{
    BarrierDecision::Reject { reason: "cancelled".to_owned() }
}

/// What a look at the channel of decisions gave.
pub enum DecisionPoll {
    /// A message.
    Message(BarrierDecisionMessage),
    /// Nothing can come any more.
    Closed,
    /// Nothing for now.
    Quiet,
}

/// A look at the channel of decisions settles the wait by itself.
pub open spec fn settles(poll: DecisionPoll, target: (Seq<char>, u32)) -> Option<Verdict> {
    match poll {
        DecisionPoll::Message(m) => if barrier_sink::meant_for(m, target) {
            Some(barrier_sink::carried(m)@)
        } else {
            None
        },
        DecisionPoll::Closed => Some(default_verdict(BarrierDefaultAction::Reject)),
        DecisionPoll::Quiet => None,
    }
}

impl DecisionRegistry {
    /// After a look at the channel: the decision if the wait is over. Where neither
    /// the message nor the channel settles it, it is over when the run was told to
    /// stop, with a rejection, or when the time is up, with the default action of the
    /// barrier.
    pub fn after_poll(
        &mut self,
        poll: DecisionPoll,
        target_id: &BarrierId,
        default_action: &BarrierDefaultAction,
        cancelled: bool,
        expired: bool,
    ) -> (found: Option<BarrierDecision>)
        ensures
            match found {
                Some(d) => d@ == (match settles(poll, target_id@) {
                    Some(v) => v,
                    None => if cancelled {
                        default_verdict(BarrierDefaultAction::Reject)
                    } else {
                        default_verdict(*default_action)
                    },
                }) && (settles(poll, target_id@) is Some || cancelled || expired),
                None => settles(poll, target_id@) is None && !cancelled && !expired,
            },
            match poll {
                DecisionPoll::Message(m) => received(*old(self), m, target_id@, *final(self)),
                _ => {
                    &&& final(self).waiting() == old(self).waiting()
                    &&& final(self).standing() == old(self).standing()
                },
            },
            forall|node: Seq<char>| #[trigger] final(self).counted(node) == old(self).counted(node),
    {
        match poll {
            DecisionPoll::Message(m) => {
                if let Some(d) = self.process_message(m, target_id) {
                    return Some(d);
                }
            },
            DecisionPoll::Closed => {
                return Some(default_decision(&BarrierDefaultAction::Reject));
            },
            DecisionPoll::Quiet => {},
        }
        if cancelled {
            return Some(default_decision(&BarrierDefaultAction::Reject));
        }
        if expired {
            return Some(default_decision(default_action));
        }
        None
    }
}

/// A decision for one stop is taken before one for the whole barrier and only once; one for
/// the barrier is taken again and again; and what is kept for other stops stays.
pub proof fn law_decisions_are_taken(
    before: DecisionRegistry,
    id: (Seq<char>, u32),
    found: Option<BarrierDecision>,
    between: DecisionRegistry,
    again: Option<BarrierDecision>,
    after: DecisionRegistry,
    other: (Seq<char>, u32),
)
    requires
        taken(before, id, found, between),
        taken(between, id, again, after),
    ensures
        found is Some <==> before.waiting().contains_key(id) || before.standing().contains_key(
            id.0,
        ),
        before.waiting().contains_key(id) ==> found->0@ == before.waiting()[id],
        !before.waiting().contains_key(id) && found is Some ==> found->0@
            == before.standing()[id.0],
        again is Some <==> before.standing().contains_key(id.0),
        again matches Some(d) ==> d@ == before.standing()[id.0],
        after.standing() == before.standing(),
        !after.waiting().contains_key(id),
        other != id ==> after.waiting().contains_key(other) == before.waiting().contains_key(other)
            && (before.waiting().contains_key(other) ==> after.waiting()[other]
            == before.waiting()[other]),
{
}

/// A message that came in during a wait is lost for no stop: one for another stop waits for
/// it, one for a barrier stands for it, and nothing else changes.
pub proof fn law_messages_are_kept(
    before: DecisionRegistry,
    msg: BarrierDecisionMessage,
    id: (Seq<char>, u32),
    after: DecisionRegistry,
    stop: (Seq<char>, u32),
    node: Seq<char>,
)
    requires
        received(before, msg, id, after),
    ensures
        msg matches BarrierDecisionMessage::Exact { barrier_id, decision } ==> {
            &&& after.standing() == before.standing()
            &&& barrier_id@ != id ==> after.waiting().contains_key(barrier_id@)
                && after.waiting()[barrier_id@] == decision@
            &&& stop != barrier_id@ || stop == id ==> after.waiting().contains_key(stop)
                == before.waiting().contains_key(stop)
        },
        msg matches BarrierDecisionMessage::Wildcard { node_id, decision } ==> {
            &&& after.waiting() == before.waiting()
            &&& after.standing().contains_key(node_id@)
            &&& after.standing()[node_id@] == decision@
            &&& node != node_id@ ==> after.standing().contains_key(node)
                == before.standing().contains_key(node)
        },
{
}

/// A look at the channel ends a wait only with a message that is meant for the stop, or when
/// nothing can come any more, and then with a rejection.
pub proof fn law_looks_settle_waits(poll: DecisionPoll, target: (Seq<char>, u32))
    ensures
        poll is Quiet ==> settles(poll, target) is None,
        poll is Closed ==> settles(poll, target) is Some && settles(poll, target)->0 is Reject,
        poll matches DecisionPoll::Message(m) ==> (settles(poll, target) is Some
            <==> barrier_sink::meant_for(m, target)),
        poll matches DecisionPoll::Message(m) ==> (settles(poll, target) matches Some(v) ==> v
            == barrier_sink::carried(m)@),
{
}

} // verus!
