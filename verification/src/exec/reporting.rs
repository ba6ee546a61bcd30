//! What the events of a whole run have in common: one of them ends it, and every node
//! that starts ends.

use vstd::prelude::*;

use crate::event::GraphEvent;
use crate::ids::SpanId;
use crate::state::workflow_state::WorkflowState;

verus! {

/// The event ends a run.
pub open spec fn is_terminal<S: WorkflowState, P>(e: GraphEvent<S, P>) -> bool {
    e is GraphComplete || e is GraphError
}

/// A run that is over says so with its last event, and with no other; a run that
/// goes on says nothing of the kind.
pub open spec fn ends_rightly<S: WorkflowState, P>(
    events: Seq<GraphEvent<S, P>>,
    over: bool,
) -> bool {
    if over {
        &&& events.len() > 0
        &&& is_terminal(events.last())
        &&& forall|i: int| 0 <= i < events.len() - 1 ==> !is_terminal(#[trigger] events[i])
    } else {
        forall|i: int| 0 <= i < events.len() ==> !is_terminal(#[trigger] events[i])
    }
}

/// How many events end a run.
pub open spec fn terminal_count<S: WorkflowState, P>(events: Seq<GraphEvent<S, P>>) -> nat
    decreases events.len(),
{
    if events.len() == 0 {
        0
    } else {
        terminal_count(events.drop_last()) + (if is_terminal(events.last()) {
            1nat
        } else {
            0nat
        })
    }
}

proof fn lemma_no_terminal<S: WorkflowState, P>(events: Seq<GraphEvent<S, P>>)
    requires
        forall|i: int| 0 <= i < events.len() ==> !is_terminal(#[trigger] events[i]),
    ensures
        terminal_count(events) == 0,
    decreases events.len(),
{
    if events.len() > 0 {
        assert(!is_terminal(events[events.len() - 1]));
        let front = events.drop_last();
        assert forall|i: int| 0 <= i < front.len() implies !is_terminal(#[trigger] front[i]) by {
            assert(front[i] == events[i]);
        }
        lemma_no_terminal(front);
    }
}

proof fn lemma_count_concat<S: WorkflowState, P>(
    a: Seq<GraphEvent<S, P>>,
    b: Seq<GraphEvent<S, P>>,
)
    ensures
        terminal_count(a + b) == terminal_count(a) + terminal_count(b),
    decreases b.len(),
{
    if b.len() == 0 {
        assert(a + b =~= a);
    } else {
        assert((a + b).drop_last() =~= a + b.drop_last());
        lemma_count_concat(a, b.drop_last());
    }
}

/// The events of a run, given those of its calls in order.
pub open spec fn all_events<S: WorkflowState, P>(calls: Seq<Seq<GraphEvent<S, P>>>) -> Seq<
    GraphEvent<S, P>,
>
    decreases calls.len(),
{
    if calls.len() == 0 {
        Seq::empty()
    } else {
        all_events(calls.drop_last()) + calls.last()
    }
}

/// Over a whole run, one event ends it if the run is over, and none if it is not,
/// whatever was run, decided or saved in between. `over` tells of each call whether
/// the run was over after it; no call follows one after which it was.
pub proof fn law_one_end<S: WorkflowState, P>(
    calls: Seq<Seq<GraphEvent<S, P>>>,
    over: Seq<bool>,
)
    requires
        calls.len() > 0,
        over.len() == calls.len(),
        forall|i: int| 0 <= i < calls.len() ==> ends_rightly(#[trigger] calls[i], over[i]),
        forall|i: int| 0 <= i < over.len() - 1 ==> !#[trigger] over[i],
    ensures
        terminal_count(all_events(calls)) == (if over.last() {
            1nat
        } else {
            0nat
        }),
    decreases calls.len(),
{
    let front = calls.drop_last();
    let last = calls[calls.len() - 1];
    lemma_count_concat(all_events(front), last);
    if over.last() {
        let before = last.drop_last();
        assert forall|i: int| 0 <= i < before.len() implies !is_terminal(#[trigger] before[i]) by {
            assert(before[i] == last[i]);
        }
        lemma_no_terminal(before);
    } else {
        lemma_no_terminal(last);
    }
    if front.len() > 0 {
        let went_on = over.drop_last();
        assert forall|i: int| 0 <= i < front.len() implies ends_rightly(
            #[trigger] front[i],
            went_on[i],
        ) by {
            assert(front[i] == calls[i]);
        }
        assert forall|i: int| 0 <= i < went_on.len() - 1 implies !#[trigger] went_on[i] by {
            assert(went_on[i] == over[i]);
        }
        assert(!over[over.len() - 2]);
        law_one_end(front, went_on);
    } else {
        assert(all_events(front).len() == 0);
    }
}

/// What one who watches the events of a run knows: the execution and the name of the
/// node that runs now, and whether a decision was reported just before.
pub struct Watch {
    pub running: Option<(SpanId, Seq<char>)>,
    pub resolved: bool,
}

/// What is known after an event, or nothing if the event is out of place. A node
/// starts where none runs, and only the node that runs ends; a run ends where none
/// runs. Where decisions end nodes `again`, the end of a node may be reported once
/// more right after a decision.
pub open spec fn watched<S: WorkflowState, P>(
    known: Watch,
    e: GraphEvent<S, P>,
    again: bool,
) -> Option<Watch> {
    match e {
        GraphEvent::NodeStart { node_name, span_id, .. } => if known.running is None {
            Some(Watch { running: Some((span_id, node_name@)), resolved: false })
        } else {
            None
        },
        GraphEvent::NodeEnd { node_name, span_id, .. } => match known.running {
            Some(r) => if r == (span_id, node_name@) {
                Some(Watch { running: None, resolved: false })
            } else {
                None
            },
            None => if again && known.resolved {
                Some(Watch { running: None, resolved: false })
            } else {
                None
            },
        },
        GraphEvent::BarrierResolved { .. } => if known.running is None {
            Some(Watch { running: None, resolved: true })
        } else {
            None
        },
        GraphEvent::GraphComplete { .. } => if known.running is None {
            Some(Watch { running: None, resolved: false })
        } else {
            None
        },
        GraphEvent::GraphError { .. } => if known.running is None {
            Some(Watch { running: None, resolved: false })
        } else {
            None
        },
        _ => Some(Watch { running: known.running, resolved: false }),
    }
}

/// What is known after events, or nothing if one is out of place.
pub open spec fn watched_all<S: WorkflowState, P>(
    known: Watch,
    events: Seq<GraphEvent<S, P>>,
    again: bool,
) -> Option<Watch>
    decreases events.len(),
{
    if events.len() == 0 {
        Some(known)
    } else {
        match watched_all(known, events.drop_last(), again) {
            Some(w) => watched(w, events.last(), again),
            None => None,
        }
    }
}

/// The events are in place where `before` runs, and leave `after` running.
pub open spec fn in_place<S: WorkflowState, P>(
    before: Option<(SpanId, Seq<char>)>,
    events: Seq<GraphEvent<S, P>>,
    after: Option<(SpanId, Seq<char>)>,
    again: bool,
) -> bool {
    watched_all(Watch { running: before, resolved: false }, events, again) matches Some(w)
        && w.running == after
}

/// One event in place.
pub proof fn lemma_one<S: WorkflowState, P>(
    known: Watch,
    events: Seq<GraphEvent<S, P>>,
    again: bool,
)
    requires
        events.len() == 1,
    ensures
        watched_all(known, events, again) == watched(known, events[0], again),
{
    assert(watched_all(known, events.drop_last(), again) == Some(known));
}

/// Two events in place.
pub proof fn lemma_two<S: WorkflowState, P>(
    known: Watch,
    events: Seq<GraphEvent<S, P>>,
    again: bool,
)
    requires
        events.len() == 2,
    ensures
        watched_all(known, events, again) == (match watched(known, events[0], again) {
            Some(w) => watched(w, events[1], again),
            None => None,
        }),
{
    assert(events.drop_last()[0] == events[0]);
    lemma_one(known, events.drop_last(), again);
}

/// Events within a node are in place wherever they come.
pub proof fn lemma_inner_events<S: WorkflowState, P>(
    running: Option<(SpanId, Seq<char>)>,
    events: Seq<GraphEvent<S, P>>,
    again: bool,
)
    requires
        forall|i: int| 0 <= i < events.len() ==> (#[trigger] events[i]) is Node,
    ensures
        in_place(running, events, running, again),
    decreases events.len(),
{
    if events.len() > 0 {
        let front = events.drop_last();
        assert forall|i: int| 0 <= i < front.len() implies (#[trigger] front[i]) is Node by {
            assert(front[i] == events[i]);
        }
        lemma_inner_events(running, front, again);
        assert(events[events.len() - 1] is Node);
    }
}

/// Events that were in place before others go on from what those leave.
pub proof fn lemma_watched_concat<S: WorkflowState, P>(
    known: Watch,
    a: Seq<GraphEvent<S, P>>,
    b: Seq<GraphEvent<S, P>>,
    again: bool,
)
    ensures
        watched_all(known, a + b, again) == (match watched_all(known, a, again) {
            Some(w) => watched_all(w, b, again),
            None => None,
        }),
    decreases b.len(),
{
    if b.len() == 0 {
        assert(a + b =~= a);
    } else {
        assert((a + b).drop_last() =~= a + b.drop_last());
        assert((a + b).last() == b.last());
        lemma_watched_concat(known, a, b.drop_last(), again);
    }
}

/// A decision that was reported before takes nothing away.
proof fn lemma_resolved_before<S: WorkflowState, P>(
    running: Option<(SpanId, Seq<char>)>,
    events: Seq<GraphEvent<S, P>>,
    after: Option<(SpanId, Seq<char>)>,
    again: bool,
)
    requires
        in_place(running, events, after, again),
    ensures
        watched_all(Watch { running, resolved: true }, events, again) matches Some(w) && w.running
            == after,
        events.len() > 0 ==> watched_all(Watch { running, resolved: true }, events, again)
            == watched_all(Watch { running, resolved: false }, events, again),
    decreases events.len(),
{
    if events.len() > 0 {
        let front = events.drop_last();
        let w = watched_all(Watch { running, resolved: false }, front, again);
        lemma_resolved_before(running, front, w->0.running, again);
        if front.len() == 0 {
            assert(w == Some(Watch { running, resolved: false }));
        }
    }
}

/// Events in place may follow others.
pub proof fn lemma_follows<S: WorkflowState, P>(
    before: Option<(SpanId, Seq<char>)>,
    a: Seq<GraphEvent<S, P>>,
    between: Option<(SpanId, Seq<char>)>,
    b: Seq<GraphEvent<S, P>>,
    after: Option<(SpanId, Seq<char>)>,
    again: bool,
)
    requires
        in_place(before, a, between, again),
        in_place(between, b, after, again),
    ensures
        in_place(before, a + b, after, again),
{
    let start = Watch { running: before, resolved: false };
    lemma_watched_concat(start, a, b, again);
    let w = watched_all(start, a, again)->0;
    if w.resolved {
        lemma_resolved_before(between, b, after, again);
    }
}

/// Over a whole run, every node that starts ends once, under the same name and the
/// same execution, before another starts and before the run ends. `running` tells of
/// each call which node ran after it.
pub proof fn law_starts_have_ends<S: WorkflowState, P>(
    calls: Seq<Seq<GraphEvent<S, P>>>,
    running: Seq<Option<(SpanId, Seq<char>)>>,
    again: bool,
)
    requires
        calls.len() > 0,
        running.len() == calls.len(),
        forall|i: int|
            0 <= i < calls.len() ==> in_place(
                if i == 0 {
                    None
                } else {
                    running[i - 1]
                },
                #[trigger] calls[i],
                running[i],
                again,
            ),
    ensures
        in_place(None, all_events(calls), running.last(), again),
    decreases calls.len(),
{
    let front = calls.drop_last();
    let last = calls[calls.len() - 1];
    if front.len() > 0 {
        let earlier = running.drop_last();
        assert forall|i: int| 0 <= i < front.len() implies in_place(
            if i == 0 {
                None
            } else {
                earlier[i - 1]
            },
            #[trigger] front[i],
            earlier[i],
            again,
        ) by {
            assert(front[i] == calls[i]);
        }
        law_starts_have_ends(front, earlier, again);
        lemma_follows(
            None,
            all_events(front),
            running[running.len() - 2],
            last,
            running.last(),
            again,
        );
    } else {
        assert(all_events(front).len() == 0);
        assert(all_events(calls) =~= last);
    }
}

/// How many events end a run, told event by event.
pub proof fn law_ends_are_counted<S: WorkflowState, P>(
    a: Seq<GraphEvent<S, P>>,
    b: Seq<GraphEvent<S, P>>,
    e: GraphEvent<S, P>,
)
    ensures
        terminal_count(a + b) == terminal_count(a) + terminal_count(b),
        terminal_count(seq![e]) == (match e {
            GraphEvent::GraphComplete { .. } => 1nat,
            GraphEvent::GraphError { .. } => 1nat,
            _ => 0nat,
        }),
{
    lemma_count_concat(a, b);
    assert(terminal_count(seq![e].drop_last()) == 0);
}

/// The events of calls come in the order of the calls.
pub proof fn law_events_come_in_order<S: WorkflowState, P>(
    a: Seq<Seq<GraphEvent<S, P>>>,
    b: Seq<Seq<GraphEvent<S, P>>>,
    call: Seq<GraphEvent<S, P>>,
)
    ensures
        all_events(a + b) == all_events(a) + all_events(b),
        all_events(seq![call]) == call,
    decreases b.len(),
{
    assert(all_events(seq![call].drop_last()) =~= Seq::empty());
    assert(all_events(seq![call]) =~= call);
    if b.len() == 0 {
        assert(a + b =~= a);
        assert(all_events(a + b) =~= all_events(a) + all_events(b));
    } else {
        assert((a + b).drop_last() =~= a + b.drop_last());
        law_events_come_in_order(a, b.drop_last(), call);
        assert(all_events(a + b) =~= all_events(a) + all_events(b));
    }
}

/// No node starts or ends and no run ends with the event.
pub open spec fn is_between<S: WorkflowState, P>(e: GraphEvent<S, P>) -> bool {
    !(e is NodeStart) && !(e is NodeEnd) && !(e is GraphComplete) && !(e is GraphError)
}

/// The event is the end of this execution of this node.
pub open spec fn is_end_of<S: WorkflowState, P>(
    e: GraphEvent<S, P>,
    span: SpanId,
    name: Seq<char>,
) -> bool {
    e matches GraphEvent::NodeEnd { node_name, span_id, .. } && span_id == span && node_name@
        == name
}

/// The event is the start of this execution of this node.
pub open spec fn is_start_of<S: WorkflowState, P>(
    e: GraphEvent<S, P>,
    span: SpanId,
    name: Seq<char>,
) -> bool {
    e matches GraphEvent::NodeStart { node_name, span_id, .. } && span_id == span && node_name@
        == name
}

proof fn lemma_runs_until_its_end<S: WorkflowState, P>(
    known: Watch,
    events: Seq<GraphEvent<S, P>>,
    again: bool,
    span: SpanId,
    name: Seq<char>,
)
    requires
        known.running == Some((span, name)),
        watched_all(known, events, again) is Some,
    ensures
        (watched_all(known, events, again)->0.running == known.running && forall|k: int|
            0 <= k < events.len() ==> is_between(#[trigger] events[k])) || exists|j: int|
            0 <= j < events.len() && is_end_of(#[trigger] events[j], span, name) && (forall|k: int| 0 <= k < j ==> is_between(#[trigger] events[k])),
    decreases events.len(),
{
    if events.len() > 0 {
        let front = events.drop_last();
        let n = front.len() as int;
        lemma_runs_until_its_end(known, front, again, span, name);
        if watched_all(known, front, again)->0.running == known.running && (forall|k: int|
            0 <= k < front.len() ==> is_between(#[trigger] front[k])) {
            assert forall|k: int| 0 <= k < n implies is_between(#[trigger] events[k]) by {
                assert(front[k] == events[k]);
            }
            assert(events[n] == events.last());
            if events[n] is NodeEnd {
                assert(is_end_of(events[n], span, name));
            } else {
                assert(is_between(events[n]));
            }
        } else {
            let j = choose|j: int|
                0 <= j < front.len() && is_end_of(#[trigger] front[j], span, name) && (forall|k: int| 0 <= k < j ==> is_between(#[trigger] front[k]));
            assert(events[j] == front[j]);
            assert forall|k: int| 0 <= k < j implies is_between(#[trigger] events[k]) by {
                assert(front[k] == events[k]);
            }
        }
    }
}

/// A node that starts ends under the same name and the same execution before any node
/// starts or the run ends; or nothing of the kind was reported yet, and it still runs.
pub proof fn law_a_start_has_its_end<S: WorkflowState, P>(
    events: Seq<GraphEvent<S, P>>,
    after: Option<(SpanId, Seq<char>)>,
    again: bool,
    i: int,
    span: SpanId,
    name: Seq<char>,
)
    requires
        in_place(None, events, after, again),
        0 <= i < events.len(),
        is_start_of(events[i], span, name),
    ensures
        (after == Some((span, name)) && forall|k: int|
            i < k < events.len() ==> is_between(#[trigger] events[k])) || exists|j: int|
            i < j < events.len() && is_end_of(#[trigger] events[j], span, name) && (forall|k: int|
                i < k < j ==> is_between(#[trigger] events[k])),
{
    let none = Watch { running: None, resolved: false };
    let front = events.take(i + 1);
    let rest = events.skip(i + 1);
    assert(events =~= front + rest);
    lemma_watched_concat(none, front, rest, again);
    let w = watched_all(none, front, again)->0;
    assert(front.last() == events[i]);
    assert(w.running == Some((span, name)));
    lemma_runs_until_its_end(w, rest, again, span, name);
    assert forall|k: int| i < k < events.len() implies #[trigger] events[k] == rest[k - i - 1] by {}
    if exists|j: int|
        0 <= j < rest.len() && is_end_of(#[trigger] rest[j], span, name) && (forall|k: int|
            0 <= k < j ==> is_between(#[trigger] rest[k])) {
        let j = choose|j: int|
            0 <= j < rest.len() && is_end_of(#[trigger] rest[j], span, name) && (forall|k: int|
                0 <= k < j ==> is_between(#[trigger] rest[k]));
        assert(events[i + 1 + j] == rest[j]);
        assert forall|k: int| i < k < i + 1 + j implies is_between(#[trigger] events[k]) by {
            assert(is_between(rest[k - i - 1]));
        }
    } else {
        assert forall|k: int| i < k < events.len() implies is_between(#[trigger] events[k]) by {
            assert(is_between(rest[k - i - 1]));
        }
    }
}

proof fn lemma_runs_since_its_start<S: WorkflowState, P>(events: Seq<GraphEvent<S, P>>, again: bool)
    requires
        watched_all(Watch { running: None, resolved: false }, events, again) is Some,
    ensures
        watched_all(Watch { running: None, resolved: false }, events, again)->0.running matches Some(
            r,
        ) ==> exists|i: int|
            0 <= i < events.len() && is_start_of(#[trigger] events[i], r.0, r.1) && (forall|k: int|
                i < k < events.len() ==> is_between(#[trigger] events[k])),
    decreases events.len(),
{
    let none = Watch { running: None, resolved: false };
    if events.len() > 0 {
        let front = events.drop_last();
        let n = front.len() as int;
        lemma_runs_since_its_start(front, again);
        if let Some(r) = watched_all(none, events, again)->0.running {
            assert(events[n] == events.last());
            if events[n] is NodeStart {
                assert(is_start_of(events[n], r.0, r.1));
            } else {
                let i = choose|i: int|
                    0 <= i < front.len() && is_start_of(#[trigger] front[i], r.0, r.1) && (forall|
                        k: int,
                    |
                        i < k < front.len() ==> is_between(#[trigger] front[k]));
                assert(events[i] == front[i]);
                assert forall|k: int| i < k < events.len() implies is_between(
                    #[trigger] events[k],
                ) by {
                    if k < n {
                        assert(front[k] == events[k]);
                    }
                }
            }
        }
    }
}

/// A node that ends was started under the same name and the same execution, and between
/// the two no node starts or ends. Where decisions end nodes once more, this holds of
/// every end that does not follow a decision at once.
pub proof fn law_an_end_has_its_start<S: WorkflowState, P>(
    events: Seq<GraphEvent<S, P>>,
    after: Option<(SpanId, Seq<char>)>,
    again: bool,
    j: int,
    span: SpanId,
    name: Seq<char>,
)
    requires
        in_place(None, events, after, again),
        0 <= j < events.len(),
        is_end_of(events[j], span, name),
        again ==> j == 0 || !(events[j - 1] is BarrierResolved),
    ensures
        exists|i: int|
            0 <= i < j && is_start_of(#[trigger] events[i], span, name) && (forall|k: int|
                i < k < j ==> is_between(#[trigger] events[k])),
{
    let none = Watch { running: None, resolved: false };
    let front = events.take(j);
    let upto = events.take(j + 1);
    let rest = events.skip(j + 1);
    assert(events =~= upto + rest);
    lemma_watched_concat(none, upto, rest, again);
    assert(upto.drop_last() =~= front);
    assert(upto.last() == events[j]);
    let w = watched_all(none, front, again)->0;
    if j > 0 {
        assert(front.last() == events[j - 1]);
    }
    assert(w.running == Some((span, name)));
    lemma_runs_since_its_start(front, again);
    let i = choose|i: int|
        0 <= i < front.len() && is_start_of(#[trigger] front[i], span, name) && (forall|k: int|
            i < k < front.len() ==> is_between(#[trigger] front[k]));
    assert(events[i] == front[i]);
    assert forall|k: int| i < k < j implies is_between(#[trigger] events[k]) by {
        assert(front[k] == events[k]);
    }
}

/// A run does not end while a node runs: when it ends, every node that was started has
/// ended.
pub proof fn law_a_run_ends_between_nodes<S: WorkflowState, P>(
    events: Seq<GraphEvent<S, P>>,
    after: Option<(SpanId, Seq<char>)>,
    again: bool,
    i: int,
    k: int,
    span: SpanId,
    name: Seq<char>,
)
    requires
        in_place(None, events, after, again),
        0 <= i < k < events.len(),
        is_start_of(events[i], span, name),
        events[k] is GraphComplete || events[k] is GraphError,
    ensures
        exists|j: int| i < j < k && is_end_of(#[trigger] events[j], span, name),
{
    law_a_start_has_its_end(events, after, again, i, span, name);
    assert(!is_between(events[k]));
    let j = choose|j: int|
        i < j < events.len() && is_end_of(#[trigger] events[j], span, name) && (forall|k: int|
            i < k < j ==> is_between(#[trigger] events[k]));
    assert(i < j < k && is_end_of(events[j], span, name));
}

} // verus!
