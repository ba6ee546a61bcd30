//! The limit on the nodes that a run may run.

use vstd::prelude::*;

verus! {

/// How far a run has come: the steps that it has taken, and how many it may take.
pub struct Steps {
    pub taken: usize,
    pub limit: usize,
}

/// A run goes on. No step is taken back, and where a node is run, that is one more
/// step, within the limit.
pub open spec fn goes_on(before: Steps, after: Steps, ran: bool) -> bool {
    &&& after.limit == before.limit
    &&& after.taken >= before.taken
    &&& ran ==> before.taken < before.limit && after.taken == before.taken + 1
}

/// How many nodes were run.
pub open spec fn runs(ran: Seq<bool>) -> nat
    decreases ran.len(),
{
    if ran.len() == 0 {
        0
    } else {
        runs(ran.drop_last()) + (if ran.last() {
            1nat
        } else {
            0nat
        })
    }
}

/// A run never runs more nodes than it may, however it goes on. `history` tells how
/// far it had come before the first call and after each, `ran` whether the call let a
/// node run.
pub proof fn law_steps_are_bounded(history: Seq<Steps>, ran: Seq<bool>)
    requires
        history.len() == ran.len() + 1,
        forall|i: int|
            0 <= i < ran.len() ==> goes_on(history[i], history[i + 1], #[trigger] ran[i]),
    ensures
        runs(ran) <= history[0].limit,
        runs(ran) + history[0].taken <= history.last().taken,
        history.last().limit == history[0].limit,
    decreases ran.len(),
{
    if ran.len() > 0 {
        let front = history.drop_last();
        let earlier = ran.drop_last();
        assert forall|i: int| 0 <= i < earlier.len() implies goes_on(
            front[i],
            front[i + 1],
            #[trigger] earlier[i],
        ) by {
            assert(earlier[i] == ran[i]);
            assert(front[i] == history[i] && front[i + 1] == history[i + 1]);
        }
        law_steps_are_bounded(front, earlier);
        let n = ran.len() - 1;
        assert(goes_on(history[n], history[n + 1], ran[n]));
        assert(front.last() == history[n]);
    }
}

/// The runs of calls are counted call by call, one for each call that let a node run.
pub proof fn law_runs_are_counted(a: Seq<bool>, b: Seq<bool>)
    ensures
        runs(a + b) == runs(a) + runs(b),
        runs(seq![true]) == 1,
        runs(seq![false]) == 0,
        runs(a) <= a.len(),
    decreases a.len() + b.len(),
{
    assert(runs(seq![true].drop_last()) == 0);
    assert(runs(seq![false].drop_last()) == 0);
    if b.len() > 0 {
        assert((a + b).drop_last() =~= a + b.drop_last());
        law_runs_are_counted(a, b.drop_last());
    } else {
        assert(a + b =~= a);
        if a.len() > 0 {
            law_runs_are_counted(a.drop_last(), b);
        }
    }
}

} // verus!
