//! The trace of a run: which node made which changes.

use vstd::prelude::*;

use crate::checkpoint::checkpoint_data::NodeId;
use crate::json::Value;

verus! {

/// The changes of one step. `E` is the type of changes.
#[derive(Debug)]
pub struct TraceStep<E> {
    pub step: usize,
    pub node_id: NodeId,
    pub mutations: Vec<E>,
}

/// The changes of a run, step by step.
#[derive(Debug)]
pub struct ExecutionTrace<E> {
    pub steps: Vec<TraceStep<E>>,
}

impl<E> ExecutionTrace<E> {
    /// No steps.
    pub fn new() -> (t: Self)
        ensures
            t.steps@ == Seq::<TraceStep<E>>::empty(),
    {
        ExecutionTrace { steps: Vec::new() }
    }

    /// Adds a step at the end.
    pub fn push(&mut self, step: TraceStep<E>)
        ensures
            final(self).steps@ == old(self).steps@.push(step),
    {
        self.steps.push(step);
    }

    /// The number of steps.
    pub fn len(&self) -> (n: usize)
        ensures
            n == self.steps@.len(),
    {
        self.steps.len()
    }

    /// Whether there is no step.
    pub fn is_empty(&self) -> (empty: bool)
        ensures
            empty == (self.steps@.len() == 0),
    {
        self.steps.len() == 0
    }
}

impl<E> Default for ExecutionTrace<E> {
    fn default() -> (t: Self)
        ensures
            t.steps@ == Seq::<TraceStep<E>>::empty(),
    {
        ExecutionTrace::new()
    }
}

/// One who is told of every step.
pub trait TraceSink<E>: Sized {
    /// What being told of a step does. An implementation that leaves this
    /// out promises nothing.
    open spec fn recorded(before: Self, after: Self, step: TraceStep<E>) -> bool {
        true
    }

    /// Tells of a step.
    fn record_step(&mut self, step: TraceStep<E>)
        ensures
            Self::recorded(*old(self), *final(self), step),
    ;
}

/// How many steps a sink keeps unless told otherwise.
pub const DEFAULT_MAX_STEPS: usize = 10_000;

/// The last `max` items.
pub open spec fn latest<A>(items: Seq<A>, max: nat) -> Seq<A> {
    if items.len() > max {
        items.skip(items.len() - max)
    } else {
        items
    }
}

/// The sink that keeps the latest steps, as many as it may.
#[derive(Debug)]
pub struct MemoryTraceSink<E> {
    pub trace: ExecutionTrace<E>,
    pub max_steps: usize,
}

impl<E> MemoryTraceSink<E> {
    /// A sink that keeps ten thousand steps.
    pub fn new() -> (s: Self)
        ensures
            s.trace.steps@ == Seq::<TraceStep<E>>::empty(),
            s.max_steps == DEFAULT_MAX_STEPS,
    {
        MemoryTraceSink { trace: ExecutionTrace::new(), max_steps: DEFAULT_MAX_STEPS }
    }

    /// A sink that keeps so many steps.
    pub fn with_max_steps(max: usize) -> (s: Self)
        ensures
            s.trace.steps@ == Seq::<TraceStep<E>>::empty(),
            s.max_steps == max,
    {
        MemoryTraceSink { trace: ExecutionTrace::new(), max_steps: max }
    }

    /// The trace.
    pub fn into_trace(self) -> (t: ExecutionTrace<E>)
        ensures
            t == self.trace,
    {
        self.trace
    }
}

impl<E> Default for MemoryTraceSink<E> {
    fn default() -> (s: Self)
        ensures
            s.trace.steps@ == Seq::<TraceStep<E>>::empty(),
            s.max_steps == DEFAULT_MAX_STEPS,
    {
        MemoryTraceSink::new()
    }
}

impl<E> TraceSink<E> for MemoryTraceSink<E> {
    /// The step comes last; the oldest steps go where there are too many.
    open spec fn recorded(before: Self, after: Self, step: TraceStep<E>) -> bool {
        &&& after.max_steps == before.max_steps
        &&& after.trace.steps@ == latest(
            before.trace.steps@.push(step),
            before.max_steps as nat,
        )
    }

    fn record_step(&mut self, step: TraceStep<E>) {
        self.trace.push(step);
        let ghost all = self.trace.steps@;
        let ghost max = self.max_steps;
        assert(all.skip(0) =~= all);
        while self.trace.steps.len() > self.max_steps
            invariant
                self.max_steps == max,
                self.trace.steps@.len() <= all.len(),
                self.trace.steps@.len() >= max || self.trace.steps@.len() == all.len(),
                self.trace.steps@ == all.skip(all.len() - self.trace.steps@.len()),
            decreases self.trace.steps@.len(),
        {
            let ghost was = self.trace.steps@;
            self.trace.steps.remove(0);
            assert(self.trace.steps@ =~= all.skip(all.len() - was.len() + 1));
        }
        assert(self.trace.steps@ =~= latest(all, max as nat));
    }
}

/// A sink never keeps more steps than it may, once it does not.
pub proof fn law_trace_is_bounded<E>(
    before: MemoryTraceSink<E>,
    after: MemoryTraceSink<E>,
    step: TraceStep<E>,
)
    requires
        <MemoryTraceSink<E> as TraceSink<E>>::recorded(before, after, step),
    ensures
        after.trace.steps@.len() <= after.max_steps,
        after.max_steps > 0 ==> after.trace.steps@.last() == step,
{
}

/// A trace whose changes are JSON.
pub struct ExportedTrace {
    pub steps: Vec<ExportedTraceStep>,
}

/// A step whose changes are JSON.
pub struct ExportedTraceStep {
    pub step: usize,
    pub node_id: String,
    pub mutations: Vec<Value>,
}

/// The values are those that writing down the changes gives, in order, without
/// those that cannot be written down.
pub open spec fn written<E, W: Fn(&E) -> Option<Value>>(
    write: W,
    changes: Seq<E>,
    values: Seq<Value>,
) -> bool
    decreases changes.len(),
{
    if changes.len() == 0 {
        values.len() == 0
    } else {
        exists|out: Option<Value>| #[trigger]
            call_ensures(write, (&changes.last(),), out) && (match out {
                Some(v) => values.len() > 0 && values.last() == v && written(
                    write,
                    changes.drop_last(),
                    values.drop_last(),
                ),
                None => written(write, changes.drop_last(), values),
            })
    }
}

fn write_changes<E, W: Fn(&E) -> Option<Value>>(changes: &Vec<E>, write: &W) -> (values: Vec<Value>)
    requires
        forall|e: E| #[trigger] call_requires(write, (&e,)),
    ensures
        written(*write, changes@, values@),
{
    let mut values: Vec<Value> = Vec::new();
    let mut i: usize = 0;
    assert(changes@.take(0) =~= Seq::empty());
    while i < changes.len()
        invariant
            i <= changes@.len(),
            forall|e: E| #[trigger] call_requires(write, (&e,)),
            written(*write, changes@.take(i as int), values@),
        decreases changes@.len() - i,
    {
        let ghost was = values@;
        assert(call_requires(write, (&changes@[i as int],)));
        let out = write(&changes[i]);
        proof {
            let now = changes@.take(i + 1);
            assert(now.drop_last() =~= changes@.take(i as int));
            assert(now.last() == changes@[i as int]);
            assert(call_ensures(*write, (&now.last(),), out));
        }
        match out {
            Some(v) => {
                values.push(v);
                assert(values@.drop_last() =~= was);
            },
            None => {},
        }
        assert(written(*write, changes@.take(i + 1), values@));
        i += 1;
    }
    assert(changes@.take(changes@.len() as int) =~= changes@);
    values
}

impl<E> ExecutionTrace<E> {
    /// The trace with its changes written down by `write`. A change that cannot be
    /// written down is left out.
    pub fn export<W: Fn(&E) -> Option<Value>>(&self, write: &W) -> (t: ExportedTrace)
        requires
            forall|e: E| #[trigger] call_requires(write, (&e,)),
        ensures
            t.steps@.len() == self.steps@.len(),
            forall|i: int|
                0 <= i < self.steps@.len() ==> (#[trigger] t.steps@[i]).step == self.steps@[i].step
                    && t.steps@[i].node_id@ == self.steps@[i].node_id.0@ && written(
                    *write,
                    self.steps@[i].mutations@,
                    t.steps@[i].mutations@,
                ),
    {
        let mut steps: Vec<ExportedTraceStep> = Vec::new();
        let mut i: usize = 0;
        while i < self.steps.len()
            invariant
                i <= self.steps@.len(),
                steps@.len() == i,
                forall|e: E| #[trigger] call_requires(write, (&e,)),
                forall|j: int|
                    0 <= j < i ==> (#[trigger] steps@[j]).step == self.steps@[j].step
                        && steps@[j].node_id@ == self.steps@[j].node_id.0@ && written(
                        *write,
                        self.steps@[j].mutations@,
                        steps@[j].mutations@,
                    ),
            decreases self.steps@.len() - i,
        {
            let s = &self.steps[i];
            let mutations = write_changes(&s.mutations, write);
            steps.push(
                ExportedTraceStep { step: s.step, node_id: s.node_id.0.clone(), mutations },
            );
            i += 1;
        }
        ExportedTrace { steps }
    }
}

/// The steps that are kept are the last ones, as many as may be, in order; what is recorded
/// comes last, and only the oldest go.
pub proof fn law_traces_keep_the_latest<E>(
    before: MemoryTraceSink<E>,
    after: MemoryTraceSink<E>,
    step: TraceStep<E>,
)
    requires
        <MemoryTraceSink<E> as TraceSink<E>>::recorded(before, after, step),
    ensures
        after.max_steps == before.max_steps,
        after.trace.steps@.len() == (if before.trace.steps@.len() + 1 <= before.max_steps {
            before.trace.steps@.len() + 1
        } else {
            before.max_steps as nat
        }),
        before.trace.steps@.len() < before.max_steps ==> after.trace.steps@.drop_last()
            == before.trace.steps@,
        forall|i: int|
            0 <= i < after.trace.steps@.len() ==> #[trigger] after.trace.steps@[i]
                == before.trace.steps@.push(step)[before.trace.steps@.len() + 1
                - after.trace.steps@.len() + i],
{
    if before.trace.steps@.len() < before.max_steps {
        assert(after.trace.steps@.drop_last() =~= before.trace.steps@);
    }
}

/// What is exported of several changes is what is exported of each, in order; a change that
/// cannot be written down is left out.
pub proof fn law_changes_are_exported<E, W: Fn(&E) -> Option<Value>>(
    write: W,
    changes: Seq<E>,
    values: Seq<Value>,
    change: E,
    v: Value,
)
    ensures
        written(write, Seq::<E>::empty(), values) <==> values.len() == 0,
        written(write, changes, values) && call_ensures(write, (&change,), Some(v)) ==> written(
            write,
            changes.push(change),
            values.push(v),
        ),
        written(write, changes, values) && call_ensures(write, (&change,), None::<Value>)
            ==> written(write, changes.push(change), values),
        written(write, changes, values) ==> values.len() <= changes.len(),
    decreases changes.len(),
{
    let more = changes.push(change);
    assert(more.drop_last() =~= changes);
    assert(more.last() == change);
    assert(values.push(v).drop_last() =~= values);
    if written(write, changes, values) && call_ensures(write, (&change,), Some(v)) {
        let out = Some(v);
        assert(call_ensures(write, (&more.last(),), out));
    }
    if written(write, changes, values) && call_ensures(write, (&change,), None::<Value>) {
        let out = None::<Value>;
        assert(call_ensures(write, (&more.last(),), out));
    }
    if changes.len() > 0 && written(write, changes, values) {
        let out = choose|out: Option<Value>| #[trigger]
            call_ensures(write, (&changes.last(),), out) && (match out {
                Some(x) => values.len() > 0 && values.last() == x && written(
                    write,
                    changes.drop_last(),
                    values.drop_last(),
                ),
                None => written(write, changes.drop_last(), values),
            });
        match out {
            Some(_) => law_changes_are_exported(
                write,
                changes.drop_last(),
                values.drop_last(),
                change,
                v,
            ),
            None => law_changes_are_exported(write, changes.drop_last(), values, change, v),
        }
    }
}

} // verus!
