//! A log of the changes of runs, apart from checkpoints, for audit and replay.

use std::collections::HashMap;
use std::time::SystemTime;
use vstd::prelude::*;

use crate::checkpoint::checkpoint_data;
use crate::checkpoint::checkpoint_data::{CheckpointId, NodeId};
use crate::ids::TraceId;
use crate::json::{Json, Value};

verus! {

broadcast use vstd::std_specs::hash::group_hash_axioms;

/// One change of a run, written down.
pub struct MutationLogEntry {
    pub trace_id: TraceId,
    /// The step in which the change was made.
    pub step: usize,
    pub node_id: NodeId,
    /// The checkpoint that belongs to the step, if there is one.
    pub checkpoint_id: Option<CheckpointId>,
    /// The place of the change within its step.
    pub mutation_index: usize,
    pub mutation: Value,
    pub timestamp: SystemTime,
}

/// What an entry says.
pub struct Record {
    pub trace_id: TraceId,
    pub step: usize,
    pub node_id: Seq<char>,
    pub checkpoint_id: Option<CheckpointId>,
    pub mutation_index: usize,
    pub mutation: Json,
    pub timestamp: SystemTime,
}

impl View for MutationLogEntry {
    type V = Record;

    open spec fn view(&self) -> Record {
        Record {
            trace_id: self.trace_id,
            step: self.step,
            node_id: self.node_id.0@,
            checkpoint_id: self.checkpoint_id,
            mutation_index: self.mutation_index,
            mutation: self.mutation@,
            timestamp: self.timestamp,
        }
    }
}

impl MutationLogEntry {
    /// An entry that is made now.
    pub fn new(
        trace_id: TraceId,
        step: usize,
        node_id: NodeId,
        checkpoint_id: Option<CheckpointId>,
        mutation_index: usize,
        mutation: Value,
    ) -> (e: Self)
        ensures
            e == (MutationLogEntry {
                trace_id,
                step,
                node_id,
                checkpoint_id,
                mutation_index,
                mutation,
                timestamp: e.timestamp,
            }),
    {
        MutationLogEntry {
            trace_id,
            step,
            node_id,
            checkpoint_id,
            mutation_index,
            mutation,
            timestamp: checkpoint_data::system_now(),
        }
    }
}

impl Clone for MutationLogEntry {
    fn clone(&self) -> (copy: Self)
        ensures
            copy@ == self@,
    {
        MutationLogEntry {
            trace_id: self.trace_id,
            step: self.step,
            node_id: self.node_id.clone(),
            checkpoint_id: self.checkpoint_id,
            mutation_index: self.mutation_index,
            mutation: self.mutation.clone(),
            timestamp: self.timestamp,
        }
    }
}

/// What entries say, in order.
pub open spec fn records(entries: Seq<MutationLogEntry>) -> Seq<Record> {
    entries.map_values(|e: MutationLogEntry| e@)
}

/// The record belongs to a run.
pub open spec fn of_run(run: u128) -> spec_fn(Record) -> bool {
    |r: Record| r.trace_id.0 == run
}

/// The record belongs to a step or a later one.
pub open spec fn from_step(step: usize) -> spec_fn(Record) -> bool {
    |r: Record| r.step >= step
}

/// How many records a log holds in all.
pub open spec fn total(log: Map<u128, Seq<Record>>) -> nat
    decreases log.dom().len(),
{
    if log.dom().finite() && log.dom().len() > 0 {
        let run = log.dom().choose();
        log[run].len() + total(log.remove(run))
    } else {
        0
    }
}

/// The records of any one run can be counted apart.
proof fn lemma_total_apart(log: Map<u128, Seq<Record>>, run: u128)
    requires
        log.dom().finite(),
        log.contains_key(run),
    ensures
        total(log) == log[run].len() + total(log.remove(run)),
    decreases log.dom().len(),
{
    let first = log.dom().choose();
    if first != run {
        let rest = log.remove(first);
        assert(rest.dom() =~= log.dom().remove(first));
        lemma_total_apart(rest, run);
        let other = log.remove(run);
        assert(other.dom() =~= log.dom().remove(run));
        assert(other.contains_key(first));
        lemma_total_apart(other, first);
        assert(rest.remove(run) =~= other.remove(first));
    } else {
        assert(log.dom().len() > 0);
    }
}

/// Giving a run other records changes the count by the difference.
proof fn lemma_total_replaced(log: Map<u128, Seq<Record>>, run: u128, kept: Seq<Record>)
    requires
        log.dom().finite(),
    ensures
        total(log.insert(run, kept)) + records_of(log, run).len() == total(log) + kept.len(),
{
    let now = log.insert(run, kept);
    lemma_total_apart(now, run);
    if log.contains_key(run) {
        lemma_total_apart(log, run);
        assert(now.remove(run) =~= log.remove(run));
    } else {
        assert(now.remove(run) =~= log);
    }
}

/// The log without the runs of a sequence.
pub open spec fn without_runs(log: Map<u128, Seq<Record>>, runs: Seq<u128>) -> Map<u128, Seq<Record>> {
    log.remove_keys(runs.to_set())
}

/// A log in memory, by run.
pub struct InMemoryMutationLog {
    index: HashMap<u128, Vec<MutationLogEntry>>,
}

impl View for InMemoryMutationLog {
    type V = Map<u128, Seq<Record>>;

    closed spec fn view(&self) -> Map<u128, Seq<Record>> {
        Map::new(|run: u128| self.index@.contains_key(run), |run: u128| records(self.index@[run]@))
    }
}

/// The records of a run, in the order in which they were appended.
pub open spec fn records_of(log: Map<u128, Seq<Record>>, run: u128) -> Seq<Record> {
    if log.contains_key(run) {
        log[run]
    } else {
        Seq::empty()
    }
}

impl InMemoryMutationLog {
    /// An empty log.
    pub fn new() -> (log: Self)
        ensures
            log@ == Map::<u128, Seq<Record>>::empty(),
            total(log@) == 0,
    {
        let log = InMemoryMutationLog { index: HashMap::new() };
        assert(log@ =~= Map::<u128, Seq<Record>>::empty());
        log
    }

    /// How many records the log holds in all.
    pub fn len(&self) -> (n: usize)
        requires
            total(self@) <= usize::MAX,
        ensures
            n == total(self@),
    {
        let mut n: usize = 0;
        let ghost log = self@;
        let ghost mut done: Seq<u128> = Seq::empty();
        proof {
            assert(log.dom() =~= self.index@.dom());
            assert(without_runs(log, done) =~= log);
        }
        for run in it: self.index.keys()
            invariant
                log == self@,
                log.dom() == self.index@.dom(),
                log.dom().finite(),
                total(log) <= usize::MAX,
                it.seq().unref().to_set() == self.index@.dom(),
                it.seq().no_duplicates(),
                done =~= it.seq().unref().take(it.index() as int),
                it.index() == it.seq().len() ==> done.to_set() =~= log.dom(),
                n + total(without_runs(log, done)) == total(log),
        {
            let ghost k = it.index() as int;
            let ghost runs = it.seq().unref();
            let ghost rest = without_runs(log, runs.take(k));
            proof {
                assert(runs[k] == *run);
                assert(runs.to_set().contains(*run));
                if runs.take(k).contains(*run) {
                    let j = runs.take(k).index_of(*run);
                    assert(runs[j] == *run);
                    assert(it.seq()[j] == it.seq()[k]);
                }
                assert(rest.dom() =~= log.dom().difference(runs.take(k).to_set()));
                lemma_total_apart(rest, *run);
                assert(rest.remove(*run) =~= without_runs(log, runs.take(k + 1))) by {
                    assert forall|x: u128|
                        runs.take(k + 1).to_set().contains(x) <==> runs.take(k).to_set().insert(
                            *run,
                        ).contains(x) by {
                        if runs.take(k + 1).contains(x) {
                            let j = runs.take(k + 1).index_of(x);
                            if j < k {
                                assert(runs.take(k)[j] == x);
                            }
                        }
                        if runs.take(k).contains(x) {
                            let j = runs.take(k).index_of(x);
                            assert(runs.take(k + 1)[j] == x);
                        }
                        assert(runs.take(k + 1)[k] == *run);
                    }
                    assert(runs.take(k + 1).to_set() =~= runs.take(k).to_set().insert(*run));
                }
                assert(log[*run] == records(self.index@[*run]@));
                assert(done.push(*run) =~= runs.take(k + 1));
                assert(k + 1 == it.seq().len() ==> done.push(*run) =~= runs);
            }
            proof {
                done = done.push(*run);
            }
            match self.index.get(run) {
                Some(entries) => {
                    n = n + entries.len();
                },
                None => {},
            }
        }
        assert(without_runs(log, done).dom() =~= Set::empty());
        n
    }

    /// Whether the log holds no record.
    pub fn is_empty(&self) -> (empty: bool)
        requires
            total(self@) <= usize::MAX,
        ensures
            empty == (total(self@) == 0),
    {
        self.len() == 0
    }

    /// Appends an entry to its run.
    pub fn append(&mut self, entry: MutationLogEntry)
        ensures
            final(self)@ == old(self)@.insert(
                entry.trace_id.0,
                records_of(old(self)@, entry.trace_id.0).push(entry@),
            ),
            total(final(self)@) == total(old(self)@) + 1,
    {
        let ghost before = self@;
        assert(before.dom() =~= self.index@.dom());
        let run = entry.trace_id.0;
        let ghost record = entry@;
        let mut entries = match self.index.remove(&run) {
            Some(entries) => entries,
            None => Vec::new(),
        };
        assert(records(entries@) =~= records_of(before, run));
        let ghost so_far = entries@;
        entries.push(entry);
        assert(records(entries@) =~= records(so_far).push(record));
        self.index.insert(run, entries);
        assert(self@ =~= before.insert(run, records_of(before, run).push(record)));
        proof {
            lemma_total_replaced(before, run, records_of(before, run).push(record));
        }
    }

    /// Appends entries to their runs, in order.
    pub fn append_batch(&mut self, entries: Vec<MutationLogEntry>)
        ensures
            forall|run: u128| #[trigger]
                records_of(final(self)@, run) == records_of(old(self)@, run) + records(
                    entries@,
                ).filter(of_run(run)),
            total(final(self)@) == total(old(self)@) + entries@.len(),
    {
        let ghost all = entries@;
        let ghost before = self@;
        proof {
            reveal(Seq::filter);
            assert forall|run: u128| #[trigger]
                records_of(self@, run) == records_of(before, run) + records(all.take(0)).filter(
                    of_run(run),
                ) by {
                assert(records(all.take(0)).filter(of_run(run)) =~= Seq::empty());
            }
        }
        for entry in it: entries
            invariant
                it.seq() == all,
                total(self@) == total(before) + it.index(),
                forall|run: u128| #[trigger]
                    records_of(self@, run) == records_of(before, run) + records(
                        all.take(it.index() as int),
                    ).filter(of_run(run)),
        {
            let ghost k = it.index() as int;
            let ghost log = self@;
            let ghost record = entry@;
            self.append(entry);
            proof {
                reveal(Seq::filter);
                let front = records(all.take(k));
                assert(records(all.take(k + 1)).drop_last() =~= front);
                assert(records(all.take(k + 1)).last() == record);
                assert forall|run: u128| #[trigger]
                    records_of(self@, run) == records_of(before, run) + records(
                        all.take(k + 1),
                    ).filter(of_run(run)) by {
                    assert(records_of(log, run) == records_of(before, run) + front.filter(
                        of_run(run),
                    ));
                    if record.trace_id.0 == run {
                        assert(records_of(before, run) + front.filter(of_run(run)).push(record)
                            =~= (records_of(before, run) + front.filter(of_run(run))).push(record));
                    }
                }
            }
        }
        assert(all.take(all.len() as int) =~= all);
    }

    /// Copies of the entries of a run from a step on, in order.
    pub fn replay(&self, trace_id: &TraceId, first: usize) -> (entries: Vec<MutationLogEntry>)
        ensures
            records(entries@) == records_of(self@, trace_id.0).filter(from_step(first)),
    {
        let mut found: Vec<MutationLogEntry> = Vec::new();
        proof {
            reveal(Seq::filter);
        }
        match self.index.get(&trace_id.0) {
            Some(entries) => {
                let ghost all = records(entries@);
                let mut i: usize = 0;
                assert(all.take(0) =~= Seq::empty());
                assert(records(found@) =~= all.take(0).filter(from_step(first)));
                while i < entries.len()
                    invariant
                        i <= entries@.len(),
                        all == records(entries@),
                        records(found@) == all.take(i as int).filter(from_step(first)),
                    decreases entries@.len() - i,
                {
                    let ghost so_far = found@;
                    let entry = &entries[i];
                    proof {
                        reveal(Seq::filter);
                        assert(all.take(i + 1).drop_last() =~= all.take(i as int));
                        assert(all.take(i + 1).last() == entry@);
                    }
                    if entry.step >= first {
                        let copy = entry.clone();
                        let ghost record = copy@;
                        found.push(copy);
                        assert(records(found@) =~= records(so_far).push(record));
                    }
                    i += 1;
                }
                assert(all.take(all.len() as int) =~= all);
            },
            None => {
                assert(records(found@) =~= Seq::empty());
            },
        }
        found
    }

    /// Forgets the entries of a run before a step. The result is how many went.
    pub fn truncate(&mut self, trace_id: &TraceId, keep_from_step: usize) -> (n: usize)
        ensures
            final(self)@ == old(self)@.insert(
                trace_id.0,
                records_of(old(self)@, trace_id.0).filter(from_step(keep_from_step)),
            ),
            n == records_of(old(self)@, trace_id.0).len() - records_of(
                old(self)@,
                trace_id.0,
            ).filter(from_step(keep_from_step)).len(),
            total(final(self)@) + n == total(old(self)@),
    {
        let ghost before = self@;
        assert(before.dom() =~= self.index@.dom());
        let run = trace_id.0;
        let entries = match self.index.remove(&run) {
            Some(entries) => entries,
            None => Vec::new(),
        };
        let ghost list = entries@;
        let ghost all = records(list);
        assert(all =~= records_of(before, run));
        let had = entries.len();
        let mut kept: Vec<MutationLogEntry> = Vec::new();
        let ghost index = self.index;
        proof {
            reveal(Seq::filter);
            assert(records(kept@) =~= all.take(0).filter(from_step(keep_from_step)));
        }
        for entry in it: entries
            invariant
                it.seq() == list,
                all == records(list),
                self.index == index,
                records(kept@) == all.take(it.index() as int).filter(from_step(keep_from_step)),
        {
            let ghost k = it.index() as int;
            let ghost so_far = kept@;
            let ghost record = entry@;
            proof {
                reveal(Seq::filter);
                assert(all.take(k + 1).drop_last() =~= all.take(k));
                assert(all.take(k + 1).last() == record);
            }
            if entry.step >= keep_from_step {
                kept.push(entry);
                assert(records(kept@) =~= records(so_far).push(record));
            }
        }
        proof {
            assert(all.take(all.len() as int) =~= all);
            all.lemma_filter_len(from_step(keep_from_step));
            assert(records(kept@).len() == kept@.len());
        }
        let n = had - kept.len();
        self.index.insert(run, kept);
        assert(self@ =~= before.insert(run, all.filter(from_step(keep_from_step))));
        proof {
            lemma_total_replaced(before, run, all.filter(from_step(keep_from_step)));
        }
        n
    }
}

impl Default for InMemoryMutationLog {
    fn default() -> (log: Self)
        ensures
            log@ == Map::<u128, Seq<Record>>::empty(),
    {
        InMemoryMutationLog::new()
    }
}

/// Choosing the later part of what is later already.
proof fn lemma_later_part(s: Seq<Record>, kept: usize, first: usize)
    requires
        kept <= first,
    ensures
        s.filter(from_step(kept)).filter(from_step(first)) == s.filter(from_step(first)),
    decreases s.len(),
{
    reveal(Seq::filter);
    if s.len() > 0 {
        lemma_later_part(s.drop_last(), kept, first);
        let front = s.drop_last().filter(from_step(kept));
        if s.last().step >= kept {
            assert(front.push(s.last()).drop_last() =~= front);
            assert(front.push(s.last()).last() == s.last());
        }
    }
}

/// Forgetting what lies before a step does not change what is replayed from that
/// step or a later one, and leaves other runs alone.
pub proof fn law_truncation_keeps_replay(
    log: Map<u128, Seq<Record>>,
    run: u128,
    keep_from_step: usize,
    first: usize,
)
    requires
        keep_from_step <= first,
    ensures
        ({
            let truncated = log.insert(
                run,
                records_of(log, run).filter(from_step(keep_from_step)),
            );
            &&& records_of(truncated, run).filter(from_step(first)) == records_of(
                log,
                run,
            ).filter(from_step(first))
            &&& forall|other: u128|
                other != run ==> #[trigger] records_of(truncated, other) == records_of(log, other)
        }),
{
    lemma_later_part(records_of(log, run), keep_from_step, first);
}

/// Each change with its place, where it could be written down.
pub open spec fn placed(written: Seq<Option<Value>>) -> Seq<(nat, Value)>
    decreases written.len(),
{
    if written.len() == 0 {
        Seq::empty()
    } else {
        let front = placed(written.drop_last());
        match written.last() {
            Some(v) => front.push(((written.len() - 1) as nat, v)),
            None => front,
        }
    }
}

/// `written` is what `write` gives for changes, one by one.
pub open spec fn writes_down<E, W: Fn(&E) -> Option<Value>>(
    write: &W,
    mutations: Seq<E>,
    written: Seq<Option<Value>>,
) -> bool {
    &&& written.len() == mutations.len()
    &&& forall|i: int|
        0 <= i < mutations.len() ==> call_ensures(
            write,
            (&mutations[i],),
            #[trigger] written[i],
        )
}

/// Entries for placed changes of one step.
pub open spec fn entries_for(
    entries: Seq<MutationLogEntry>,
    trace_id: TraceId,
    step: usize,
    node_id: Seq<char>,
    checkpoint_id: Option<CheckpointId>,
    changes: Seq<(nat, Value)>,
) -> bool {
    &&& entries.len() == changes.len()
    &&& forall|i: int|
        0 <= i < entries.len() ==> {
            let e = #[trigger] entries[i];
            &&& e.trace_id == trace_id
            &&& e.step == step
            &&& e.node_id.0@ == node_id
            &&& e.checkpoint_id == checkpoint_id
            &&& e.mutation_index == changes[i].0
            &&& e.mutation == changes[i].1
        }
}

/// Entries for the changes of one step, written down by `write`. A change that
/// cannot be written down is left out; the others keep their places.
pub fn mutations_to_log_entries<E, W: Fn(&E) -> Option<Value>>(
    trace_id: TraceId,
    step: usize,
    node_id: NodeId,
    checkpoint_id: Option<CheckpointId>,
    mutations: &Vec<E>,
    write: &W,
) -> (entries: Vec<MutationLogEntry>)
    requires
        forall|e: E| #[trigger] call_requires(write, (&e,)),
    ensures
        exists|written: Seq<Option<Value>>| #[trigger]
            writes_down(write, mutations@, written) && entries_for(
                entries@,
                trace_id,
                step,
                node_id.0@,
                checkpoint_id,
                placed(written),
            ),
{
    let mut entries: Vec<MutationLogEntry> = Vec::new();
    let ghost mut written: Seq<Option<Value>> = Seq::empty();
    let mut i: usize = 0;
    while i < mutations.len()
        invariant
            i <= mutations@.len(),
            forall|e: E| #[trigger] call_requires(write, (&e,)),
            writes_down(write, mutations@.take(i as int), written),
            entries_for(
                entries@,
                trace_id,
                step,
                node_id.0@,
                checkpoint_id,
                placed(written),
            ),
        decreases mutations@.len() - i,
    {
        let value = write(&mutations[i]);
        let ghost front = written;
        proof {
            written = written.push(value);
            assert(written.drop_last() =~= front);
            assert forall|j: int| 0 <= j < i + 1 implies call_ensures(
                write,
                (&mutations@.take(i + 1)[j],),
                #[trigger] written[j],
            ) by {
                if j < i {
                    assert(written[j] == front[j]);
                    assert(mutations@.take(i + 1)[j] == mutations@.take(i as int)[j]);
                }
            }
        }
        match value {
            Some(v) => {
                entries.push(
                    MutationLogEntry::new(trace_id, step, node_id.clone(), checkpoint_id, i, v),
                );
            },
            None => {},
        }
        i += 1;
    }
    assert(mutations@.take(mutations@.len() as int) =~= mutations@);
    entries
}

/// Every change that could be written down is placed, once, at its own place and with what
/// was written, and the places ascend.
pub proof fn law_changes_keep_their_places(written: Seq<Option<Value>>, i: int)
    ensures
        forall|k: int|
            0 <= k < placed(written).len() ==> (#[trigger] placed(written)[k]).0 < written.len()
                && written[placed(written)[k].0 as int] == Some(placed(written)[k].1),
        forall|j: int, k: int|
            0 <= j < k < placed(written).len() ==> (#[trigger] placed(written)[j]).0 < (
            #[trigger] placed(written)[k]).0,
        0 <= i < written.len() && written[i] is Some ==> placed(written).contains(
            (i as nat, written[i]->0),
        ),
    decreases written.len(),
{
    let all = placed(written);
    if written.len() > 0 {
        let front = written.drop_last();
        let some = placed(front);
        law_changes_keep_their_places(front, i);
        assert(written[written.len() - 1] == written.last());
        assert forall|k: int| 0 <= k < all.len() implies (#[trigger] all[k]).0 < written.len()
            && written[all[k].0 as int] == Some(all[k].1) by {
            if k < some.len() {
                assert(all[k] == some[k]);
                assert(front[some[k].0 as int] == written[some[k].0 as int]);
            }
        }
        assert forall|j: int, k: int| 0 <= j < k < all.len() implies (#[trigger] all[j]).0 < (
        #[trigger] all[k]).0 by {
            assert(all[j] == some[j]);
            if k < some.len() {
                assert(all[k] == some[k]);
            }
        }
        if 0 <= i < written.len() && written[i] is Some {
            if i < front.len() {
                assert(front[i] == written[i]);
                let k = some.index_of((i as nat, written[i]->0));
                assert(all[k] == (i as nat, written[i]->0));
            } else {
                assert(all[some.len() as int] == (i as nat, written[i]->0));
            }
        }
    }
}

/// A record belongs to its own run, and to its step and every earlier one.
pub proof fn law_records_are_sought(r: Record, run: u128, step: usize)
    ensures
        of_run(run)(r) <==> r.trace_id.0 == run,
        from_step(step)(r) <==> r.step >= step,
{
}

/// The records of a log are counted run by run.
pub proof fn law_records_are_counted(log: Map<u128, Seq<Record>>, run: u128, kept: Seq<Record>)
    requires
        log.dom().finite(),
    ensures
        total(Map::<u128, Seq<Record>>::empty()) == 0,
        !log.contains_key(run) ==> total(log.insert(run, kept)) == total(log) + kept.len(),
        log.contains_key(run) ==> total(log) == total(log.remove(run)) + log[run].len(),
        records_of(log.insert(run, kept), run) == kept,
        !log.contains_key(run) ==> records_of(log, run).len() == 0,
{
    lemma_total_replaced(log, run, kept);
    if log.contains_key(run) {
        lemma_total_apart(log, run);
    }
}

/// The records of entries are those of each, in order, with everything that the entry holds.
pub proof fn law_entries_are_recorded(entries: Seq<MutationLogEntry>, i: int)
    ensures
        records(entries).len() == entries.len(),
        0 <= i < entries.len() ==> {
            let r = records(entries)[i];
            &&& r.trace_id == entries[i].trace_id
            &&& r.step == entries[i].step
            &&& r.node_id == entries[i].node_id.0@
            &&& r.checkpoint_id == entries[i].checkpoint_id
            &&& r.mutation_index == entries[i].mutation_index
            &&& r.mutation == entries[i].mutation@
            &&& r.timestamp == entries[i].timestamp
        },
{
}

/// The entries for changes are one for each, in order, with its place and its value, and all
/// of them belong to the run, the step, the node and the checkpoint that were given.
pub proof fn law_entries_belong_to_their_step(
    entries: Seq<MutationLogEntry>,
    trace_id: TraceId,
    step: usize,
    node_id: Seq<char>,
    checkpoint_id: Option<CheckpointId>,
    changes: Seq<(nat, Value)>,
    i: int,
)
    requires
        entries_for(entries, trace_id, step, node_id, checkpoint_id, changes),
    ensures
        entries.len() == changes.len(),
        0 <= i < entries.len() ==> {
            let r = records(entries)[i];
            &&& of_run(trace_id.0)(r)
            &&& from_step(step)(r)
            &&& r.step == step
            &&& r.node_id == node_id
            &&& r.checkpoint_id == checkpoint_id
            &&& r.mutation_index == changes[i].0
            &&& r.mutation == changes[i].1@
        },
{
}

/// Runs that are taken out leave nothing, and all others keep their records.
pub proof fn law_other_runs_are_kept(log: Map<u128, Seq<Record>>, runs: Seq<u128>, run: u128)
    ensures
        runs.contains(run) ==> records_of(without_runs(log, runs), run).len() == 0,
        !runs.contains(run) ==> records_of(without_runs(log, runs), run) == records_of(log, run),
{
}

} // verus!
