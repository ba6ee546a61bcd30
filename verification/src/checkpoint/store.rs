//! Stores of checkpoints, in memory.

use std::collections::HashMap;
use vstd::prelude::*;

use crate::checkpoint::checkpoint_data::{Checkpoint, CheckpointBlob, CheckpointId};
use crate::ids::TraceId;
use crate::sequences;
use crate::state::workflow_state::WorkflowState;

verus! {

broadcast use vstd::std_specs::hash::group_hash_axioms;

/// What an archive holds: things by number, and for each run the numbers that were
/// filed for it, the oldest first.
#[verifier::ext_equal]
pub struct Archived<V> {
    pub items: Map<u128, V>,
    pub trails: Map<u128, Seq<u128>>,
}

impl<V> Archived<V> {
    /// The numbers that were filed for a run and not pruned.
    pub open spec fn trail(self, run: u128) -> Seq<u128> {
        if self.trails.contains_key(run) {
            self.trails[run]
        } else {
            Seq::empty()
        }
    }

    /// What has a number.
    pub open spec fn item(self, id: u128) -> Option<V> {
        if self.items.contains_key(id) {
            Some(self.items[id])
        } else {
            None
        }
    }

    /// What was filed last for a run, unless it is gone.
    pub open spec fn latest(self, run: u128) -> Option<V> {
        if self.trail(run).len() == 0 {
            None
        } else {
            self.item(self.trail(run).last())
        }
    }

    /// The archive after filing a thing for a run. What had its number is replaced.
    pub open spec fn filed(self, run: u128, id: u128, item: V) -> Archived<V> {
        Archived {
            items: self.items.insert(id, item),
            trails: self.trails.insert(run, self.trail(run).push(id)),
        }
    }

    /// The archive without what has a number. Every run forgets the number.
    pub open spec fn without(self, id: u128) -> Archived<V> {
        Archived {
            items: self.items.remove(id),
            trails: self.trails.map_values(|t: Seq<u128>| t.filter(other_than(id))),
        }
    }

    /// How many of the things of a run go, where so many of the newest are kept.
    pub open spec fn surplus(self, run: u128, keep: nat) -> nat {
        if self.trail(run).len() > keep {
            (self.trail(run).len() - keep) as nat
        } else {
            0
        }
    }

    /// The archive without the oldest things of a run, but for those that a run
    /// still names.
    pub open spec fn pruned(self, run: u128, keep: nat) -> Archived<V> {
        let n = self.surplus(run, keep);
        if n == 0 {
            self
        } else {
            let trails = self.trails.insert(run, self.trail(run).skip(n as int));
            Archived { items: still_held(self.items, self.trail(run).take(n as int), trails), trails }
        }
    }

    /// Whatever a run names is there.
    pub open spec fn whole(self) -> bool {
        forall|id: u128| #[trigger] named(self.trails, id) ==> self.items.contains_key(id)
    }
}

/// The numbers other than one.
pub open spec fn other_than(id: u128) -> spec_fn(u128) -> bool {
    |x: u128| x != id
}

/// Some run names the number.
pub open spec fn named(trails: Map<u128, Seq<u128>>, id: u128) -> bool {
    exists|run: u128| #[trigger] trails.contains_key(run) && trails[run].contains(id)
}

/// The things that are left where numbers were dropped: all that were not, and those
/// that a run still names.
pub open spec fn still_held<V>(
    items: Map<u128, V>,
    dropped: Seq<u128>,
    trails: Map<u128, Seq<u128>>,
) -> Map<u128, V> {
    Map::new(
        |id: u128| items.contains_key(id) && (dropped.contains(id) ==> named(trails, id)),
        |id: u128| items[id],
    )
}

/// Things by number, with the numbers of each run in order.
struct Archive<V> {
    store: HashMap<u128, V>,
    index: HashMap<u128, Vec<u128>>,
}

impl<V> View for Archive<V> {
    type V = Archived<V>;

    closed spec fn view(&self) -> Archived<V> {
        Archived {
            items: self.store@,
            trails: Map::new(
                |run: u128| self.index@.contains_key(run),
                |run: u128| self.index@[run]@,
            ),
        }
    }
}

impl<V> Archive<V> {
    fn new() -> (a: Self)
        ensures
            a@ == (Archived::<V> { items: Map::empty(), trails: Map::empty() }),
    {
        let a = Archive { store: HashMap::new(), index: HashMap::new() };
        assert(a@ =~= (Archived::<V> { items: Map::empty(), trails: Map::empty() }));
        a
    }

    fn len(&self) -> (n: usize)
        ensures
            n == self@.items.dom().len(),
    {
        self.store.len()
    }

    fn save(&mut self, run: u128, id: u128, item: V)
        ensures
            final(self)@ == old(self)@.filed(run, id, item),
    {
        let ghost before = self@;
        self.store.insert(id, item);
        let mut trail = match self.index.remove(&run) {
            Some(ids) => ids,
            None => Vec::new(),
        };
        assert(trail@ == before.trail(run));
        trail.push(id);
        self.index.insert(run, trail);
        assert(self@ =~= before.filed(run, id, item));
    }

    fn load(&self, id: u128) -> (item: Option<&V>)
        ensures
            match item {
                Some(v) => self@.item(id) == Some(*v),
                None => self@.item(id) is None,
            },
    {
        self.store.get(&id)
    }

    fn latest(&self, run: u128) -> (item: Option<&V>)
        ensures
            match item {
                Some(v) => self@.latest(run) == Some(*v),
                None => self@.latest(run) is None,
            },
    {
        match self.index.get(&run) {
            Some(ids) => {
                let n = ids.len();
                if n == 0 {
                    None
                } else {
                    self.load(ids[n - 1])
                }
            },
            None => None,
        }
    }

    fn list(&self, run: u128) -> (ids: Vec<CheckpointId>)
        ensures
            ids@.len() == self@.trail(run).len(),
            forall|i: int|
                0 <= i < ids@.len() ==> (#[trigger] ids@[i]).0 == self@.trail(run).reverse()[i],
    {
        let mut found: Vec<CheckpointId> = Vec::new();
        match self.index.get(&run) {
            Some(ids) => {
                let mut i: usize = ids.len();
                while i > 0
                    invariant
                        i <= ids@.len(),
                        found@.len() == ids@.len() - i,
                        forall|j: int|
                            0 <= j < found@.len() ==> (#[trigger] found@[j]).0
                                == ids@.reverse()[j],
                    decreases i,
                {
                    i -= 1;
                    found.push(CheckpointId(ids[i]));
                }
            },
            None => {},
        }
        found
    }

    fn runs(&self) -> (runs: Vec<u128>)
        ensures
            runs@.no_duplicates(),
            forall|run: u128| #[trigger] runs@.contains(run) <==> self@.trails.contains_key(run),
    {
        let mut runs: Vec<u128> = Vec::new();
        for run in it: self.index.keys()
            invariant
                it.seq().unref().to_set() == self.index@.dom(),
                it.seq().no_duplicates(),
                runs@ =~= it.seq().unref().take(it.index() as int),
                it.index() == it.seq().len() ==> runs@.to_set() =~= self.index@.dom(),
                runs@.no_duplicates(),
        {
            let ghost k = it.index() as int;
            let ghost was = runs@;
            proof {
                let all = it.seq().unref();
                assert(all[k] == *run);
                assert(all.take(k + 1) =~= all.take(k).push(*run));
                assert(k + 1 == it.seq().len() ==> was.push(*run) =~= all);
                assert forall|i: int| 0 <= i < k implies all[i] != *run by {
                    assert(it.seq()[i] != it.seq()[k]);
                }
                assert(was.push(*run).no_duplicates()) by {
                    assert forall|x: int, y: int|
                        0 <= x < was.len() + 1 && 0 <= y < was.len() + 1 && x != y implies was.push(
                        *run,
                    )[x] != was.push(*run)[y] by {
                        assert(x < k ==> was[x] == all[x]);
                        assert(y < k ==> was[y] == all[y]);
                    }
                }
            }
            runs.push(*run);
        }
        proof {
            assert forall|run: u128| #[trigger] runs@.contains(run) <==> self@.trails.contains_key(
                run,
            ) by {
                assert(runs@.to_set().contains(run) <==> runs@.contains(run));
            }
        }
        runs
    }

    fn is_named(&self, id: u128) -> (found: bool)
        ensures
            found == named(self@.trails, id),
    {
        let runs = self.runs();
        let mut i: usize = 0;
        while i < runs.len()
            invariant
                i <= runs@.len(),
                forall|run: u128| #[trigger]
                    runs@.contains(run) <==> self@.trails.contains_key(run),
                forall|j: int| 0 <= j < i ==> !self@.trails[#[trigger] runs@[j]].contains(id),
            decreases runs@.len() - i,
        {
            let run = runs[i];
            proof {
                assert(runs@.contains(run));
            }
            if let Some(trail) = self.index.get(&run) {
                assert(self@.trails[run] == trail@);
                if holds(trail, id) {
                    assert(self@.trails.contains_key(run));
                    return true;
                }
            }
            i += 1;
        }
        proof {
            if named(self@.trails, id) {
                let run = choose|run: u128| #[trigger]
                    self@.trails.contains_key(run) && self@.trails[run].contains(id);
                assert(runs@.contains(run));
                let j = runs@.index_of(run);
                assert(runs@[j] == run);
                assert(!self@.trails[runs@[j]].contains(id));
            }
        }
        false
    }

    fn delete(&mut self, id: u128) -> (removed: bool)
        ensures
            removed == (old(self)@.item(id) is Some),
            final(self)@ == old(self)@.without(id),
    {
        let ghost before = self@;
        let runs = self.runs();
        let r = self.store.remove(&id);
        let ghost after = self.store;
        let mut i: usize = 0;
        while i < runs.len()
            invariant
                i <= runs@.len(),
                self.store == after,
                runs@.no_duplicates(),
                forall|run: u128| #[trigger]
                    runs@.contains(run) <==> before.trails.contains_key(run),
                self@.trails.dom() == before.trails.dom(),
                forall|j: int|
                    0 <= j < i ==> self@.trails[#[trigger] runs@[j]] == before.trails[runs@[j]].filter(
                        other_than(id),
                    ),
                forall|j: int|
                    i <= j < runs@.len() ==> self@.trails[#[trigger] runs@[j]]
                        == before.trails[runs@[j]],
            decreases runs@.len() - i,
        {
            let run = runs[i];
            let ghost was = self@;
            proof {
                assert(runs@.contains(run));
                assert(was.trails.contains_key(run));
            }
            let trail = match self.index.remove(&run) {
                Some(ids) => ids,
                None => Vec::new(),
            };
            assert(trail@ == was.trails[run]);
            let kept = stripped(&trail, id);
            self.index.insert(run, kept);
            assert(self@.trails =~= was.trails.insert(run, kept@));
            assert(self@.trails.dom() =~= before.trails.dom());
            i += 1;
        }
        proof {
            assert forall|run: u128| before.trails.contains_key(run) implies self@.trails[run]
                == before.trails[run].filter(other_than(id)) by {
                let j = runs@.index_of(run);
                assert(runs@.contains(run));
                assert(runs@[j] == run);
            }
            assert(self@.trails =~= before.without(id).trails);
            assert(self@ =~= before.without(id));
        }
        r.is_some()
    }

    fn prune(&mut self, run: u128, keep: usize) -> (n: usize)
        ensures
            n == old(self)@.surplus(run, keep as nat),
            final(self)@ == old(self)@.pruned(run, keep as nat),
    {
        let ghost before = self@;
        let trail = match self.index.remove(&run) {
            Some(ids) => ids,
            None => {
                assert(self@ =~= before);
                return 0;
            },
        };
        assert(trail@ == before.trail(run));
        if trail.len() <= keep {
            self.index.insert(run, trail);
            assert(self@ =~= before);
            return 0;
        }
        let n = trail.len() - keep;
        let kept = rest_of(&trail, n);
        self.index.insert(run, kept);
        let ghost trails = self@.trails;
        assert(trails =~= before.trails.insert(run, trail@.skip(n as int)));
        let ghost index = self.index;
        let mut i: usize = 0;
        assert(self.store@ =~= still_held(before.items, trail@.take(0), trails));
        while i < n
            invariant
                i <= n <= trail@.len(),
                self.index == index,
                self@.trails == trails,
                self.store@ == still_held(before.items, trail@.take(i as int), trails),
            decreases n - i,
        {
            let id = trail[i];
            let ghost was = self.store@;
            if !self.is_named(id) {
                self.store.remove(&id);
            }
            proof {
                assert(self@.trails =~= trails);
                let dropped = trail@.take(i as int);
                let more = trail@.take(i + 1);
                assert(more =~= dropped.push(id));
                assert forall|x: u128| more.contains(x) <==> dropped.contains(x) || x == id by {
                    if dropped.contains(x) {
                        assert(more[dropped.index_of(x)] == x);
                    }
                    assert(more[i as int] == id);
                    if more.contains(x) {
                        let k = more.index_of(x);
                        if k < i {
                            assert(dropped[k] == x);
                        }
                    }
                }
                assert(self.store@ =~= still_held(before.items, more, trails));
            }
            i += 1;
        }
        assert(self@ =~= before.pruned(run, keep as nat));
        n
    }
}

fn holds(ids: &Vec<u128>, id: u128) -> (found: bool)
    ensures
        found == ids@.contains(id),
{
    let mut i: usize = 0;
    while i < ids.len()
        invariant
            i <= ids@.len(),
            forall|j: int| 0 <= j < i ==> ids@[j] != id,
        decreases ids@.len() - i,
    {
        if ids[i] == id {
            assert(ids@[i as int] == id);
            return true;
        }
        i += 1;
    }
    false
}

fn stripped(ids: &Vec<u128>, id: u128) -> (kept: Vec<u128>)
    ensures
        kept@ == ids@.filter(other_than(id)),
{
    let mut kept: Vec<u128> = Vec::new();
    let mut i: usize = 0;
    proof {
        reveal(Seq::filter);
        assert(ids@.take(0).filter(other_than(id)) =~= Seq::empty());
    }
    while i < ids.len()
        invariant
            i <= ids@.len(),
            kept@ == ids@.take(i as int).filter(other_than(id)),
        decreases ids@.len() - i,
    {
        proof {
            reveal(Seq::filter);
            assert(ids@.take(i + 1).drop_last() =~= ids@.take(i as int));
        }
        if ids[i] != id {
            kept.push(ids[i]);
        }
        i += 1;
    }
    assert(ids@.take(ids@.len() as int) =~= ids@);
    kept
}

fn rest_of(ids: &Vec<u128>, n: usize) -> (rest: Vec<u128>)
    requires
        n <= ids@.len(),
    ensures
        rest@ == ids@.skip(n as int),
{
    let mut rest: Vec<u128> = Vec::new();
    let mut i: usize = n;
    while i < ids.len()
        invariant
            n <= i <= ids@.len(),
            rest@ == ids@.subrange(n as int, i as int),
        decreases ids@.len() - i,
    {
        rest.push(ids[i]);
        i += 1;
        assert(rest@ =~= ids@.subrange(n as int, i as int));
    }
    assert(rest@ =~= ids@.skip(n as int));
    rest
}

/// What was filed is found by its number and is the latest of its run; what was
/// filed under other numbers and for other runs is untouched.
pub proof fn law_filed_is_found<V>(a: Archived<V>, run: u128, id: u128, item: V)
    ensures
        a.filed(run, id, item).item(id) == Some(item),
        a.filed(run, id, item).latest(run) == Some(item),
        forall|other: u128| other != id ==> #[trigger] a.filed(run, id, item).item(other) == a.item(other),
        forall|other: u128|
            other != run ==> #[trigger] a.filed(run, id, item).trail(other) == a.trail(other),
{
}

/// What was deleted is not found, and no run names it any more. The latest of a run
/// is the newest of those that are left, and everything else is untouched.
pub proof fn law_deleted_is_forgotten<V>(a: Archived<V>, id: u128)
    requires
        a.whole(),
    ensures
        a.without(id).item(id) is None,
        forall|other: u128| other != id ==> #[trigger] a.without(id).item(other) == a.item(other),
        forall|run: u128| #[trigger]
            a.without(id).trail(run) == a.trail(run).filter(other_than(id)),
        forall|run: u128| !(#[trigger] a.without(id).trail(run)).contains(id),
        forall|run: u128| #[trigger]
            a.without(id).latest(run) == (if a.trail(run).filter(other_than(id)).len() == 0 {
                None
            } else {
                Some(a.items[a.trail(run).filter(other_than(id)).last()])
            }),
{
    broadcast use vstd::seq_lib::group_filter_ensures;

    let b = a.without(id);
    assert forall|run: u128| #[trigger] b.trail(run) == a.trail(run).filter(other_than(id)) by {
        reveal(Seq::filter);
        if !a.trails.contains_key(run) {
            assert(Seq::<u128>::empty().filter(other_than(id)) =~= Seq::empty());
        }
    }
    assert forall|run: u128| !(#[trigger] b.trail(run)).contains(id) by {
        if b.trail(run).contains(id) {
            let k = b.trail(run).index_of(id);
            assert(other_than(id)(b.trail(run)[k]));
        }
    }
    assert forall|run: u128| #[trigger]
        b.latest(run) == (if a.trail(run).filter(other_than(id)).len() == 0 {
            None
        } else {
            Some(a.items[a.trail(run).filter(other_than(id)).last()])
        }) by {
        let t = a.trail(run).filter(other_than(id));
        assert(b.trail(run) == t);
        if t.len() > 0 {
            assert(t.contains(t.last()));
            sequences::lemma_kept(a.trail(run), other_than(id), t.last());
            assert(a.trails.contains_key(run));
            assert(named(a.trails, t.last()));
            assert(!b.trail(run).contains(id));
        }
    }
}

/// Whatever a run names is there: in an empty archive, and after anything was filed,
/// deleted or pruned.
pub proof fn law_named_is_there<V>(a: Archived<V>, run: u128, id: u128, item: V, keep: nat)
    requires
        a.whole(),
    ensures
        (Archived::<V> { items: Map::empty(), trails: Map::empty() }).whole(),
        a.filed(run, id, item).whole(),
        a.without(id).whole(),
        a.pruned(run, keep).whole(),
{
    let f = a.filed(run, id, item);
    assert forall|x: u128| #[trigger] named(f.trails, x) implies f.items.contains_key(x) by {
        let r = choose|r: u128| #[trigger] f.trails.contains_key(r) && f.trails[r].contains(x);
        if r == run {
            let k = f.trails[r].index_of(x);
            if k < a.trail(run).len() {
                assert(a.trail(run)[k] == x);
                assert(a.trails.contains_key(run) && a.trails[run].contains(x));
                assert(named(a.trails, x));
            }
        } else {
            assert(a.trails.contains_key(r) && a.trails[r].contains(x));
            assert(named(a.trails, x));
        }
    }
    let d = a.without(id);
    law_deleted_is_forgotten(a, id);
    assert forall|x: u128| #[trigger] named(d.trails, x) implies d.items.contains_key(x) by {
        let r = choose|r: u128| #[trigger] d.trails.contains_key(r) && d.trails[r].contains(x);
        assert(d.trail(r) == a.trail(r).filter(other_than(id)));
        sequences::lemma_kept(a.trail(r), other_than(id), x);
        assert(a.trails.contains_key(r) && a.trails[r].contains(x));
        assert(named(a.trails, x));
        assert(!d.trail(r).contains(id));
    }
    let p = a.pruned(run, keep);
    assert forall|x: u128| #[trigger] named(p.trails, x) implies p.items.contains_key(x) by {
        let r = choose|r: u128| #[trigger] p.trails.contains_key(r) && p.trails[r].contains(x);
        if a.surplus(run, keep) > 0 && r == run {
            let n = a.surplus(run, keep) as int;
            let k = p.trails[r].index_of(x);
            assert(a.trail(run)[n + k] == x);
            assert(a.trails.contains_key(run) && a.trails[run].contains(x));
        } else {
            assert(a.trails.contains_key(r) && a.trails[r].contains(x));
        }
        assert(named(a.trails, x));
    }
}

/// Pruning keeps the newest things of a run, in order, and no more of them than it
/// was told to. What the run or another still names can still be found as before,
/// and nothing is lost that was not of the run.
pub proof fn law_prune_keeps_newest<V>(a: Archived<V>, run: u128, keep: nat)
    ensures
        a.pruned(run, keep).trail(run).len() == if a.trail(run).len() < keep {
            a.trail(run).len()
        } else {
            keep
        },
        a.pruned(run, keep).trail(run) == a.trail(run).skip(a.surplus(run, keep) as int),
        forall|other: u128, i: int|
            0 <= i < a.pruned(run, keep).trail(other).len() ==> a.pruned(run, keep).item(
                #[trigger] a.pruned(run, keep).trail(other)[i],
            ) == a.item(a.pruned(run, keep).trail(other)[i]),
        keep > 0 ==> a.pruned(run, keep).latest(run) == a.latest(run),
        forall|id: u128|
            !a.trail(run).contains(id) ==> #[trigger] a.pruned(run, keep).item(id) == a.item(id),
        forall|other: u128|
            other != run ==> #[trigger] a.pruned(run, keep).trail(other) == a.trail(other),
{
    let n = a.surplus(run, keep) as int;
    let p = a.pruned(run, keep);
    let t = a.trail(run);
    assert(t.skip(0) =~= t);
    assert(p.trail(run) == t.skip(n));
    assert forall|other: u128, i: int| 0 <= i < p.trail(other).len() implies p.item(
        #[trigger] p.trail(other)[i],
    ) == a.item(p.trail(other)[i]) by {
        let id = p.trail(other)[i];
        assert(p.trails.contains_key(other) && p.trails[other].contains(id));
        assert(named(p.trails, id));
    }
    assert forall|id: u128| !t.contains(id) implies #[trigger] p.item(id) == a.item(id) by {
        if n > 0 && t.take(n).contains(id) {
            let k = t.take(n).index_of(id);
            assert(t[k] == id);
        }
    }
    if keep > 0 && t.len() > 0 {
        assert(p.trail(run).last() == t.last());
        assert(p.trail(run)[p.trail(run).len() - 1] == t.last());
    }
}

/// Pruning twice to the same size does no more than pruning once.
pub proof fn law_prune_settles<V>(a: Archived<V>, run: u128, keep: nat)
    ensures
        a.pruned(run, keep).pruned(run, keep) == a.pruned(run, keep),
        a.pruned(run, keep).surplus(run, keep) == 0,
{
}

/// A store of checkpoints as bytes.
pub struct InMemoryBlobStore {
    archive: Archive<CheckpointBlob>,
}

impl View for InMemoryBlobStore {
    type V = Archived<CheckpointBlob>;

    closed spec fn view(&self) -> Archived<CheckpointBlob> {
        self.archive@
    }
}

impl InMemoryBlobStore {
    /// An empty store.
    pub fn new() -> (s: Self)
        ensures
            s@ == (Archived::<CheckpointBlob> { items: Map::empty(), trails: Map::empty() }),
    {
        InMemoryBlobStore { archive: Archive::new() }
    }

    /// How many checkpoints the store holds.
    pub fn len(&self) -> (n: usize)
        ensures
            n == self@.items.dom().len(),
    {
        self.archive.len()
    }

    /// Whether the store holds no checkpoint.
    pub fn is_empty(&self) -> (empty: bool)
        ensures
            empty == (self@.items.dom().len() == 0),
    {
        self.len() == 0
    }

    /// Files a copy of a checkpoint for a run.
    pub fn save_with_trace(&mut self, trace_id: &TraceId, blob: &CheckpointBlob)
        ensures
            exists|copy: CheckpointBlob|
                copy@ == blob@ && final(self)@ == #[trigger] old(self)@.filed(
                    trace_id.0,
                    blob.id.0,
                    copy,
                ),
    {
        let copy = blob.clone();
        let ghost kept = copy;
        self.archive.save(trace_id.0, blob.id.0, copy);
        assert(self@ == old(self)@.filed(trace_id.0, blob.id.0, kept));
    }

    /// A copy of the checkpoint with an identifier.
    pub fn load(&self, id: &CheckpointId) -> (blob: Option<CheckpointBlob>)
        ensures
            match blob {
                Some(b) => self@.item(id.0) is Some && b@ == self@.item(id.0)->0@,
                None => self@.item(id.0) is None,
            },
    {
        match self.archive.load(id.0) {
            Some(b) => Some(b.clone()),
            None => None,
        }
    }

    /// A copy of the checkpoint that was filed last for a run.
    pub fn load_latest(&self, trace_id: &TraceId) -> (blob: Option<CheckpointBlob>)
        ensures
            match blob {
                Some(b) => self@.latest(trace_id.0) is Some && b@ == self@.latest(trace_id.0)->0@,
                None => self@.latest(trace_id.0) is None,
            },
    {
        match self.archive.latest(trace_id.0) {
            Some(b) => Some(b.clone()),
            None => None,
        }
    }

    /// The identifiers of a run's checkpoints, the newest first.
    pub fn list(&self, trace_id: &TraceId) -> (ids: Vec<CheckpointId>)
        ensures
            ids@.len() == self@.trail(trace_id.0).len(),
            forall|i: int|
                0 <= i < ids@.len() ==> (#[trigger] ids@[i]).0 == self@.trail(
                    trace_id.0,
                ).reverse()[i],
    {
        self.archive.list(trace_id.0)
    }

    /// Removes a checkpoint. The result tells whether there was one.
    pub fn delete(&mut self, id: &CheckpointId) -> (removed: bool)
        ensures
            removed == (old(self)@.item(id.0) is Some),
            final(self)@ == old(self)@.without(id.0),
    {
        self.archive.delete(id.0)
    }

    /// Removes the oldest checkpoints of a run, so that at most so many are left.
    /// The result is how many went.
    pub fn prune(&mut self, trace_id: &TraceId, keep: usize) -> (n: usize)
        ensures
            n == old(self)@.surplus(trace_id.0, keep as nat),
            final(self)@ == old(self)@.pruned(trace_id.0, keep as nat),
    {
        self.archive.prune(trace_id.0, keep)
    }
}

impl Default for InMemoryBlobStore {
    fn default() -> (s: Self)
        ensures
            s@ == (Archived::<CheckpointBlob> { items: Map::empty(), trails: Map::empty() }),
    {
        InMemoryBlobStore::new()
    }
}

/// A store of checkpoints as values.
pub struct InMemoryCheckpointStore<S: WorkflowState> {
    archive: Archive<Checkpoint<S>>,
}

impl<S: WorkflowState> View for InMemoryCheckpointStore<S> {
    type V = Archived<Checkpoint<S>>;

    closed spec fn view(&self) -> Archived<Checkpoint<S>> {
        self.archive@
    }
}

impl<S: WorkflowState> InMemoryCheckpointStore<S> {
    /// An empty store.
    pub fn new() -> (s: Self)
        ensures
            s@ == (Archived::<Checkpoint<S>> { items: Map::empty(), trails: Map::empty() }),
    {
        InMemoryCheckpointStore { archive: Archive::new() }
    }

    /// How many checkpoints the store holds.
    pub fn len(&self) -> (n: usize)
        ensures
            n == self@.items.dom().len(),
    {
        self.archive.len()
    }

    /// Whether the store holds no checkpoint.
    pub fn is_empty(&self) -> (empty: bool)
        ensures
            empty == (self@.items.dom().len() == 0),
    {
        self.len() == 0
    }

    /// Files a copy of a checkpoint for a run.
    pub fn save_with_trace(&mut self, trace_id: &TraceId, checkpoint: &Checkpoint<S>)
        ensures
            exists|copy: Checkpoint<S>|
                copy.copies(*checkpoint) && final(self)@ == #[trigger] old(self)@.filed(
                    trace_id.0,
                    checkpoint.checkpoint_id.0,
                    copy,
                ),
    {
        let copy = checkpoint.clone();
        let ghost kept = copy;
        self.archive.save(trace_id.0, checkpoint.checkpoint_id.0, copy);
        assert(self@ == old(self)@.filed(trace_id.0, checkpoint.checkpoint_id.0, kept));
    }

    /// A copy of the checkpoint with an identifier.
    pub fn load(&self, id: &CheckpointId) -> (checkpoint: Option<Checkpoint<S>>)
        ensures
            match checkpoint {
                Some(c) => self@.item(id.0) is Some && c.copies(self@.item(id.0)->0),
                None => self@.item(id.0) is None,
            },
    {
        match self.archive.load(id.0) {
            Some(c) => Some(c.clone()),
            None => None,
        }
    }

    /// A copy of the checkpoint that was filed last for a run.
    pub fn load_latest(&self, trace_id: &TraceId) -> (checkpoint: Option<Checkpoint<S>>)
        ensures
            match checkpoint {
                Some(c) => self@.latest(trace_id.0) is Some && c.copies(
                    self@.latest(trace_id.0)->0,
                ),
                None => self@.latest(trace_id.0) is None,
            },
    {
        match self.archive.latest(trace_id.0) {
            Some(c) => Some(c.clone()),
            None => None,
        }
    }

    /// The identifiers of a run's checkpoints, the newest first.
    pub fn list(&self, trace_id: &TraceId) -> (ids: Vec<CheckpointId>)
        ensures
            ids@.len() == self@.trail(trace_id.0).len(),
            forall|i: int|
                0 <= i < ids@.len() ==> (#[trigger] ids@[i]).0 == self@.trail(
                    trace_id.0,
                ).reverse()[i],
    {
        self.archive.list(trace_id.0)
    }

    /// Removes a checkpoint. The result tells whether there was one.
    pub fn delete(&mut self, id: &CheckpointId) -> (removed: bool)
        ensures
            removed == (old(self)@.item(id.0) is Some),
            final(self)@ == old(self)@.without(id.0),
    {
        self.archive.delete(id.0)
    }

    /// Removes the oldest checkpoints of a run, so that at most so many are left.
    /// The result is how many went.
    pub fn prune(&mut self, trace_id: &TraceId, keep: usize) -> (n: usize)
        ensures
            n == old(self)@.surplus(trace_id.0, keep as nat),
            final(self)@ == old(self)@.pruned(trace_id.0, keep as nat),
    {
        self.archive.prune(trace_id.0, keep)
    }
}

impl<S: WorkflowState> Default for InMemoryCheckpointStore<S> {
    fn default() -> (s: Self)
        ensures
            s@ == (Archived::<Checkpoint<S>> { items: Map::empty(), trails: Map::empty() }),
    {
        InMemoryCheckpointStore::new()
    }
}

} // verus!
