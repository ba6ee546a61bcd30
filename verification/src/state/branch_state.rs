//! A state with one layer of changes over a fixed base.

use std::sync::Arc;
use vstd::prelude::*;

use crate::json;
use crate::json::{Json, Value};
use crate::sharing;
use crate::state::state;
use crate::state::state::State;
use crate::string_map::StringMap;
use crate::text;

verus! {

/// What was done to a key.
#[derive(Clone, Copy, PartialEq, Eq, Structural, Debug)]
pub enum ChangeOperation {
    Put,
    Delete,
}

/// The record of one change.
pub struct ChangeRecord {
    pub key: String,
    pub operation: ChangeOperation,
    /// The value put, `null` for a deletion.
    pub value: Value,
}

/// A change with its contents.
pub struct Change {
    pub key: Seq<char>,
    pub operation: ChangeOperation,
    pub value: Json,
}

impl View for ChangeRecord {
    type V = Change;

    open spec fn view(&self) -> Change {
        Change { key: self.key@, operation: self.operation, value: self.value@ }
    }
}

impl Clone for ChangeRecord {
    fn clone(&self) -> (copy: Self)
        ensures
            copy@ == self@,
    {
        ChangeRecord {
            key: self.key.clone(),
            operation: self.operation,
            value: self.value.clone(),
        }
    }
}

/// The changes of a list of records.
pub open spec fn changes_of(records: Seq<ChangeRecord>) -> Seq<Change> {
    records.map_values(|r: ChangeRecord| r@)
}

/// What changes make of a state's contents.
pub open spec fn replayed(changes: Seq<Change>, base: Map<Seq<char>, Json>) -> Map<Seq<char>, Json>
    decreases changes.len(),
{
    if changes.len() == 0 {
        base
    } else {
        let before = replayed(changes.drop_last(), base);
        match changes.last().operation {
            ChangeOperation::Put => before.insert(changes.last().key, changes.last().value),
            ChangeOperation::Delete => before.remove(changes.last().key),
        }
    }
}

/// One more element of a sequence is one more member of the set.
proof fn lemma_one_more(s: Seq<Seq<char>>, i: int)
    requires
        0 <= i < s.len(),
    ensures
        s.take(i + 1).to_set() == s.take(i).to_set().insert(s[i]),
{
    let was = s.take(i);
    let now = s.take(i + 1);
    assert(now =~= was.push(s[i]));
    assert forall|k: Seq<char>| now.to_set().contains(k) <==> was.to_set().insert(s[i]).contains(
        k,
    ) by {
        assert(now[i] == s[i]);
        if was.contains(k) {
            assert(now[was.index_of(k)] == k);
        }
        if now.contains(k) {
            let j = now.index_of(k);
            if j < i {
                assert(was[j] == k);
            }
        }
    }
    assert(now.to_set() =~= was.to_set().insert(s[i]));
}

/// A state that can be written: a fixed base, one layer of values over it, and the
/// log of what was done.
pub struct BranchState {
    base: Arc<State>,
    local: StringMap<Value>,
    /// The keys whose values in the base were removed.
    removed: StringMap<()>,
    changes: Vec<ChangeRecord>,
}

impl View for BranchState {
    type V = Map<Seq<char>, Json>;

    /// What reads see: the layer, and what is left of the base where the layer has no
    /// value.
    open spec fn view(&self) -> Map<Seq<char>, Json> {
        self.base_contents().remove_keys(self.hidden()).union_prefer_right(self.layer())
    }
}

impl BranchState {
    /// The contents of the base.
    pub closed spec fn base_contents(self) -> Map<Seq<char>, Json> {
        self.base@
    }

    /// The values written over the base.
    pub closed spec fn layer(self) -> Map<Seq<char>, Json> {
        json::map_json(self.local@)
    }

    /// The keys whose values in the base were removed.
    pub closed spec fn hidden(self) -> Set<Seq<char>> {
        self.removed@.dom()
    }

    /// The log.
    pub closed spec fn log(self) -> Seq<Change> {
        changes_of(self.changes@)
    }

    /// Carrying out the log on the base gives what reads see.
    pub open spec fn in_step(self) -> bool {
        replayed(self.log(), self.base_contents()) == self@
    }

    /// A branch on a state, with nothing changed.
    pub fn from_state(state: State) -> (b: Self)
        ensures
            b.base_contents() == state@,
            b.layer() == Map::<Seq<char>, Json>::empty(),
            b.hidden() == Set::<Seq<char>>::empty(),
            b.log() == Seq::<Change>::empty(),
            b@ == state@,
            b.in_step(),
    {
        let b = BranchState {
            base: Arc::new(state),
            local: StringMap::new(),
            removed: StringMap::new(),
            changes: Vec::new(),
        };
        assert(b.layer() =~= Map::empty());
        assert(b.hidden() =~= Set::empty());
        assert(b.log() =~= Seq::empty());
        assert(b@ =~= state@);
        b
    }

    /// A branch on the empty state.
    pub fn empty() -> (b: Self)
        ensures
            b@ == Map::<Seq<char>, Json>::empty(),
            b.base_contents() == Map::<Seq<char>, Json>::empty(),
            b.layer() == Map::<Seq<char>, Json>::empty(),
            b.hidden() == Set::<Seq<char>>::empty(),
            b.log() == Seq::<Change>::empty(),
            b.in_step(),
    {
        BranchState::from_state(State::new())
    }

    /// The value under a key.
    pub fn get(&self, key: &str) -> (value: Option<&Value>)
        ensures
            match value {
                Some(v) => self@.contains_key(key@) && v@ == self@[key@],
                None => !self@.contains_key(key@),
            },
    {
        match self.local.get(key) {
            Some(v) => Some(v),
            None => if self.removed.contains_key(key) {
                None
            } else {
                self.base.get(key)
            },
        }
    }

    /// The value under a key.
    pub fn get_ref(&self, key: &str) -> (value: Option<&Value>)
        ensures
            match value {
                Some(v) => self@.contains_key(key@) && v@ == self@[key@],
                None => !self@.contains_key(key@),
            },
    {
        self.get(key)
    }

    /// What `read` makes of the value under a key.
    pub fn get_typed<T, R: Fn(&Value) -> Result<T, String>>(&self, key: &str, read: &R) -> (r:
        Option<T>)
        requires
            forall|v: Value| #[trigger] call_requires(read, (&v,)),
        ensures
            state::wished(self@, key@, read, r),
    {
        match self.get(key) {
            Some(v) => {
                let out = read(v);
                let ghost seen = out;
                assert(state::reads_as(self@, key@, read, seen)) by {
                    assert(call_ensures(read, (v,), seen));
                }
                match out {
                    Ok(t) => Some(t),
                    Err(_) => None,
                }
            },
            None => None,
        }
    }

    /// Writes a value and logs it.
    pub fn set(&mut self, key: &str, value: Value)
        ensures
            final(self).base_contents() == old(self).base_contents(),
            final(self).layer() == old(self).layer().insert(key@, value@),
            final(self).hidden() == old(self).hidden(),
            final(self).log() == old(self).log().push(
                (Change { key: key@, operation: ChangeOperation::Put, value: value@ }),
            ),
            final(self)@ == old(self)@.insert(key@, value@),
            old(self).in_step() ==> final(self).in_step(),
    {
        let record = ChangeRecord {
            key: key.to_owned(),
            operation: ChangeOperation::Put,
            value: value.clone(),
        };
        let ghost change = record@;
        self.changes.push(record);
        self.local.insert(key.to_owned(), value);
        proof {
            assert(self.log() =~= old(self).log().push(change));
            assert(self.layer() =~= old(self).layer().insert(key@, value@));
            assert(self@ =~= old(self)@.insert(key@, value@));
            assert(self.log().drop_last() =~= old(self).log());
        }
    }

    /// Removes a value and logs it. The base keeps its own.
    pub fn remove(&mut self, key: &str)
        ensures
            final(self).base_contents() == old(self).base_contents(),
            final(self).layer() == old(self).layer().remove(key@),
            final(self).hidden() == old(self).hidden().insert(key@),
            final(self).log() == old(self).log().push(
                (Change { key: key@, operation: ChangeOperation::Delete, value: Json::Null }),
            ),
            final(self)@ == old(self)@.remove(key@),
            old(self).in_step() ==> final(self).in_step(),
    {
        proof {
            json::lemma_value(Value::Null);
        }
        let record = ChangeRecord {
            key: key.to_owned(),
            operation: ChangeOperation::Delete,
            value: Value::Null,
        };
        let ghost change = record@;
        self.changes.push(record);
        self.local.remove(key);
        self.removed.insert(key.to_owned(), ());
        proof {
            assert(self.log() =~= old(self).log().push(change));
            assert(self.layer() =~= old(self).layer().remove(key@));
            assert(self.hidden() =~= old(self).hidden().insert(key@));
            assert(self@ =~= old(self)@.remove(key@));
            assert(self.log().drop_last() =~= old(self).log());
        }
    }

    /// A new branch on what reads see here. It reads the same and has no log.
    pub fn fork(&self) -> (b: BranchState)
        ensures
            b@ == self@,
            b.base_contents() == self@,
            b.layer() == Map::<Seq<char>, Json>::empty(),
            b.hidden() == Set::<Seq<char>>::empty(),
            b.log() == Seq::<Change>::empty(),
            b.in_step(),
    {
        BranchState::from_state(self.to_state())
    }

    /// The state that reads see.
    pub fn to_state(&self) -> (state: State)
        ensures
            state@ == self@,
    {
        let mut state = (*self.base).clone();
        let removed = self.removed.keys();
        let ghost gone = text::texts(removed@);
        let mut i: usize = 0;
        assert(state@ =~= self.base_contents().remove_keys(gone.take(0).to_set()));
        while i < removed.len()
            invariant
                i <= removed@.len(),
                gone == text::texts(removed@),
                state@ == self.base_contents().remove_keys(gone.take(i as int).to_set()),
            decreases removed@.len() - i,
        {
            state.remove(removed[i].as_str());
            i += 1;
            proof {
                lemma_one_more(gone, i - 1);
                assert(state@ =~= self.base_contents().remove_keys(gone.take(i as int).to_set()));
            }
        }
        proof {
            assert(gone.take(gone.len() as int) =~= gone);
            assert forall|k: Seq<char>| gone.to_set().contains(k) <==> self.hidden().contains(k) by {
                assert(self.removed@.contains_key(k) <==> gone.contains(k));
            }
            assert(gone.to_set() =~= self.hidden());
        }
        let layer = State::from_map(json::copy_map(&self.local));
        state.absorb(layer);
        state
    }

    /// The log.
    pub fn changes(&self) -> (records: &Vec<ChangeRecord>)
        ensures
            changes_of(records@) == self.log(),
    {
        &self.changes
    }

    /// Forgets the log.
    pub fn clear_changes(&mut self)
        ensures
            final(self).log() == Seq::<Change>::empty(),
            final(self).base_contents() == old(self).base_contents(),
            final(self).layer() == old(self).layer(),
            final(self).hidden() == old(self).hidden(),
            final(self)@ == old(self)@,
    {
        self.changes.clear();
        assert(self.log() =~= Seq::empty());
    }

    /// The keys that reads see, each once.
    pub fn keys(&self) -> (keys: Vec<String>)
        ensures
            text::texts(keys@).no_duplicates(),
            forall|k: Seq<char>| #[trigger]
                self@.contains_key(k) <==> text::texts(keys@).contains(k),
    {
        self.to_state().keys()
    }

    /// Whether reads see a key.
    pub fn contains(&self, key: &str) -> (found: bool)
        ensures
            found == self@.contains_key(key@),
    {
        self.local.contains_key(key) || !self.removed.contains_key(key) && self.base.contains(key)
    }

    /// The base.
    pub fn base(&self) -> (state: &State)
        ensures
            state@ == self.base_contents(),
    {
        &self.base
    }
}

impl Clone for BranchState {
    fn clone(&self) -> (copy: Self)
        ensures
            copy@ == self@,
            copy.base_contents() == self.base_contents(),
            copy.layer() == self.layer(),
            copy.hidden() == self.hidden(),
            copy.log() == self.log(),
    {
        let mut changes: Vec<ChangeRecord> = Vec::new();
        let mut i: usize = 0;
        while i < self.changes.len()
            invariant
                i <= self.changes@.len(),
                changes@.len() == i,
                forall|j: int| 0 <= j < i ==> (#[trigger] changes@[j])@ == self.changes@[j]@,
            decreases self.changes@.len() - i,
        {
            changes.push(self.changes[i].clone());
            i += 1;
        }
        assert(changes_of(changes@) =~= changes_of(self.changes@));
        let keys = self.removed.keys();
        let ghost gone = text::texts(keys@);
        let mut removed: StringMap<()> = StringMap::new();
        let mut i: usize = 0;
        assert(removed@.dom() =~= gone.take(0).to_set());
        while i < keys.len()
            invariant
                i <= keys@.len(),
                gone == text::texts(keys@),
                removed@.dom() == gone.take(i as int).to_set(),
            decreases keys@.len() - i,
        {
            removed.insert(keys[i].clone(), ());
            i += 1;
            proof {
                lemma_one_more(gone, i - 1);
                assert(removed@.dom() =~= gone.take(i as int).to_set());
            }
        }
        proof {
            assert(gone.take(gone.len() as int) =~= gone);
            assert forall|k: Seq<char>| gone.to_set().contains(k) <==> self.hidden().contains(k) by {
                assert(self.removed@.contains_key(k) <==> gone.contains(k));
            }
            assert(gone.to_set() =~= self.hidden());
        }
        BranchState {
            base: sharing::share(&self.base),
            local: json::copy_map(&self.local),
            removed,
            changes,
        }
    }
}

/// Logged changes are carried out in order: one part of a log goes on from what the part
/// before it left, a put leaves its value and a deletion leaves nothing under its key.
pub proof fn law_logs_are_replayed_in_order(
    first: Seq<Change>,
    second: Seq<Change>,
    change: Change,
    base: Map<Seq<char>, Json>,
    other: Seq<char>,
)
    ensures
        replayed(Seq::empty(), base) == base,
        replayed(first + second, base) == replayed(second, replayed(first, base)),
        change.operation is Put ==> replayed(seq![change], base).contains_key(change.key)
            && replayed(seq![change], base)[change.key] == change.value,
        change.operation is Delete ==> !replayed(seq![change], base).contains_key(change.key),
        other != change.key ==> replayed(seq![change], base).contains_key(other)
            == base.contains_key(other) && (base.contains_key(other) ==> replayed(
            seq![change],
            base,
        )[other] == base[other]),
    decreases second.len(),
{
    assert(replayed(seq![change].drop_last(), base) == base);
    if second.len() == 0 {
        assert(first + second =~= first);
    } else {
        assert((first + second).drop_last() =~= first + second.drop_last());
        law_logs_are_replayed_in_order(first, second.drop_last(), change, base, other);
    }
}

/// Reads see the layer over the base: a value in the layer, or else one in the base that
/// was not removed, or else nothing.
pub proof fn law_layers_lie_over_the_base(b: BranchState, key: Seq<char>)
    ensures
        b.layer().contains_key(key) ==> b@.contains_key(key) && b@[key] == b.layer()[key],
        !b.layer().contains_key(key) && b.hidden().contains(key) ==> !b@.contains_key(key),
        !b.layer().contains_key(key) && !b.hidden().contains(key) ==> b@.contains_key(key)
            == b.base_contents().contains_key(key) && (b@.contains_key(key) ==> b@[key]
            == b.base_contents()[key]),
{
}

/// The changes of records are those of each record, in order, with its key, its operation and
/// its value.
pub proof fn law_records_tell_their_change(records: Seq<ChangeRecord>, i: int)
    ensures
        changes_of(records).len() == records.len(),
        0 <= i < records.len() ==> changes_of(records)[i].key == records[i].key@
            && changes_of(records)[i].operation == records[i].operation && changes_of(
            records,
        )[i].value == records[i].value@,
{
}

} // verus!
