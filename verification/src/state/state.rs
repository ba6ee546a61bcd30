//! The dynamic state: values by key. Also what a run leaves behind.

use vstd::prelude::*;

use crate::checkpoint::trace::ExecutionTrace;
use crate::ids::TraceId;
use crate::json;
use crate::json::{Json, Number, Value};
use crate::state::branch_state;
use crate::state::branch_state::{ChangeOperation, ChangeRecord};
use crate::state::workflow_state;
use crate::state::workflow_state::{MergeStrategy, WorkflowError, WorkflowState};
use crate::string_map::StringMap;
use crate::text;
use crate::time;
use crate::time::{Duration, Instant};

verus! {

/// Values by key.
pub struct State {
    inner: StringMap<Value>,
}

impl View for State {
    type V = Map<Seq<char>, Json>;

    closed spec fn view(&self) -> Map<Seq<char>, Json> {
        json::map_json(self.inner@)
    }
}

/// The value as a non-negative integer.
pub open spec fn json_u64(v: Json) -> Option<u64> {
    match v {
        Json::Number(Number::PosInt(n)) => Some(n),
        _ => None,
    }
}

/// The value as a signed integer.
pub open spec fn json_i64(v: Json) -> Option<i64> {
    match v {
        Json::Number(Number::PosInt(n)) => if n <= i64::MAX {
            Some(n as i64)
        } else {
            None
        },
        Json::Number(Number::NegInt(n)) => Some(n),
        _ => None,
    }
}

impl State {
    /// The empty state.
    pub fn new() -> (s: Self)
        ensures
            s@ == Map::<Seq<char>, Json>::empty(),
    {
        let s = State { inner: StringMap::new() };
        assert(s@ =~= Map::empty());
        s
    }

    /// The state of a map of values.
    pub fn from_map(map: StringMap<Value>) -> (s: Self)
        ensures
            s@ == json::map_json(map@),
    {
        State { inner: map }
    }

    /// The map of values of a state.
    pub fn into_map(self) -> (map: StringMap<Value>)
        ensures
            json::map_json(map@) == self@,
    {
        self.inner
    }

    /// The map of values, to read.
    pub fn as_map(&self) -> (map: &StringMap<Value>)
        ensures
            json::map_json(map@) == self@,
    {
        &self.inner
    }

    /// The value under a key.
    pub fn get(&self, key: &str) -> (value: Option<&Value>)
        ensures
            match value {
                Some(v) => self@.contains_key(key@) && v@ == self@[key@],
                None => !self@.contains_key(key@),
            },
    {
        self.inner.get(key)
    }

    /// Puts a value under a key and hands back the one that was there.
    pub fn insert(&mut self, key: String, value: Value) -> (previous: Option<Value>)
        ensures
            final(self)@ == old(self)@.insert(key@, value@),
            match previous {
                Some(v) => old(self)@.contains_key(key@) && v@ == old(self)@[key@],
                None => !old(self)@.contains_key(key@),
            },
    {
        let previous = self.inner.insert(key, value);
        assert(self@ =~= old(self)@.insert(key@, value@));
        previous
    }

    /// Takes a key out and hands back its value.
    pub fn remove(&mut self, key: &str) -> (removed: Option<Value>)
        ensures
            final(self)@ == old(self)@.remove(key@),
            match removed {
                Some(v) => old(self)@.contains_key(key@) && v@ == old(self)@[key@],
                None => !old(self)@.contains_key(key@),
            },
    {
        let removed = self.inner.remove(key);
        assert(self@ =~= old(self)@.remove(key@));
        removed
    }

    /// Whether there is a value under a key.
    pub fn contains(&self, key: &str) -> (found: bool)
        ensures
            found == self@.contains_key(key@),
    {
        self.inner.contains_key(key)
    }

    /// The number of keys.
    pub fn len(&self) -> (n: usize)
        ensures
            n == self@.dom().len(),
            self@.dom().finite(),
    {
        assert(self@.dom() =~= self.inner@.dom());
        self.inner.len()
    }

    /// Whether there is no key.
    pub fn is_empty(&self) -> (empty: bool)
        ensures
            empty == (self@ == Map::<Seq<char>, Json>::empty()),
    {
        proof {
            if self@ == Map::<Seq<char>, Json>::empty() {
                assert(self.inner@.dom() =~= self@.dom());
                assert(self.inner@ =~= Map::<Seq<char>, Value>::empty());
            }
            if self.inner@ == Map::<Seq<char>, Value>::empty() {
                assert(self@ =~= Map::<Seq<char>, Json>::empty());
            }
        }
        self.inner.is_empty()
    }

    /// The keys, each once.
    pub fn keys(&self) -> (keys: Vec<String>)
        ensures
            text::texts(keys@).no_duplicates(),
            forall|k: Seq<char>| #[trigger]
                self@.contains_key(k) <==> text::texts(keys@).contains(k),
    {
        let keys = self.inner.keys();
        assert forall|k: Seq<char>| #[trigger] self@.contains_key(k) <==> text::texts(
            keys@,
        ).contains(k) by {
            assert(self@.contains_key(k) <==> self.inner@.contains_key(k));
        }
        keys
    }

    /// The text under a key.
    pub fn get_str(&self, key: &str) -> (s: Option<&str>)
        ensures
            match s {
                Some(t) => self@.contains_key(key@) && self@[key@] == Json::String(t@),
                None => !self@.contains_key(key@) || !(self@[key@] is String),
            },
    {
        match self.inner.get(key) {
            Some(v) => {
                proof {
                    json::lemma_value(*v);
                }
                match v {
                    Value::String(s) => Some(s.as_str()),
                    _ => None,
                }
            },
            None => None,
        }
    }

    /// The truth value under a key.
    pub fn get_bool(&self, key: &str) -> (b: Option<bool>)
        ensures
            match b {
                Some(t) => self@.contains_key(key@) && self@[key@] == Json::Bool(t),
                None => !self@.contains_key(key@) || !(self@[key@] is Bool),
            },
    {
        match self.inner.get(key) {
            Some(v) => {
                proof {
                    json::lemma_value(*v);
                }
                match v {
                    Value::Bool(b) => Some(*b),
                    _ => None,
                }
            },
            None => None,
        }
    }

    /// The number under a key.
    pub fn get_number(&self, key: &str) -> (n: Option<Number>)
        ensures
            match n {
                Some(t) => self@.contains_key(key@) && self@[key@] == Json::Number(t),
                None => !self@.contains_key(key@) || !(self@[key@] is Number),
            },
    {
        match self.inner.get(key) {
            Some(v) => {
                proof {
                    json::lemma_value(*v);
                }
                match v {
                    Value::Number(n) => Some(*n),
                    _ => None,
                }
            },
            None => None,
        }
    }

    /// The non-negative integer under a key.
    pub fn get_u64(&self, key: &str) -> (n: Option<u64>)
        ensures
            n == (if self@.contains_key(key@) {
                json_u64(self@[key@])
            } else {
                None
            }),
    {
        match self.get_number(key) {
            Some(Number::PosInt(n)) => Some(n),
            _ => None,
        }
    }

    /// The signed integer under a key.
    pub fn get_i64(&self, key: &str) -> (n: Option<i64>)
        ensures
            n == (if self@.contains_key(key@) {
                json_i64(self@[key@])
            } else {
                None
            }),
    {
        match self.get_number(key) {
            Some(Number::PosInt(n)) => if n <= i64::MAX as u64 {
                Some(n as i64)
            } else {
                None
            },
            Some(Number::NegInt(n)) => Some(n),
            _ => None,
        }
    }

    /// What `read` makes of the value under a key, an error without one.
    pub fn get_json<T, R: Fn(&Value) -> Result<T, String>>(&self, key: &str, read: &R) -> (r: Result<
        T,
        StateError,
    >)
        requires
            forall|v: Value| #[trigger] call_requires(read, (&v,)),
        ensures
            required(self@, key@, read, r),
    {
        match self.inner.get(key) {
            Some(v) => {
                let out = read(v);
                let ghost seen = out;
                assert(reads_as(self@, key@, read, seen)) by {
                    assert(call_ensures(read, (v,), seen));
                }
                match out {
                    Ok(t) => Ok(t),
                    Err(m) => Err(StateError::Deserialize(key.to_owned(), m)),
                }
            },
            None => Err(StateError::MissingKey(key.to_owned())),
        }
    }

    /// What `read` makes of the value under a key, an error without one.
    pub fn require<T, R: Fn(&Value) -> Result<T, String>>(&self, key: &str, read: &R) -> (r: Result<
        T,
        StateError,
    >)
        requires
            forall|v: Value| #[trigger] call_requires(read, (&v,)),
        ensures
            required(self@, key@, read, r),
    {
        self.get_json(key, read)
    }

    /// Makes a logged change.
    pub fn apply_branch_change(&mut self, change: &ChangeRecord)
        ensures
            final(self)@ == branch_state::replayed(seq![change@], old(self)@),
    {
        proof {
            reveal_with_fuel(branch_state::replayed, 2);
        }
        match change.operation {
            ChangeOperation::Put => {
                self.insert(change.key.clone(), change.value.clone());
            },
            ChangeOperation::Delete => {
                self.remove(change.key.as_str());
            },
        }
    }

    /// Puts a value under a key, `null` where the value could not be written down.
    pub fn set(&mut self, key: &str, value: Option<Value>)
        ensures
            final(self)@ == old(self)@.insert(
                key@,
                match value {
                    Some(v) => v@,
                    None => Json::Null,
                },
            ),
    {
        let value = match value {
            Some(v) => v,
            None => {
                proof {
                    json::lemma_value(Value::Null);
                }
                Value::Null
            },
        };
        self.insert(key.to_owned(), value);
    }

    /// Joins a new value with the one under a key. A reducer's error leaves the
    /// state as it was.
    pub fn reduce<R: Fn(&Value, &Value) -> Result<Value, String>>(
        &mut self,
        key: &str,
        value: Value,
        reducer: &R,
    ) -> (r: Result<(), String>)
        requires
            forall|v: Value| old(self)@.contains_key(key@) && v@ == old(self)@[key@]
                ==> call_requires(reducer, (&v, &value)),
        ensures
            if old(self)@.contains_key(key@) {
                exists|v: Value, out: Result<Value, String>| #[trigger]
                    call_ensures(reducer, (&v, &value), out) && v@ == old(self)@[key@] && (
                    match out {
                        Ok(joined) => r is Ok && final(self)@ == old(self)@.insert(
                            key@,
                            joined@,
                        ),
                        Err(e) => r == Err::<(), String>(e) && final(self)@ == old(self)@,
                    })
            } else {
                r is Ok && final(self)@ == old(self)@.insert(key@, value@)
            },
    {
        let joined = match self.inner.get(key) {
            Some(existing) => {
                let out = reducer(existing, &value);
                assert(call_ensures(reducer, (existing, &value), out));
                match out {
                    Ok(joined) => joined,
                    Err(e) => return Err(e),
                }
            },
            None => value,
        };
        self.insert(key.to_owned(), joined);
        Ok(())
    }

    /// Adds the items of a list to the list under a key.
    pub fn append_array(&mut self, key: &str, items: Value) -> (r: Result<(), String>)
        ensures
            if !(items@ is Array) {
                r matches Err(e) && e@ == "append_array expects an array"@ && final(self)@ == old(
                    self,
                )@
            } else if !old(self)@.contains_key(key@) {
                r is Ok && final(self)@ == old(self)@.insert(key@, items@)
            } else if !(old(self)@[key@] is Array) {
                r matches Err(e) && e@ == "append_array: existing value is not an array"@
                    && final(self)@ == old(self)@
            } else {
                r is Ok && final(self)@ == old(self)@.insert(
                    key@,
                    Json::Array(old(self)@[key@]->Array_0 + items@->Array_0),
                )
            },
    {
        proof {
            json::lemma_value(items);
        }
        let appended = match &items {
            Value::Array(new_items) => match self.inner.get(key) {
                Some(existing) => {
                    proof {
                        json::lemma_value(*existing);
                    }
                    match existing {
                        Value::Array(base) => Some(join_arrays(base, new_items)),
                        _ => {
                            return Err("append_array: existing value is not an array".to_owned());
                        },
                    }
                },
                None => None,
            },
            _ => {
                return Err("append_array expects an array".to_owned());
            },
        };
        match appended {
            Some(all) => {
                let value = Value::Array(all);
                proof {
                    json::lemma_value(value);
                }
                self.insert(key.to_owned(), value);
            },
            None => {
                self.insert(key.to_owned(), items);
            },
        }
        Ok(())
    }

    /// Puts the values of another state over those of this one.
    pub fn absorb(&mut self, other: State)
        ensures
            final(self)@ == old(self)@.union_prefer_right(other@),
    {
        json::extend_map(&mut self.inner, other.inner);
    }
}

/// What `read` makes of a value with the contents under a key.
pub open spec fn reads_as<T, R: Fn(&Value) -> Result<T, String>>(
    contents: Map<Seq<char>, Json>,
    key: Seq<char>,
    read: &R,
    out: Result<T, String>,
) -> bool {
    contents.contains_key(key) && exists|v: Value| #[trigger]
        call_ensures(read, (&v,), out) && v@ == contents[key]
}

/// What comes of asking for a value: what `read` makes of it, its error, or the error
/// that there is none.
pub open spec fn required<T, R: Fn(&Value) -> Result<T, String>>(
    contents: Map<Seq<char>, Json>,
    key: Seq<char>,
    read: &R,
    r: Result<T, StateError>,
) -> bool {
    if contents.contains_key(key) {
        match r {
            Ok(t) => reads_as(contents, key, read, Ok::<T, String>(t)),
            Err(e) => e matches StateError::Deserialize(k, m) && k@ == key && reads_as(
                contents,
                key,
                read,
                Err::<T, String>(m),
            ),
        }
    } else {
        r matches Err(StateError::MissingKey(k)) && k@ == key
    }
}

/// What comes of asking for a value that may be missing or of another form.
pub open spec fn wished<T, R: Fn(&Value) -> Result<T, String>>(
    contents: Map<Seq<char>, Json>,
    key: Seq<char>,
    read: &R,
    r: Option<T>,
) -> bool {
    match r {
        Some(t) => reads_as(contents, key, read, Ok::<T, String>(t)),
        None => !contents.contains_key(key) || exists|m: String| #[trigger]
            reads_as(contents, key, read, Err::<T, String>(m)),
    }
}

/// The items of two lists, one list after the other.
fn join_arrays(base: &Vec<Value>, more: &Vec<Value>) -> (all: Vec<Value>)
    ensures
        json::values_json(all@) == json::values_json(base@) + json::values_json(more@),
{
    let mut all = json::copy_values(base);
    let mut tail = json::copy_values(more);
    let ghost x = all@;
    let ghost y = tail@;
    all.append(&mut tail);
    assert(all@ =~= x + y);
    assert forall|i: int| 0 <= i < (x + y).len() implies json::values_json(x + y)[i] == (
    json::values_json(x) + json::values_json(y))[i] by {
        if i < x.len() {
            assert((x + y)[i] == x[i]);
        } else {
            assert((x + y)[i] == y[i - x.len()]);
        }
    }
    assert(json::values_json(all@) =~= json::values_json(base@) + json::values_json(more@));
    all
}

/// The reducer that adds the items of one list to another.
pub fn array_reducer(existing: &Value, new: &Value) -> (r: Result<Value, String>)
    ensures
        if !(existing@ is Array) {
            r matches Err(e) && e@ == "array_reducer: existing is not an array"@
        } else if !(new@ is Array) {
            r matches Err(e) && e@ == "array_reducer: new value is not an array"@
        } else {
            r matches Ok(v) && v@ == Json::Array(existing@->Array_0 + new@->Array_0)
        },
{
    proof {
        json::lemma_value(*existing);
        json::lemma_value(*new);
    }
    match existing {
        Value::Array(base) => match new {
            Value::Array(items) => {
                let v = Value::Array(join_arrays(base, items));
                proof {
                    json::lemma_value(v);
                }
                Ok(v)
            },
            _ => Err("array_reducer: new value is not an array".to_owned()),
        },
        _ => Err("array_reducer: existing is not an array".to_owned()),
    }
}

impl Clone for State {
    fn clone(&self) -> (copy: Self)
        ensures
            copy@ == self@,
    {
        State { inner: json::copy_map(&self.inner) }
    }
}

impl Default for State {
    fn default() -> (s: Self)
        ensures
            s@ == Map::<Seq<char>, Json>::empty(),
    {
        State::new()
    }
}

/// A command on the dynamic state.
pub enum StateMutation {
    /// Put a value under a key.
    Put(String, Value),
    /// Take a key out.
    Delete(String),
}

impl StateMutation {
    /// The command's result on the contents of a state.
    pub open spec fn result(self, before: Map<Seq<char>, Json>) -> Map<Seq<char>, Json> {
        match self {
            StateMutation::Put(key, value) => before.insert(key@, value@),
            StateMutation::Delete(key) => before.remove(key@),
        }
    }
}

impl StateMutation {
    /// Two commands are the same.
    pub open spec fn same(self, other: Self) -> bool {
        match (self, other) {
            (StateMutation::Put(a, v), StateMutation::Put(b, w)) => a@ == b@ && v@ == w@,
            (StateMutation::Delete(a), StateMutation::Delete(b)) => a@ == b@,
            _ => false,
        }
    }
}

impl Clone for StateMutation {
    fn clone(&self) -> (copy: Self)
        ensures
            copy.same(*self),
    {
        match self {
            StateMutation::Put(key, value) => StateMutation::Put(key.clone(), value.clone()),
            StateMutation::Delete(key) => StateMutation::Delete(key.clone()),
        }
    }
}

impl workflow_state::StateMutation<State> for StateMutation {
    open spec fn effect(self, before: State, after: State) -> bool {
        after@ == self.result(before@)
    }

    fn apply(self, state: &mut State) {
        match self {
            StateMutation::Put(key, value) => {
                state.insert(key, value);
            },
            StateMutation::Delete(key) => {
                state.remove(key.as_str());
            },
        }
    }
}

/// The contents after a list of commands.
pub open spec fn results(commands: Seq<StateMutation>, before: Map<Seq<char>, Json>) -> Map<
    Seq<char>,
    Json,
>
    decreases commands.len(),
{
    if commands.len() == 0 {
        before
    } else {
        commands.last().result(results(commands.drop_last(), before))
    }
}

/// A batch of commands leaves the contents that its commands give one by one.
pub proof fn law_batch_results(commands: Seq<StateMutation>, before: State, after: State)
    requires
        workflow_state::batch_effect(commands, before, after),
    ensures
        after@ == results(commands, before@),
    decreases commands.len(),
{
    if commands.len() > 0 {
        let between = choose|between: State|
            workflow_state::batch_effect(commands.drop_last(), before, between)
                && #[trigger] workflow_state::StateMutation::effect(
                commands.last(),
                between,
                after,
            );
        law_batch_results(commands.drop_last(), before, between);
    }
}

impl WorkflowState for State {
    type Checkpoint = State;

    type Mutation = StateMutation;

    open spec fn captured(self, checkpoint: State) -> bool {
        checkpoint@ == self@
    }

    open spec fn recovered(self, checkpoint: State) -> bool {
        self@ == checkpoint@
    }

    open spec fn modified(self, key: Seq<char>, value: Json, after: State) -> bool {
        after@ == self@.insert(key, value)
    }

    fn snapshot(&self) -> (checkpoint: State) {
        self.clone()
    }

    fn restore(checkpoint: State) -> (state: Self) {
        checkpoint
    }

    fn modify(&mut self, key: &str, value: &Value) {
        self.insert(key.to_owned(), value.clone());
    }
}

/// A copy of a batch, such as a trace keeps, does what the batch did.
pub proof fn law_copied_batches_do_the_same(
    batch: Seq<StateMutation>,
    copy: Seq<StateMutation>,
    before: Map<Seq<char>, Json>,
)
    requires
        copy.len() == batch.len(),
        forall|i: int| 0 <= i < batch.len() ==> cloned(#[trigger] batch[i], copy[i]),
    ensures
        results(copy, before) == results(batch, before),
    decreases batch.len(),
{
    if batch.len() > 0 {
        let n = batch.len() - 1;
        assert(cloned(batch[n], copy[n]));
        assert forall|i: int| 0 <= i < n implies cloned(
            #[trigger] batch.drop_last()[i],
            copy.drop_last()[i],
        ) by {
            assert(cloned(batch[i], copy[i]));
        }
        law_copied_batches_do_the_same(batch.drop_last(), copy.drop_last(), before);
    }
}

/// What a checkpoint keeps of the dynamic state is all of it.
pub proof fn law_checkpoint_keeps_state(before: State, checkpoint: State, after: State)
    requires
        before.captured(checkpoint),
        after.recovered(checkpoint),
    ensures
        after@ == before@,
{
}

/// The contents of states, later ones over earlier ones.
pub open spec fn overlaid(states: Seq<State>) -> Map<Seq<char>, Json>
    decreases states.len(),
{
    if states.len() == 0 {
        Map::empty()
    } else {
        overlaid(states.drop_last()).union_prefer_right(states.last()@)
    }
}

/// A merged state holds a key exactly when some branch does.
pub proof fn law_merge_keys(states: Seq<State>, key: Seq<char>)
    ensures
        overlaid(states).contains_key(key) <==> exists|i: int|
            0 <= i < states.len() && (#[trigger] states[i])@.contains_key(key),
    decreases states.len(),
{
    if states.len() > 0 {
        let front = states.drop_last();
        law_merge_keys(front, key);
        if exists|i: int| 0 <= i < states.len() && (#[trigger] states[i])@.contains_key(key) {
            let i = choose|i: int| 0 <= i < states.len() && (#[trigger] states[i])@.contains_key(key);
            if i < front.len() {
                assert(front[i]@.contains_key(key));
            }
        }
        if overlaid(states).contains_key(key) {
            if states.last()@.contains_key(key) {
                assert(states[states.len() - 1]@.contains_key(key));
            } else {
                let i = choose|i: int| 0 <= i < front.len() && (#[trigger] front[i])@.contains_key(key);
                assert(states[i]@.contains_key(key));
            }
        }
    }
}

/// Under a key, a merged state holds the value of the last branch with that key.
pub proof fn law_merge_last_wins(states: Seq<State>, key: Seq<char>, i: int)
    requires
        0 <= i < states.len(),
        states[i]@.contains_key(key),
        forall|j: int| i < j < states.len() ==> !(#[trigger] states[j])@.contains_key(key),
    ensures
        overlaid(states)[key] == states[i]@[key],
    decreases states.len(),
{
    let front = states.drop_last();
    if i < front.len() {
        assert(front[i] == states[i]);
        assert(!states[states.len() - 1]@.contains_key(key));
        assert forall|j: int| i < j < front.len() implies !(#[trigger] front[j])@.contains_key(key) by {
            assert(front[j] == states[j]);
        }
        law_merge_last_wins(front, key, i);
        law_merge_keys(front, key);
    }
}

/// The strategy that merges key by key, later branches over earlier ones.
pub struct StateMerge;

impl MergeStrategy<State> for StateMerge {
    open spec fn merged(branches: Seq<State>, result: Result<State, WorkflowError>) -> bool {
        result matches Ok(s) && s@ == overlaid(branches)
    }

    fn merge(branches: Vec<State>) -> (result: Result<State, WorkflowError>) {
        let ghost all = branches@;
        let mut merged = State::new();
        assert(all.take(0) =~= Seq::empty());
        for state in it: branches
            invariant
                it.seq() == all,
                merged@ == overlaid(all.take(it.index() as int)),
        {
            let ghost k = it.index() as int;
            let ghost added = state;
            merged.absorb(state);
            proof {
                assert(all.take(k + 1).drop_last() =~= all.take(k));
                assert(all.take(k + 1).last() == added);
            }
        }
        assert(all.take(all.len() as int) =~= all);
        Ok(merged)
    }

    fn default_instance() -> Self {
        StateMerge
    }
}

/// An error of an operation on the dynamic state.
#[derive(Debug)]
pub enum StateError {
    /// There is no such key.
    MissingKey(String),
    /// The value under a key has another form.
    Deserialize(String, String),
    /// A reducer failed.
    ReducerConflict(String, String),
    /// A change could not be made.
    DeltaApply(String, String),
    /// Several writers wrote the same key.
    StateConflict { key: String, writers: Vec<String> },
}

impl StateError {
    /// The text of the error.
    pub open spec fn message(self) -> Seq<char> {
        match self {
            StateError::MissingKey(key) => "state key '"@ + key@ + "' is missing"@,
            StateError::Deserialize(key, e) => "failed to deserialize state key '"@ + key@
                + "': "@ + e@,
            StateError::ReducerConflict(key, e) => "reducer conflict on key '"@ + key@ + "': "@
                + e@,
            StateError::DeltaApply(key, e) => "failed to apply delta on key '"@ + key@ + "': "@
                + e@,
            StateError::StateConflict { key, writers } => "state conflict on key '"@ + key@
                + "': concurrent writers ["@ + text::joined(text::texts(writers@), ", "@) + "]"@,
        }
    }

    /// The text of the error.
    pub fn to_string(&self) -> (s: String)
        ensures
            s@ == self.message(),
    {
        match self {
            StateError::MissingKey(key) => {
                let mut s = "state key '".to_owned();
                s.append(key.as_str());
                s.append("' is missing");
                s
            },
            StateError::Deserialize(key, e) => {
                let mut s = "failed to deserialize state key '".to_owned();
                s.append(key.as_str());
                s.append("': ");
                s.append(e.as_str());
                s
            },
            StateError::ReducerConflict(key, e) => {
                let mut s = "reducer conflict on key '".to_owned();
                s.append(key.as_str());
                s.append("': ");
                s.append(e.as_str());
                s
            },
            StateError::DeltaApply(key, e) => {
                let mut s = "failed to apply delta on key '".to_owned();
                s.append(key.as_str());
                s.append("': ");
                s.append(e.as_str());
                s
            },
            StateError::StateConflict { key, writers } => {
                let mut s = "state conflict on key '".to_owned();
                s.append(key.as_str());
                s.append("': concurrent writers [");
                s.append(text::join(writers, ", ").as_str());
                s.append("]");
                s
            },
        }
    }
}

/// What a finished run leaves. `S` is the type of states.
pub struct GraphResult<S: WorkflowState> {
    pub trace_id: TraceId,
    pub state: S,
    pub execution_log: Vec<ExecutionEntry>,
    pub duration: Duration,
    /// The changes of the run, if they were traced.
    pub trace: Option<ExecutionTrace<S::Mutation>>,
}

/// The record of one node's run.
pub struct ExecutionEntry {
    /// The number of the step.
    pub step: usize,
    pub node_name: String,
    pub start_time: Instant,
    pub end_time: Instant,
    pub success: bool,
    /// What went wrong, if anything did.
    pub error: Option<String>,
}

/// The JSON form of an optional text.
pub open spec fn optional_text(s: Option<String>) -> Json {
    match s {
        Some(t) => Json::String(t@),
        None => Json::Null,
    }
}

impl ExecutionEntry {
    /// How long the node ran.
    pub fn elapsed(&self) -> (d: Duration)
        ensures
            d@ == self.end_time.since(self.start_time),
    {
        self.end_time.duration_since(self.start_time)
    }

    /// The JSON form of the record.
    pub open spec fn json(self, now: Instant, now_secs: u64) -> Map<Seq<char>, Json> {
        map![
            "step"@ => Json::Number(Number::PosInt(self.step as u64)),
            "node_name"@ => Json::String(self.node_name@),
            "start_time"@ => Json::String(time::iso_text(time::unix_secs(self.start_time, now, now_secs))),
            "end_time"@ => Json::String(time::iso_text(time::unix_secs(self.end_time, now, now_secs))),
            "success"@ => Json::Bool(self.success),
            "error"@ => optional_text(self.error),
        ]
    }

    /// The record as JSON, instants as calendar texts, given the present instant
    /// and the seconds since 1970 now.
    pub fn to_json_value(&self, now: &Instant, now_secs: u64) -> (v: Value)
        ensures
            v@ == Json::Object(self.json(*now, now_secs)),
    {
        let mut m: StringMap<Value> = StringMap::new();
        let step = Value::Number(Number::PosInt(self.step as u64));
        let node_name = Value::String(self.node_name.clone());
        let start_time = Value::String(time::instant_to_iso(&self.start_time, now, now_secs));
        let end_time = Value::String(time::instant_to_iso(&self.end_time, now, now_secs));
        let success = Value::Bool(self.success);
        let error = match &self.error {
            Some(e) => Value::String(e.clone()),
            None => Value::Null,
        };
        proof {
            json::lemma_value(step);
            json::lemma_value(node_name);
            json::lemma_value(start_time);
            json::lemma_value(end_time);
            json::lemma_value(success);
            json::lemma_value(error);
        }
        m.insert("step".to_owned(), step);
        m.insert("node_name".to_owned(), node_name);
        m.insert("start_time".to_owned(), start_time);
        m.insert("end_time".to_owned(), end_time);
        m.insert("success".to_owned(), success);
        m.insert("error".to_owned(), error);
        assert(json::map_json(m@) =~= self.json(*now, now_secs));
        let v = Value::Object(m);
        proof {
            json::lemma_value(v);
        }
        v
    }
}

/// A command acts on its own key and on no other.
pub proof fn law_commands_act_on_their_key(
    command: StateMutation,
    before: Map<Seq<char>, Json>,
    other: Seq<char>,
)
    ensures
        command matches StateMutation::Put(k, v) ==> command.result(before).contains_key(k@)
            && command.result(before)[k@] == v@,
        command matches StateMutation::Delete(k) ==> !command.result(before).contains_key(k@),
        (match command {
            StateMutation::Put(k, _) => k@ != other,
            StateMutation::Delete(k) => k@ != other,
        }) ==> command.result(before).contains_key(other) == before.contains_key(other) && (
        before.contains_key(other) ==> command.result(before)[other] == before[other]),
{
}

/// Commands are carried out in order: a batch after another goes on from what that one
/// left, so that the last command on a key decides.
pub proof fn law_commands_go_in_order(
    first: Seq<StateMutation>,
    second: Seq<StateMutation>,
    command: StateMutation,
    before: Map<Seq<char>, Json>,
)
    ensures
        results(Seq::empty(), before) == before,
        results(seq![command], before) == command.result(before),
        results(first + second, before) == results(second, results(first, before)),
    decreases second.len(),
{
    assert(results(seq![command].drop_last(), before) == before);
    if second.len() == 0 {
        assert(first + second =~= first);
    } else {
        assert((first + second).drop_last() =~= first + second.drop_last());
        law_commands_go_in_order(first, second.drop_last(), command, before);
    }
}

/// What a command, a snapshot, a restoration or a modification by hand does to the dynamic
/// state is told by its contents.
pub proof fn law_contents_tell(
    command: StateMutation,
    before: State,
    after: State,
    key: Seq<char>,
    value: Json,
    other: Seq<char>,
)
    ensures
        workflow_state::StateMutation::effect(command, before, after) ==> after@ == command.result(
            before@,
        ),
        before.captured(after) <==> after@ == before@,
        before.recovered(after) <==> after@ == before@,
        before.modified(key, value, after) ==> after@.contains_key(key) && after@[key] == value,
        before.modified(key, value, after) && other != key ==> after@.contains_key(other)
            == before@.contains_key(other) && (before@.contains_key(other) ==> after@[other]
            == before@[other]),
{
}

/// Merging key by key gives the value of the last branch that has the key, has a key
/// exactly if some branch has it, and never fails.
pub proof fn law_branches_are_merged_key_by_key(
    branches: Seq<State>,
    result: Result<State, WorkflowError>,
    key: Seq<char>,
    i: int,
)
    requires
        <StateMerge as MergeStrategy<State>>::merged(branches, result),
    ensures
        result is Ok,
        result->Ok_0@.contains_key(key) <==> exists|j: int|
            0 <= j < branches.len() && (#[trigger] branches[j])@.contains_key(key),
        0 <= i < branches.len() && branches[i]@.contains_key(key) && (forall|j: int|
            i < j < branches.len() ==> !(#[trigger] branches[j])@.contains_key(key))
            ==> result->Ok_0@[key] == branches[i]@[key],
{
    law_merge_keys(branches, key);
    if 0 <= i < branches.len() && branches[i]@.contains_key(key) && (forall|j: int|
        i < j < branches.len() ==> !(#[trigger] branches[j])@.contains_key(key)) {
        law_merge_last_wins(branches, key, i);
    }
}

/// A number is read as what it is, where it fits, and nothing else is read as a number.
pub proof fn law_numbers_are_read(v: Json)
    ensures
        json_u64(v) is Some ==> v == Json::Number(Number::PosInt(json_u64(v)->0)),
        v matches Json::Number(Number::PosInt(n)) ==> json_u64(v) == Some(n),
        json_u64(v) is Some && json_i64(v) is Some ==> json_u64(v)->0 == json_i64(v)->0,
        v matches Json::Number(Number::PosInt(n)) ==> (json_i64(v) is Some <==> n <= i64::MAX),
        v matches Json::Number(Number::NegInt(n)) ==> json_i64(v) == Some(n),
        !(v is Number) ==> json_u64(v) is None && json_i64(v) is None,
        v matches Json::Number(Number::Float(_)) ==> json_u64(v) is None && json_i64(v) is None,
{
}

/// A value that is asked for is what reading it gives; a missing key and a value that
/// cannot be read are different errors, and both name the key.
pub proof fn law_values_are_asked_for<T, R: Fn(&Value) -> Result<T, String>>(
    contents: Map<Seq<char>, Json>,
    key: Seq<char>,
    read: &R,
    r: Result<T, StateError>,
    o: Option<T>,
)
    ensures
        required(contents, key, read, r) && !contents.contains_key(key) ==> (r matches Err(
            StateError::MissingKey(k),
        ) && k@ == key),
        required(contents, key, read, r) && contents.contains_key(key) ==> !(r matches Err(
            StateError::MissingKey(_),
        )),
        required(contents, key, read, r) ==> (r matches Ok(t) ==> exists|v: Value| #[trigger]
            call_ensures(read, (&v,), Ok::<T, String>(t)) && v@ == contents[key]),
        required(contents, key, read, r) && contents.contains_key(key) && r is Err ==> (r matches Err(
            StateError::Deserialize(k, m),
        ) && k@ == key && exists|v: Value| #[trigger]
            call_ensures(read, (&v,), Err::<T, String>(m)) && v@ == contents[key]),
        wished(contents, key, read, o) && !contents.contains_key(key) ==> o is None,
        wished(contents, key, read, o) ==> (o matches Some(t) ==> exists|v: Value| #[trigger]
            call_ensures(read, (&v,), Ok::<T, String>(t)) && v@ == contents[key]),
{
}

/// The JSON form of a record has each of its parts under a name of its own, and nothing
/// else.
pub proof fn law_records_as_json(e: ExecutionEntry, now: Instant, now_secs: u64, key: Seq<char>)
    ensures
        e.json(now, now_secs).contains_key("step"@) && e.json(now, now_secs)["step"@]
            == Json::Number(Number::PosInt(e.step as u64)),
        e.json(now, now_secs).contains_key("node_name"@) && e.json(now, now_secs)["node_name"@]
            == Json::String(e.node_name@),
        e.json(now, now_secs).contains_key("success"@) && e.json(now, now_secs)["success"@]
            == Json::Bool(e.success),
        e.json(now, now_secs).contains_key("start_time"@) && e.json(now, now_secs)["start_time"@]
            == Json::String(time::iso_text(time::unix_secs(e.start_time, now, now_secs))),
        e.json(now, now_secs).contains_key("end_time"@) && e.json(now, now_secs)["end_time"@]
            == Json::String(time::iso_text(time::unix_secs(e.end_time, now, now_secs))),
        e.json(now, now_secs).contains_key("error"@) && (match e.error {
            Some(t) => e.json(now, now_secs)["error"@] == Json::String(t@),
            None => e.json(now, now_secs)["error"@] == Json::Null,
        }),
        e.json(now, now_secs).contains_key(key) ==> key == "step"@ || key == "node_name"@ || key
            == "success"@ || key == "start_time"@ || key == "end_time"@ || key == "error"@,
{
    reveal_strlit("step");
    reveal_strlit("node_name");
    reveal_strlit("start_time");
    reveal_strlit("end_time");
    reveal_strlit("success");
    reveal_strlit("error");
    assert("step"@.len() == 4 && "node_name"@.len() == 9 && "start_time"@.len() == 10
        && "end_time"@.len() == 8 && "success"@.len() == 7 && "error"@.len() == 5);
}

/// What went wrong with a key is told with the key and the cause, and a conflict with the
/// names of all who wrote.
pub proof fn law_key_errors_are_told(key: String, e: String, writers: Vec<String>)
    ensures
        StateError::MissingKey(key).message() == "state key '"@ + key@ + "' is missing"@,
        StateError::Deserialize(key, e).message() == "failed to deserialize state key '"@ + key@
            + "': "@ + e@,
        StateError::ReducerConflict(key, e).message() == "reducer conflict on key '"@ + key@
            + "': "@ + e@,
        StateError::DeltaApply(key, e).message() == "failed to apply delta on key '"@ + key@
            + "': "@ + e@,
        (StateError::StateConflict { key, writers }).message() == "state conflict on key '"@ + key@
            + "': concurrent writers ["@ + text::joined(text::texts(writers@), ", "@) + "]"@,
{
}

} // verus!
