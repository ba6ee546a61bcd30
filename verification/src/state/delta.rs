//! Changes to single keys, and the rules by which changes of several writers to
//! one key become one value.

use vstd::prelude::*;

use crate::json;
use crate::json::{Json, Number, Value};
use crate::state::state;
use crate::state::state::{State, StateError};
use crate::string_map::StringMap;
use crate::text;

verus! {

/// Who made a change.
#[derive(Debug)]
pub enum DeltaSource {
    /// A node.
    Node { node_id: String },
    /// A hook of a node.
    Hook { node_id: String, hook_name: String },
    /// The joining of several changes.
    ReducerMerge,
    /// The replay of a log.
    ResumeReplay,
}

impl DeltaSource {
    /// The source as text.
    pub open spec fn message(self) -> Seq<char> {
        match self {
            DeltaSource::Node { node_id } => "node:"@ + node_id@,
            DeltaSource::Hook { node_id, hook_name } => "hook:"@ + node_id@ + ":"@ + hook_name@,
            DeltaSource::ReducerMerge => "reducer_merge"@,
            DeltaSource::ResumeReplay => "resume_replay"@,
        }
    }

    /// The source as text.
    pub fn to_string(&self) -> (s: String)
        ensures
            s@ == self.message(),
    {
        match self {
            DeltaSource::Node { node_id } => {
                let mut s = "node:".to_owned();
                s.append(node_id.as_str());
                s
            },
            DeltaSource::Hook { node_id, hook_name } => {
                let mut s = "hook:".to_owned();
                s.append(node_id.as_str());
                s.append(":");
                s.append(hook_name.as_str());
                s
            },
            DeltaSource::ReducerMerge => "reducer_merge".to_owned(),
            DeltaSource::ResumeReplay => "resume_replay".to_owned(),
        }
    }
}

/// What a change does.
#[derive(Clone, Copy, PartialEq, Eq, Structural, Debug)]
pub enum DeltaOp {
    /// Puts the value.
    Put,
    /// Takes the key out.
    Delete,
}

/// A change to one key.
pub struct StateDelta {
    pub key: String,
    pub op: DeltaOp,
    /// The value put, `null` for a deletion.
    pub value: Value,
    pub source: DeltaSource,
}

impl StateDelta {
    /// Puts a value, from a node without a name.
    pub fn put(key: &str, value: Value) -> (d: Self)
        ensures
            d.key@ == key@,
            d.op == DeltaOp::Put,
            d.value == value,
            d.source matches DeltaSource::Node { node_id } && node_id@ == Seq::<char>::empty(),
    {
        StateDelta {
            key: key.to_owned(),
            op: DeltaOp::Put,
            value,
            source: DeltaSource::Node { node_id: String::new() },
        }
    }

    /// Takes a key out, for a node without a name.
    pub fn delete(key: &str) -> (d: Self)
        ensures
            d.key@ == key@,
            d.op == DeltaOp::Delete,
            d.value == Value::Null,
            d.source matches DeltaSource::Node { node_id } && node_id@ == Seq::<char>::empty(),
    {
        StateDelta {
            key: key.to_owned(),
            op: DeltaOp::Delete,
            value: Value::Null,
            source: DeltaSource::Node { node_id: String::new() },
        }
    }

    /// Puts a value.
    pub fn put_with_source(key: &str, value: Value, source: DeltaSource) -> (d: Self)
        ensures
            d.key@ == key@,
            d.op == DeltaOp::Put,
            d.value == value,
            d.source == source,
    {
        StateDelta { key: key.to_owned(), op: DeltaOp::Put, value, source }
    }

    /// Takes a key out.
    pub fn delete_with_source(key: &str, source: DeltaSource) -> (d: Self)
        ensures
            d.key@ == key@,
            d.op == DeltaOp::Delete,
            d.value == Value::Null,
            d.source == source,
    {
        StateDelta { key: key.to_owned(), op: DeltaOp::Delete, value: Value::Null, source }
    }

    /// The change with a node as its source.
    pub fn with_writer(self, writer: &str) -> (d: Self)
        ensures
            d.source matches DeltaSource::Node { node_id } && node_id@ == writer@,
            d == (StateDelta { source: d.source, ..self }),
    {
        StateDelta {
            key: self.key,
            op: self.op,
            value: self.value,
            source: DeltaSource::Node { node_id: writer.to_owned() },
        }
    }

    /// The change with another source.
    pub fn with_source(self, source: DeltaSource) -> (d: Self)
        ensures
            d == (StateDelta { source, ..self }),
    {
        StateDelta { key: self.key, op: self.op, value: self.value, source }
    }

    /// What the change makes of a state's contents.
    pub open spec fn applied(self, before: Map<Seq<char>, Json>) -> Map<Seq<char>, Json> {
        match self.op {
            DeltaOp::Put => before.insert(self.key@, self.value@),
            DeltaOp::Delete => before.remove(self.key@),
        }
    }
}

/// How several changes to one key become one value. `F` is the type of custom
/// rules.
pub enum Reducer<F> {
    /// They do not.
    Error,
    /// The last one wins.
    Replace,
    /// Lists are joined.
    Append,
    /// Objects are laid over one another.
    MergeObject,
    /// Numbers are added up.
    Sum,
    /// The greatest number.
    Max,
    /// The least number.
    Min,
    /// A rule of its own.
    Custom(F),
}

impl<F> Reducer<F> {
    /// The name of the rule.
    pub open spec fn message(self) -> Seq<char> {
        match self {
            Reducer::Error => "Error"@,
            Reducer::Replace => "Replace"@,
            Reducer::Append => "Append"@,
            Reducer::MergeObject => "MergeObject"@,
            Reducer::Sum => "Sum"@,
            Reducer::Max => "Max"@,
            Reducer::Min => "Min"@,
            Reducer::Custom(_) => "Custom"@,
        }
    }

    /// The name of the rule.
    pub fn to_string(&self) -> (s: String)
        ensures
            s@ == self.message(),
    {
        match self {
            Reducer::Error => "Error".to_owned(),
            Reducer::Replace => "Replace".to_owned(),
            Reducer::Append => "Append".to_owned(),
            Reducer::MergeObject => "MergeObject".to_owned(),
            Reducer::Sum => "Sum".to_owned(),
            Reducer::Max => "Max".to_owned(),
            Reducer::Min => "Min".to_owned(),
            Reducer::Custom(_) => "Custom".to_owned(),
        }
    }
}

/// What is done with numbers.
#[derive(Clone, Copy, PartialEq, Eq, Structural, Debug)]
pub enum NumericOp {
    Sum,
    Max,
    Min,
}

/// The changes to one key, in order.
pub open spec fn group(deltas: Seq<StateDelta>, key: Seq<char>) -> Seq<StateDelta>
    decreases deltas.len(),
{
    if deltas.len() == 0 {
        Seq::empty()
    } else if deltas.last().key@ == key {
        group(deltas.drop_last(), key).push(deltas.last())
    } else {
        group(deltas.drop_last(), key)
    }
}

/// The keys of changes, in the order of their first occurrence.
pub open spec fn keys_of(deltas: Seq<StateDelta>) -> Seq<Seq<char>>
    decreases deltas.len(),
{
    if deltas.len() == 0 {
        Seq::empty()
    } else {
        let before = keys_of(deltas.drop_last());
        if before.contains(deltas.last().key@) {
            before
        } else {
            before.push(deltas.last().key@)
        }
    }
}

/// The sources of changes, as texts.
pub open spec fn writers_of(deltas: Seq<StateDelta>) -> Seq<Seq<char>> {
    deltas.map_values(|d: StateDelta| d.source.message())
}

/// The items of all changes whose value is a list.
pub open spec fn items_of(deltas: Seq<StateDelta>) -> Seq<Json>
    decreases deltas.len(),
{
    if deltas.len() == 0 {
        Seq::empty()
    } else {
        items_of(deltas.drop_last()) + (match deltas.last().value@ {
            Json::Array(items) => items,
            _ => Seq::empty(),
        })
    }
}

/// The objects of all changes whose value is one, laid over a base.
pub open spec fn objects_over(base: Map<Seq<char>, Json>, deltas: Seq<StateDelta>) -> Map<
    Seq<char>,
    Json,
>
    decreases deltas.len(),
{
    if deltas.len() == 0 {
        base
    } else {
        let before = objects_over(base, deltas.drop_last());
        match deltas.last().value@ {
            Json::Object(m) => before.union_prefer_right(m),
            _ => before,
        }
    }
}

/// The numbers of all changes whose value is one.
pub open spec fn numbers_of(deltas: Seq<StateDelta>) -> Seq<Number>
    decreases deltas.len(),
{
    if deltas.len() == 0 {
        Seq::empty()
    } else {
        match deltas.last().value@ {
            Json::Number(n) => numbers_of(deltas.drop_last()).push(n),
            _ => numbers_of(deltas.drop_last()),
        }
    }
}

/// The number under a key.
pub open spec fn number_at(before: Map<Seq<char>, Json>, key: Seq<char>) -> Option<Number> {
    if before.contains_key(key) {
        match before[key] {
            Json::Number(n) => Some(n),
            _ => None,
        }
    } else {
        None
    }
}

/// The value under a key, `null` without one.
pub open spec fn value_at(before: Map<Seq<char>, Json>, key: Seq<char>) -> Json {
    if before.contains_key(key) {
        before[key]
    } else {
        Json::Null
    }
}

/// A custom rule, asked change by change, ends with that result. The first error
/// ends it.
pub open spec fn folds<F: Fn(&Value, &Value) -> Result<Value, String>>(
    f: F,
    start: Value,
    deltas: Seq<StateDelta>,
    out: Result<Value, String>,
) -> bool
    decreases deltas.len(),
{
    if deltas.len() == 0 {
        out == Ok::<Value, String>(start)
    } else {
        exists|before: Result<Value, String>|
            folds(f, start, deltas.drop_last(), before) && #[trigger] fold_step(
                f,
                before,
                deltas.last(),
                out,
            )
    }
}

/// One step of a custom rule.
pub open spec fn fold_step<F: Fn(&Value, &Value) -> Result<Value, String>>(
    f: F,
    before: Result<Value, String>,
    delta: StateDelta,
    out: Result<Value, String>,
) -> bool {
    match before {
        Ok(current) => call_ensures(f, (&current, &delta.value), out),
        Err(e) => out == before,
    }
}

proof fn lemma_fold_error<F: Fn(&Value, &Value) -> Result<Value, String>>(
    f: F,
    start: Value,
    deltas: Seq<StateDelta>,
    n: int,
    out: Result<Value, String>,
)
    requires
        0 <= n <= deltas.len(),
        out is Err,
        folds(f, start, deltas.take(n), out),
    ensures
        folds(f, start, deltas, out),
    decreases deltas.len() - n,
{
    if n == deltas.len() {
        assert(deltas.take(n) =~= deltas);
    } else {
        let next = deltas.take(n + 1);
        assert(next.drop_last() =~= deltas.take(n));
        assert(fold_step(f, out, next.last(), out));
        lemma_fold_error(f, start, deltas, n + 1, out);
    }
}

/// The numeric rule may be asked, and answers.
pub open spec fn numeric_result<K: Fn(NumericOp, Option<Number>, &Vec<Number>) -> Option<Number>>(
    numeric: K,
    op: NumericOp,
    before: Map<Seq<char>, Json>,
    key: Seq<char>,
    deltas: Seq<StateDelta>,
    result: Json,
) -> bool {
    exists|values: Vec<Number>, out: Option<Number>| #[trigger]
        call_ensures(numeric, (op, number_at(before, key), &values), out) && values@ == numbers_of(
            deltas,
        ) && result == (match out {
            Some(n) => Json::Number(n),
            None => Json::Null,
        })
}

/// The error of a result, if it is one.
pub open spec fn failure(r: Result<(), StateError>) -> Option<StateError> {
    match r {
        Ok(_) => None,
        Err(e) => Some(e),
    }
}

/// What a rule makes of several changes to one key.
pub open spec fn reduced<
    F: Fn(&Value, &Value) -> Result<Value, String>,
    K: Fn(NumericOp, Option<Number>, &Vec<Number>) -> Option<Number>,
>(
    reducer: Reducer<F>,
    numeric: K,
    before: Map<Seq<char>, Json>,
    key: Seq<char>,
    deltas: Seq<StateDelta>,
    after: Map<Seq<char>, Json>,
    failed: Option<StateError>,
) -> bool {
    match reducer {
        Reducer::Error => {
            &&& after == before
            &&& failed matches Some(StateError::StateConflict { key: k, writers }) && k@ == key
                && text::texts(writers@) == writers_of(deltas)
        },
        Reducer::Replace => {
            &&& failed is None
            &&& after == (if deltas.len() == 0 {
                before
            } else {
                match deltas.last().op {
                    DeltaOp::Put => before.insert(key, deltas.last().value@),
                    DeltaOp::Delete => before.remove(key),
                }
            })
        },
        Reducer::Append => {
            &&& failed is None
            &&& after == (match value_at(before, key) {
                Json::Array(items) => before.insert(key, Json::Array(items + items_of(deltas))),
                _ => if items_of(deltas).len() > 0 {
                    before.insert(key, Json::Array(items_of(deltas)))
                } else {
                    before
                },
            })
        },
        Reducer::MergeObject => {
            &&& failed is None
            &&& after == before.insert(
                key,
                Json::Object(
                    objects_over(
                        match value_at(before, key) {
                            Json::Object(m) => m,
                            _ => Map::empty(),
                        },
                        deltas,
                    ),
                ),
            )
        },
        Reducer::Sum => {
            &&& failed is None
            &&& exists|v: Json| #[trigger]
                numeric_result(numeric, NumericOp::Sum, before, key, deltas, v) && after
                    == before.insert(key, v)
        },
        Reducer::Max => {
            &&& failed is None
            &&& exists|v: Json| #[trigger]
                numeric_result(numeric, NumericOp::Max, before, key, deltas, v) && after
                    == before.insert(key, v)
        },
        Reducer::Min => {
            &&& failed is None
            &&& exists|v: Json| #[trigger]
                numeric_result(numeric, NumericOp::Min, before, key, deltas, v) && after
                    == before.insert(key, v)
        },
        Reducer::Custom(f) => {
            exists|start: Value, out: Result<Value, String>| #[trigger]
                folds(f, start, deltas, out) && start@ == value_at(before, key) && (match out {
                    Ok(v) => failed is None && after == before.insert(key, v@),
                    Err(e) => after == before && (failed matches Some(
                        StateError::ReducerConflict(k, m),
                    ) && k@ == key && m == e),
                })
        },
    }
}

/// The rules for keys. A key without a rule admits one writer only.
pub struct ReducerRegistry<F> {
    reducers: StringMap<Reducer<F>>,
    custom_reducers: StringMap<F>,
    conflict: Reducer<F>,
}

impl<F> ReducerRegistry<F> {
    #[verifier::type_invariant]
    spec fn well_formed(self) -> bool {
        self.conflict is Error
    }

    /// The rule for a key.
    pub closed spec fn rule(self, key: Seq<char>) -> Reducer<F> {
        if self.reducers@.contains_key(key) {
            self.reducers@[key]
        } else {
            Reducer::Error
        }
    }

    /// The custom joining function for a key.
    pub closed spec fn custom(self, key: Seq<char>) -> Option<F> {
        if self.custom_reducers@.contains_key(key) {
            Some(self.custom_reducers@[key])
        } else {
            None
        }
    }

    /// No rules.
    pub fn new() -> (reg: Self)
        ensures
            forall|k: Seq<char>| #[trigger] reg.rule(k) is Error,
            forall|k: Seq<char>| #[trigger] reg.custom(k) is None,
    {
        ReducerRegistry {
            reducers: StringMap::new(),
            custom_reducers: StringMap::new(),
            conflict: Reducer::Error,
        }
    }

    /// Sets the rule for a key.
    pub fn register(&mut self, key: &str, reducer: Reducer<F>)
        ensures
            forall|k: Seq<char>| #[trigger]
                final(self).rule(k) == (if k == key@ {
                    reducer
                } else {
                    old(self).rule(k)
                }),
            forall|k: Seq<char>| #[trigger] final(self).custom(k) == old(self).custom(k),
    {
        proof {
            use_type_invariant(&*self);
        }
        let mut reducers: StringMap<Reducer<F>> = StringMap::new();
        core::mem::swap(&mut reducers, &mut self.reducers);
        reducers.insert(key.to_owned(), reducer);
        self.reducers = reducers;
    }

    /// Sets the custom joining function for a key.
    pub fn register_custom(&mut self, key: &str, f: F)
        ensures
            forall|k: Seq<char>| #[trigger]
                final(self).custom(k) == (if k == key@ {
                    Some(f)
                } else {
                    old(self).custom(k)
                }),
            forall|k: Seq<char>| #[trigger] final(self).rule(k) == old(self).rule(k),
    {
        proof {
            use_type_invariant(&*self);
        }
        let mut custom: StringMap<F> = StringMap::new();
        core::mem::swap(&mut custom, &mut self.custom_reducers);
        custom.insert(key.to_owned(), f);
        self.custom_reducers = custom;
    }

    /// The rule for a key.
    pub fn get(&self, key: &str) -> (reducer: &Reducer<F>)
        ensures
            *reducer == self.rule(key@),
    {
        proof {
            use_type_invariant(self);
        }
        match self.reducers.get(key) {
            Some(r) => r,
            None => &self.conflict,
        }
    }

    /// Joins two values by the custom function for a key, if there is one.
    pub fn apply_custom(&self, key: &str, existing: &Value, new_val: &Value) -> (r: Result<
        Option<Value>,
        String,
    >) where F: Fn(&Value, &Value) -> Result<Value, String>
        requires
            self.custom(key@) matches Some(f) ==> call_requires(f, (existing, new_val)),
        ensures
            match self.custom(key@) {
                None => r matches Ok(None),
                Some(f) => match r {
                    Ok(v) => v is Some && call_ensures(f, (existing, new_val), Ok(v->0)),
                    Err(e) => call_ensures(f, (existing, new_val), Err(e)),
                },
            },
    {
        match self.custom_reducers.get(key) {
            Some(f) => match f(existing, new_val) {
                Ok(v) => Ok(Some(v)),
                Err(e) => Err(e),
            },
            None => Ok(None),
        }
    }

    /// Makes one change.
    pub fn apply_delta(&self, state: &mut State, delta: &StateDelta) -> (r: Result<(), StateError>)
        ensures
            r is Ok,
            final(state)@ == delta.applied(old(state)@),
    {
        match delta.op {
            DeltaOp::Put => {
                state.insert(delta.key.clone(), delta.value.clone());
            },
            DeltaOp::Delete => {
                state.remove(delta.key.as_str());
            },
        }
        Ok(())
    }

    /// Every custom rule may be asked on any values.
    pub open spec fn rules_total(self) -> bool where
        F: Fn(&Value, &Value) -> Result<Value, String>,
     {
        forall|k: Seq<char>, a: Value, b: Value|
            #![trigger self.rule(k), call_requires(self.rule(k)->Custom_0, (&a, &b))]
            self.rule(k) is Custom ==> call_requires(self.rule(k)->Custom_0, (&a, &b))
    }

    /// Joins several changes to one key by a rule.
    fn merge_by_reducer<K>(
        &self,
        state: &mut State,
        key: &str,
        key_deltas: &Vec<&StateDelta>,
        reducer: &Reducer<F>,
        numeric: &K,
    ) -> (r: Result<(), StateError>) where
        F: Fn(&Value, &Value) -> Result<Value, String>,
        K: Fn(NumericOp, Option<Number>, &Vec<Number>) -> Option<Number>,

        requires
            numeric_total(*numeric),
            forall|a: Value, b: Value| *reducer is Custom ==> #[trigger] call_requires(
                reducer->Custom_0,
                (&a, &b),
            ),
        ensures
            reduced(
                *reducer,
                *numeric,
                old(state)@,
                key@,
                derefs(key_deltas@),
                final(state)@,
                failure(r),
            ),
    {
        let ghost all = derefs(key_deltas@);
        let ghost before = state@;
        match reducer {
            Reducer::Error => {
                let writers = write_sources(key_deltas);
                Err(StateError::StateConflict { key: key.to_owned(), writers })
            },
            Reducer::Replace => {
                let n = key_deltas.len();
                if n > 0 {
                    assert(all.last() == *key_deltas@[n - 1]);
                    let last = key_deltas[n - 1];
                    match last.op {
                        DeltaOp::Put => {
                            state.insert(key.to_owned(), last.value.clone());
                        },
                        DeltaOp::Delete => {
                            state.remove(key);
                        },
                    }
                }
                Ok(())
            },
            Reducer::Append => {
                let mut items = collect_items(key_deltas);
                let merged = match state.get(key) {
                    Some(existing) => {
                        proof {
                            json::lemma_value(*existing);
                        }
                        match existing {
                            Value::Array(base) => {
                                let mut merged = json::copy_values(base);
                                let ghost x = merged@;
                                let ghost y = items@;
                                merged.append(&mut items);
                                proof {
                                    assert(merged@ =~= x + y);
                                    lemma_values_concat(x, y);
                                }
                                Some(merged)
                            },
                            _ => None,
                        }
                    },
                    None => None,
                };
                match merged {
                    Some(list) => {
                        let v = Value::Array(list);
                        proof {
                            json::lemma_value(v);
                        }
                        state.insert(key.to_owned(), v);
                    },
                    None => {
                        assert(json::values_json(items@) == items_of(all));
                        if items.len() > 0 {
                            let v = Value::Array(items);
                            proof {
                                json::lemma_value(v);
                            }
                            state.insert(key.to_owned(), v);
                        }
                    },
                }
                Ok(())
            },
            Reducer::MergeObject => {
                let base = match state.get(key) {
                    Some(existing) => {
                        proof {
                            json::lemma_value(*existing);
                        }
                        match existing {
                            Value::Object(m) => json::copy_map(m),
                            _ => StringMap::new(),
                        }
                    },
                    None => StringMap::new(),
                };
                proof {
                    assert(json::map_json(Map::<Seq<char>, Value>::empty()) =~= Map::empty());
                }
                let v = Value::Object(overlay_objects(base, key_deltas));
                proof {
                    json::lemma_value(v);
                }
                state.insert(key.to_owned(), v);
                Ok(())
            },
            Reducer::Sum => {
                merge_numbers(state, key, key_deltas, NumericOp::Sum, numeric);
                Ok(())
            },
            Reducer::Max => {
                merge_numbers(state, key, key_deltas, NumericOp::Max, numeric);
                Ok(())
            },
            Reducer::Min => {
                merge_numbers(state, key, key_deltas, NumericOp::Min, numeric);
                Ok(())
            },
            Reducer::Custom(f) => {
                proof {
                    json::lemma_value(Value::Null);
                }
                let mut current = match state.get(key) {
                    Some(v) => v.clone(),
                    None => Value::Null,
                };
                let ghost start = current;
                let mut i: usize = 0;
                assert(all.take(0) =~= Seq::empty());
                while i < key_deltas.len()
                    invariant
                        i <= key_deltas@.len(),
                        all == derefs(key_deltas@),
                        *reducer == Reducer::Custom(*f),
                        forall|a: Value, b: Value| #[trigger] call_requires(
                            reducer->Custom_0,
                            (&a, &b),
                        ),
                        state@ == before,
                        before == old(state)@,
                        start@ == value_at(before, key@),
                        folds(*f, start, all.take(i as int), Ok(current)),
                    decreases key_deltas@.len() - i,
                {
                    let d = key_deltas[i];
                    let ghost was = Ok::<Value, String>(current);
                    assert(call_requires(reducer->Custom_0, (&current, &d.value)));
                    let out = f(&current, &d.value);
                    proof {
                        let now = all.take(i + 1);
                        assert(now.drop_last() =~= all.take(i as int));
                        assert(now.last() == *d);
                        assert(fold_step(*f, was, now.last(), out));
                        assert(folds(*f, start, now, out));
                    }
                    match out {
                        Ok(v) => {
                            current = v;
                        },
                        Err(e) => {
                            proof {
                                lemma_fold_error(
                                    *f,
                                    start,
                                    all,
                                    i + 1,
                                    Err::<Value, String>(e),
                                );
                            }
                            return Err(StateError::ReducerConflict(key.to_owned(), e));
                        },
                    }
                    i += 1;
                }
                proof {
                    assert(all.take(all.len() as int) =~= all);
                }
                let ghost last = current;
                state.insert(key.to_owned(), current);
                proof {
                    assert(folds(*f, start, all, Ok::<Value, String>(last)));
                }
                Ok(())
            },
        }
    }

    /// Makes changes, those to one key by the key's rule where there are several.
    /// The keys are taken in the order of their first occurrence; the first error
    /// ends it, with the changes to earlier keys made. Numbers are joined by
    /// `numeric`, which gets the number under the key and those of the changes.
    pub fn merge_deltas<K>(
        &self,
        state: &mut State,
        deltas: &Vec<StateDelta>,
        numeric: &K,
    ) -> (r: Result<(), StateError>) where
        F: Fn(&Value, &Value) -> Result<Value, String>,
        K: Fn(NumericOp, Option<Number>, &Vec<Number>) -> Option<Number>,

        requires
            numeric_total(*numeric),
            self.rules_total(),
        ensures
            merged(
                *self,
                *numeric,
                deltas@,
                keys_of(deltas@),
                old(state)@,
                final(state)@,
                failure(r),
            ),
    {
        let keys = collect_keys(deltas);
        let ghost names = text::texts(keys@);
        let ghost before = state@;
        let mut i: usize = 0;
        assert(names.take(0) =~= Seq::empty());
        while i < keys.len()
            invariant
                i <= keys@.len(),
                names == text::texts(keys@),
                names == keys_of(deltas@),
                numeric_total(*numeric),
                self.rules_total(),
                before == old(state)@,
                merged(*self, *numeric, deltas@, names.take(i as int), before, state@, None),
            decreases keys@.len() - i,
        {
            let key = keys[i].as_str();
            let key_deltas = collect_group(deltas, key);
            let ghost between = state@;
            let reducer = self.get(key);
            let r = if key_deltas.len() > 1 {
                self.merge_by_reducer(state, key, &key_deltas, reducer, numeric)
            } else if key_deltas.len() == 1 {
                assert(derefs(key_deltas@)[0] == *key_deltas@[0]);
                self.apply_delta(state, key_deltas[0])
            } else {
                Ok(())
            };
            proof {
                let now = names.take(i + 1);
                assert(now.drop_last() =~= names.take(i as int));
                assert(now.last() == key@);
                assert(merged_key(*self, *numeric, deltas@, key@, between, state@, failure(r)));
                assert(key_step(*self, *numeric, deltas@, key@, between, None, state@, failure(r)));
                assert(merged(*self, *numeric, deltas@, now, before, state@, failure(r)));
            }
            match r {
                Ok(()) => {},
                Err(e) => {
                    proof {
                        lemma_merged_error(
                            *self,
                            *numeric,
                            deltas@,
                            names,
                            i + 1,
                            before,
                            state@,
                            Some(e),
                        );
                    }
                    return Err(e);
                },
            }
            i += 1;
        }
        assert(names.take(names.len() as int) =~= names);
        Ok(())
    }
}

/// The changes that references point to.
pub open spec fn derefs(deltas: Seq<&StateDelta>) -> Seq<StateDelta> {
    deltas.map_values(|d: &StateDelta| *d)
}

/// The numeric rule may be asked on any numbers.
pub open spec fn numeric_total<K: Fn(NumericOp, Option<Number>, &Vec<Number>) -> Option<Number>>(
    numeric: K,
) -> bool {
    forall|op: NumericOp, n: Option<Number>, values: Vec<Number>| #[trigger]
        call_requires(numeric, (op, n, &values))
}

/// What the changes to one key make of a state: one alone is made as it is,
/// several are joined by the key's rule.
pub open spec fn merged_key<
    F: Fn(&Value, &Value) -> Result<Value, String>,
    K: Fn(NumericOp, Option<Number>, &Vec<Number>) -> Option<Number>,
>(
    reg: ReducerRegistry<F>,
    numeric: K,
    deltas: Seq<StateDelta>,
    key: Seq<char>,
    before: Map<Seq<char>, Json>,
    after: Map<Seq<char>, Json>,
    failed: Option<StateError>,
) -> bool {
    let own = group(deltas, key);
    if own.len() > 1 {
        reduced(reg.rule(key), numeric, before, key, own, after, failed)
    } else if own.len() == 1 {
        failed is None && after == own[0].applied(before)
    } else {
        failed is None && after == before
    }
}

/// What the changes to one more key make of a state. After an error nothing is done.
pub open spec fn key_step<
    F: Fn(&Value, &Value) -> Result<Value, String>,
    K: Fn(NumericOp, Option<Number>, &Vec<Number>) -> Option<Number>,
>(
    reg: ReducerRegistry<F>,
    numeric: K,
    deltas: Seq<StateDelta>,
    key: Seq<char>,
    between: Map<Seq<char>, Json>,
    so_far: Option<StateError>,
    after: Map<Seq<char>, Json>,
    failed: Option<StateError>,
) -> bool {
    match so_far {
        None => merged_key(reg, numeric, deltas, key, between, after, failed),
        Some(_) => after == between && failed == so_far,
    }
}

/// What changes make of a state, the keys taken in the order given.
pub open spec fn merged<
    F: Fn(&Value, &Value) -> Result<Value, String>,
    K: Fn(NumericOp, Option<Number>, &Vec<Number>) -> Option<Number>,
>(
    reg: ReducerRegistry<F>,
    numeric: K,
    deltas: Seq<StateDelta>,
    keys: Seq<Seq<char>>,
    before: Map<Seq<char>, Json>,
    after: Map<Seq<char>, Json>,
    failed: Option<StateError>,
) -> bool
    decreases keys.len(),
{
    if keys.len() == 0 {
        failed is None && after == before
    } else {
        exists|between: Map<Seq<char>, Json>, so_far: Option<StateError>|
            merged(reg, numeric, deltas, keys.drop_last(), before, between, so_far)
                && #[trigger] key_step(
                reg,
                numeric,
                deltas,
                keys.last(),
                between,
                so_far,
                after,
                failed,
            )
    }
}

proof fn lemma_merged_error<
    F: Fn(&Value, &Value) -> Result<Value, String>,
    K: Fn(NumericOp, Option<Number>, &Vec<Number>) -> Option<Number>,
>(
    reg: ReducerRegistry<F>,
    numeric: K,
    deltas: Seq<StateDelta>,
    keys: Seq<Seq<char>>,
    n: int,
    before: Map<Seq<char>, Json>,
    after: Map<Seq<char>, Json>,
    failed: Option<StateError>,
)
    requires
        0 <= n <= keys.len(),
        failed is Some,
        merged(reg, numeric, deltas, keys.take(n), before, after, failed),
    ensures
        merged(reg, numeric, deltas, keys, before, after, failed),
    decreases keys.len() - n,
{
    if n == keys.len() {
        assert(keys.take(n) =~= keys);
    } else {
        let next = keys.take(n + 1);
        assert(next.drop_last() =~= keys.take(n));
        assert(key_step(reg, numeric, deltas, next.last(), after, failed, after, failed));
        lemma_merged_error(reg, numeric, deltas, keys, n + 1, before, after, failed);
    }
}

proof fn lemma_reduced_elsewhere<
    F: Fn(&Value, &Value) -> Result<Value, String>,
    K: Fn(NumericOp, Option<Number>, &Vec<Number>) -> Option<Number>,
>(
    reg: ReducerRegistry<F>,
    numeric: K,
    deltas: Seq<StateDelta>,
    key: Seq<char>,
    before: Map<Seq<char>, Json>,
    after: Map<Seq<char>, Json>,
    failed: Option<StateError>,
    other: Seq<char>,
)
    requires
        merged_key(reg, numeric, deltas, key, before, after, failed),
        other != key,
    ensures
        after.contains_key(other) == before.contains_key(other),
        before.contains_key(other) ==> after[other] == before[other],
{
    let own = group(deltas, key);
    if own.len() == 1 {
        lemma_group_key(deltas, key, 0);
    }
}

proof fn lemma_group_key(deltas: Seq<StateDelta>, key: Seq<char>, i: int)
    requires
        0 <= i < group(deltas, key).len(),
    ensures
        group(deltas, key)[i].key@ == key,
    decreases deltas.len(),
{
    if deltas.len() > 0 {
        let front = group(deltas.drop_last(), key);
        if i < front.len() {
            lemma_group_key(deltas.drop_last(), key, i);
        }
    }
}

/// Changes leave the values under all other keys alone.
pub proof fn law_merge_touches_named_keys<
    F: Fn(&Value, &Value) -> Result<Value, String>,
    K: Fn(NumericOp, Option<Number>, &Vec<Number>) -> Option<Number>,
>(
    reg: ReducerRegistry<F>,
    numeric: K,
    deltas: Seq<StateDelta>,
    keys: Seq<Seq<char>>,
    before: Map<Seq<char>, Json>,
    after: Map<Seq<char>, Json>,
    failed: Option<StateError>,
    other: Seq<char>,
)
    requires
        merged(reg, numeric, deltas, keys, before, after, failed),
        !keys.contains(other),
    ensures
        after.contains_key(other) == before.contains_key(other),
        before.contains_key(other) ==> after[other] == before[other],
    decreases keys.len(),
{
    if keys.len() > 0 {
        let (between, so_far) = choose|between: Map<Seq<char>, Json>, so_far: Option<StateError>|
            merged(reg, numeric, deltas, keys.drop_last(), before, between, so_far)
                && #[trigger] key_step(
                reg,
                numeric,
                deltas,
                keys.last(),
                between,
                so_far,
                after,
                failed,
            );
        assert(!keys.drop_last().contains(other)) by {
            if keys.drop_last().contains(other) {
                assert(keys[keys.drop_last().index_of(other)] == other);
            }
        }
        law_merge_touches_named_keys(
            reg,
            numeric,
            deltas,
            keys.drop_last(),
            before,
            between,
            so_far,
            other,
        );
        assert(keys[keys.len() - 1] != other);
        if so_far is None {
            lemma_reduced_elsewhere(
                reg,
                numeric,
                deltas,
                keys.last(),
                between,
                after,
                failed,
                other,
            );
        }
    }
}

/// A change puts its value under its key or takes the key out, and leaves every other
/// key alone.
pub proof fn law_a_change_is_made(d: StateDelta, before: Map<Seq<char>, Json>, other: Seq<char>)
    ensures
        d.op is Put ==> d.applied(before).contains_key(d.key@) && d.applied(before)[d.key@]
            == d.value@,
        d.op is Delete ==> !d.applied(before).contains_key(d.key@),
        other != d.key@ ==> d.applied(before).contains_key(other) == before.contains_key(other),
        other != d.key@ && before.contains_key(other) ==> d.applied(before)[other]
            == before[other],
{
}

/// The changes to a key are found one by one: those of a list are those of its parts in
/// order, and a change alone is found exactly if it has the key.
pub proof fn law_changes_of_a_key(
    a: Seq<StateDelta>,
    b: Seq<StateDelta>,
    d: StateDelta,
    key: Seq<char>,
)
    ensures
        group(a + b, key) == group(a, key) + group(b, key),
        group(seq![d], key) == (if d.key@ == key {
            seq![d]
        } else {
            Seq::empty()
        }),
    decreases b.len(),
{
    assert(group(seq![d].drop_last(), key) =~= Seq::empty());
    assert(group(seq![d], key) =~= if d.key@ == key {
        seq![d]
    } else {
        Seq::empty()
    });
    if b.len() == 0 {
        assert(a + b =~= a);
        assert(group(a + b, key) =~= group(a, key) + group(b, key));
    } else {
        assert((a + b).drop_last() =~= a + b.drop_last());
        law_changes_of_a_key(a, b.drop_last(), d, key);
        assert(group(a + b, key) =~= group(a, key) + group(b, key));
    }
}

/// The keys of changes are the keys of the single changes, each once, and a key comes
/// before all those that are named for the first time after it.
pub proof fn law_keys_of_changes(a: Seq<StateDelta>, b: Seq<StateDelta>, key: Seq<char>)
    ensures
        keys_of(a).no_duplicates(),
        keys_of(a).contains(key) <==> exists|i: int|
            0 <= i < a.len() && (#[trigger] a[i]).key@ == key,
        keys_of(a).is_prefix_of(keys_of(a + b)),
    decreases a.len() + b.len(),
{
    if b.len() > 0 {
        assert((a + b).drop_last() =~= a + b.drop_last());
        law_keys_of_changes(a, b.drop_last(), key);
    } else {
        assert(a + b =~= a);
        if a.len() > 0 {
            let front = a.drop_last();
            let last = a.last().key@;
            law_keys_of_changes(front, Seq::empty(), key);
            law_keys_of_changes(front, Seq::empty(), last);
            let before = keys_of(front);
            let all = keys_of(a);
            if all.contains(key) && all.len() > before.len() {
                let k = all.index_of(key);
                if k < before.len() {
                    assert(before[k] == key);
                } else {
                    assert(a[a.len() - 1].key@ == key);
                }
            }
            if before.contains(key) {
                let i = choose|i: int| 0 <= i < front.len() && (#[trigger] front[i]).key@ == key;
                assert(a[i].key@ == key);
                assert(all[before.index_of(key)] == key);
            }
            if exists|i: int| 0 <= i < a.len() && (#[trigger] a[i]).key@ == key {
                let i = choose|i: int| 0 <= i < a.len() && (#[trigger] a[i]).key@ == key;
                if i < front.len() {
                    assert(front[i].key@ == key);
                } else if !before.contains(last) {
                    assert(all[before.len() as int] == last);
                }
            }
        }
    }
}

proof fn lemma_objects_over(
    base: Map<Seq<char>, Json>,
    deltas: Seq<StateDelta>,
    field: Seq<char>,
    i: int,
)
    ensures
        (forall|j: int|
            0 <= j < deltas.len() ==> !((#[trigger] deltas[j]).value@ matches Json::Object(o)
                && o.contains_key(field))) ==> objects_over(base, deltas).contains_key(field)
            == base.contains_key(field) && (base.contains_key(field) ==> objects_over(
            base,
            deltas,
        )[field] == base[field]),
        0 <= i < deltas.len() && (deltas[i].value@ matches Json::Object(o) && o.contains_key(field))
            && (forall|j: int|
            i < j < deltas.len() ==> !((#[trigger] deltas[j]).value@ matches Json::Object(o)
                && o.contains_key(field))) ==> objects_over(base, deltas).contains_key(field)
            && objects_over(base, deltas)[field] == deltas[i].value@->Object_0[field],
    decreases deltas.len(),
{
    if deltas.len() > 0 {
        let front = deltas.drop_last();
        let n = front.len() as int;
        lemma_objects_over(base, front, field, i);
        assert(deltas[n] == deltas.last());
        assert(forall|j: int| 0 <= j < n ==> front[j] == deltas[j]);
    }
}

/// Objects are laid over the one that is there: a field that some change names has the
/// value of the last change that names it, every other field is as it was, and no field
/// comes from elsewhere.
pub proof fn law_objects_are_laid_over<
    F: Fn(&Value, &Value) -> Result<Value, String>,
    K: Fn(NumericOp, Option<Number>, &Vec<Number>) -> Option<Number>,
>(
    numeric: K,
    before: Map<Seq<char>, Json>,
    key: Seq<char>,
    deltas: Seq<StateDelta>,
    after: Map<Seq<char>, Json>,
    failed: Option<StateError>,
    field: Seq<char>,
    i: int,
)
    requires
        reduced(Reducer::<F>::MergeObject, numeric, before, key, deltas, after, failed),
    ensures
        failed is None,
        after.contains_key(key),
        after[key] is Object,
        (forall|j: int|
            0 <= j < deltas.len() ==> !((#[trigger] deltas[j]).value@ matches Json::Object(o)
                && o.contains_key(field))) ==> {
            let had = before.contains_key(key) && before[key] is Object
                && before[key]->Object_0.contains_key(field);
            &&& after[key]->Object_0.contains_key(field) == had
            &&& had ==> after[key]->Object_0[field] == before[key]->Object_0[field]
        },
        0 <= i < deltas.len() && (deltas[i].value@ matches Json::Object(o) && o.contains_key(field))
            && (forall|j: int|
            i < j < deltas.len() ==> !((#[trigger] deltas[j]).value@ matches Json::Object(o)
                && o.contains_key(field))) ==> after[key]->Object_0.contains_key(field)
            && after[key]->Object_0[field] == deltas[i].value@->Object_0[field],
        after.remove(key) == before.remove(key),
{
    let base = match value_at(before, key) {
        Json::Object(m) => m,
        _ => Map::empty(),
    };
    lemma_objects_over(base, deltas, field, i);
    assert(after.remove(key) =~= before.remove(key));
}

/// The items of changes are those of the single changes, in order, and a change has the
/// items of its list, or none where its value is no list.
pub proof fn law_items_of_changes(a: Seq<StateDelta>, b: Seq<StateDelta>, d: StateDelta)
    ensures
        items_of(a + b) == items_of(a) + items_of(b),
        items_of(seq![d]) == (if d.value@ is Array {
            d.value@->Array_0
        } else {
            Seq::empty()
        }),
    decreases b.len(),
{
    assert(items_of(seq![d].drop_last()) =~= Seq::empty());
    assert(items_of(seq![d]) =~= if d.value@ is Array {
        d.value@->Array_0
    } else {
        Seq::empty()
    });
    if b.len() == 0 {
        assert(a + b =~= a);
        assert(items_of(a + b) =~= items_of(a) + items_of(b));
    } else {
        assert((a + b).drop_last() =~= a + b.drop_last());
        law_items_of_changes(a, b.drop_last(), d);
        assert(items_of(a + b) =~= items_of(a) + items_of(b));
    }
}

/// Lists are joined: the list that is there stays in front, the items of the changes
/// follow in order, and where there is no list and there are no items nothing is done.
pub proof fn law_lists_are_joined<
    F: Fn(&Value, &Value) -> Result<Value, String>,
    K: Fn(NumericOp, Option<Number>, &Vec<Number>) -> Option<Number>,
>(
    numeric: K,
    before: Map<Seq<char>, Json>,
    key: Seq<char>,
    deltas: Seq<StateDelta>,
    after: Map<Seq<char>, Json>,
    failed: Option<StateError>,
)
    requires
        reduced(Reducer::<F>::Append, numeric, before, key, deltas, after, failed),
    ensures
        failed is None,
        before.contains_key(key) && before[key] is Array ==> after.contains_key(key)
            && after[key] is Array && before[key]->Array_0.is_prefix_of(after[key]->Array_0)
            && after[key]->Array_0.skip(before[key]->Array_0.len() as int) == items_of(deltas),
        !(before.contains_key(key) && before[key] is Array) && items_of(deltas).len() > 0
            ==> after.contains_key(key) && after[key] == Json::Array(items_of(deltas)),
        !(before.contains_key(key) && before[key] is Array) && items_of(deltas).len() == 0
            ==> after == before,
        after.remove(key) == before.remove(key),
{
    assert(after.remove(key) =~= before.remove(key));
    if before.contains_key(key) && before[key] is Array {
        let items = before[key]->Array_0;
        assert((items + items_of(deltas)).skip(items.len() as int) =~= items_of(deltas));
    }
}

/// The last writer wins: what the last change puts is there, and where it deletes the
/// key is gone, whatever came before.
pub proof fn law_last_writer_wins<
    F: Fn(&Value, &Value) -> Result<Value, String>,
    K: Fn(NumericOp, Option<Number>, &Vec<Number>) -> Option<Number>,
>(
    numeric: K,
    before: Map<Seq<char>, Json>,
    key: Seq<char>,
    deltas: Seq<StateDelta>,
    after: Map<Seq<char>, Json>,
    failed: Option<StateError>,
)
    requires
        reduced(Reducer::<F>::Replace, numeric, before, key, deltas, after, failed),
        deltas.len() > 0,
    ensures
        failed is None,
        deltas[deltas.len() - 1].op is Put ==> after.contains_key(key) && after[key]
            == deltas[deltas.len() - 1].value@,
        deltas[deltas.len() - 1].op is Delete ==> !after.contains_key(key),
        after.remove(key) == before.remove(key),
{
    assert(after.remove(key) =~= before.remove(key));
}

/// A key that admits one writer only refuses several: the state is as it was, and the
/// error names the key and every writer, in order.
pub proof fn law_conflicts_name_the_writers<
    F: Fn(&Value, &Value) -> Result<Value, String>,
    K: Fn(NumericOp, Option<Number>, &Vec<Number>) -> Option<Number>,
>(
    numeric: K,
    before: Map<Seq<char>, Json>,
    key: Seq<char>,
    deltas: Seq<StateDelta>,
    after: Map<Seq<char>, Json>,
    failed: Option<StateError>,
)
    requires
        reduced(Reducer::<F>::Error, numeric, before, key, deltas, after, failed),
    ensures
        after == before,
        failed matches Some(StateError::StateConflict { key: k, writers }) && k@ == key
            && writers@.len() == deltas.len() && forall|i: int|
            0 <= i < deltas.len() ==> (#[trigger] writers@[i])@ == deltas[i].source.message(),
{
    if let Some(StateError::StateConflict { key: k, writers }) = failed {
        assert(text::texts(writers@).len() == writers@.len());
        assert forall|i: int| 0 <= i < deltas.len() implies (#[trigger] writers@[i])@
            == deltas[i].source.message() by {
            assert(text::texts(writers@)[i] == writers_of(deltas)[i]);
        }
    }
}

/// The numbers of changes are those of the single changes, in order; a change whose
/// value is no number has none.
pub proof fn law_numbers_of_changes(a: Seq<StateDelta>, b: Seq<StateDelta>, d: StateDelta)
    ensures
        numbers_of(a + b) == numbers_of(a) + numbers_of(b),
        numbers_of(seq![d]) == (if d.value@ is Number {
            seq![d.value@->Number_0]
        } else {
            Seq::empty()
        }),
    decreases b.len(),
{
    assert(numbers_of(seq![d].drop_last()) =~= Seq::empty());
    assert(numbers_of(seq![d]) =~= if d.value@ is Number {
        seq![d.value@->Number_0]
    } else {
        Seq::empty()
    });
    if b.len() == 0 {
        assert(a + b =~= a);
        assert(numbers_of(a + b) =~= numbers_of(a) + numbers_of(b));
    } else {
        assert((a + b).drop_last() =~= a + b.drop_last());
        law_numbers_of_changes(a, b.drop_last(), d);
        assert(numbers_of(a + b) =~= numbers_of(a) + numbers_of(b));
    }
}

/// Numbers are joined by the operation of the rule, from the number that is there, if
/// one is, and those of all the changes; what that gives is there afterwards.
pub proof fn law_numbers_are_joined<
    F: Fn(&Value, &Value) -> Result<Value, String>,
    K: Fn(NumericOp, Option<Number>, &Vec<Number>) -> Option<Number>,
>(
    numeric: K,
    rule: Reducer<F>,
    before: Map<Seq<char>, Json>,
    key: Seq<char>,
    deltas: Seq<StateDelta>,
    after: Map<Seq<char>, Json>,
    failed: Option<StateError>,
    op: NumericOp,
    existing: Option<Number>,
)
    requires
        reduced(rule, numeric, before, key, deltas, after, failed),
        rule is Sum && op is Sum || rule is Max && op is Max || rule is Min && op is Min,
        before.contains_key(key) && before[key] is Number ==> existing == Some(
            before[key]->Number_0,
        ),
        !(before.contains_key(key) && before[key] is Number) ==> existing is None,
    ensures
        failed is None,
        after.contains_key(key),
        after.remove(key) == before.remove(key),
        exists|values: Vec<Number>, out: Option<Number>| #[trigger]
            call_ensures(
                numeric,
                (op, existing, &values),
                out,
            ) && values@ == numbers_of(deltas) && (match out {
                Some(n) => after[key] == Json::Number(n),
                None => after[key] == Json::Null,
            }),
{
    let v = choose|v: Json| #[trigger]
        numeric_result(numeric, op, before, key, deltas, v) && after == before.insert(key, v);
    assert(after.remove(key) =~= before.remove(key));
    let (values, out) = choose|values: Vec<Number>, out: Option<Number>| #[trigger]
        call_ensures(numeric, (op, number_at(before, key), &values), out) && values@ == numbers_of(
            deltas,
        ) && v == (match out {
            Some(n) => Json::Number(n),
            None => Json::Null,
        });
    assert(number_at(before, key) == existing);
    assert(call_ensures(numeric, (op, existing, &values), out));
}

/// A custom rule is asked once for each change, in order, with what the changes before
/// made: without a change nothing is asked, one alone is one question, and the answer to
/// some changes is where the next ones begin. An error ends it.
pub proof fn law_custom_rules_go_in_order<F: Fn(&Value, &Value) -> Result<Value, String>>(
    f: F,
    start: Value,
    a: Seq<StateDelta>,
    b: Seq<StateDelta>,
    d: StateDelta,
    between: Result<Value, String>,
    out: Result<Value, String>,
)
    ensures
        folds(f, start, Seq::empty(), out) <==> out == Ok::<Value, String>(start),
        folds(f, start, seq![d], out) <==> call_ensures(f, (&start, &d.value), out),
        folds(f, start, a, between) && (match between {
            Ok(v) => folds(f, v, b, out),
            Err(_) => out == between,
        }) ==> folds(f, start, a + b, out),
    decreases b.len(),
{
    let one = seq![d];
    assert(one.drop_last() =~= Seq::empty());
    if folds(f, start, one, out) {
        let r = choose|r: Result<Value, String>|
            folds(f, start, one.drop_last(), r) && #[trigger] fold_step(f, r, one.last(), out);
        assert(r == Ok::<Value, String>(start));
    }
    if call_ensures(f, (&start, &d.value), out) {
        let r = Ok::<Value, String>(start);
        assert(folds(f, start, one.drop_last(), r));
        assert(fold_step(f, r, one.last(), out));
    }
    if folds(f, start, a, between) {
        match between {
            Err(_) => {
                assert((a + b).take(a.len() as int) =~= a);
                lemma_fold_error(f, start, a + b, a.len() as int, between);
            },
            Ok(v) => {
                if b.len() == 0 {
                    assert(a + b =~= a);
                } else if folds(f, v, b, out) {
                    let r = choose|r: Result<Value, String>|
                        folds(f, v, b.drop_last(), r) && #[trigger] fold_step(f, r, b.last(), out);
                    law_custom_rules_go_in_order(f, start, a, b.drop_last(), d, between, r);
                    assert((a + b).drop_last() =~= a + b.drop_last());
                    assert(fold_step(f, r, (a + b).last(), out));
                }
            },
        }
    }
}

/// A custom rule begins with what is there, or with `null`; its answer is there
/// afterwards, and where it fails the state is as it was and the error names the key.
pub proof fn law_custom_rules_decide<
    F: Fn(&Value, &Value) -> Result<Value, String>,
    K: Fn(NumericOp, Option<Number>, &Vec<Number>) -> Option<Number>,
>(
    numeric: K,
    f: F,
    before: Map<Seq<char>, Json>,
    key: Seq<char>,
    deltas: Seq<StateDelta>,
    after: Map<Seq<char>, Json>,
    failed: Option<StateError>,
)
    requires
        reduced(Reducer::Custom(f), numeric, before, key, deltas, after, failed),
    ensures
        failed is Some ==> after == before && (failed matches Some(
            StateError::ReducerConflict(k, _),
        ) && k@ == key),
        after.remove(key) == before.remove(key),
        exists|start: Value, out: Result<Value, String>| #[trigger]
            folds(f, start, deltas, out) && start@ == (if before.contains_key(key) {
                before[key]
            } else {
                Json::Null
            }) && (out is Ok <==> failed is None) && (out matches Ok(v) ==> after.contains_key(key)
                && after[key] == v@),
{
    let (start, out) = choose|start: Value, out: Result<Value, String>| #[trigger]
        folds(f, start, deltas, out) && start@ == value_at(before, key) && (match out {
            Ok(v) => failed is None && after == before.insert(key, v@),
            Err(e) => after == before && (failed matches Some(StateError::ReducerConflict(k, m))
                && k@ == key && m == e),
        });
    assert(after.remove(key) =~= before.remove(key));
    assert(folds(f, start, deltas, out));
}

/// One change to a key needs no rule: it is made as it is. Several are joined by the rule
/// of the key, in order, and a key that no change names is as it was.
pub proof fn law_several_changes_need_a_rule<
    F: Fn(&Value, &Value) -> Result<Value, String>,
    K: Fn(NumericOp, Option<Number>, &Vec<Number>) -> Option<Number>,
>(
    reg: ReducerRegistry<F>,
    numeric: K,
    deltas: Seq<StateDelta>,
    key: Seq<char>,
    before: Map<Seq<char>, Json>,
    after: Map<Seq<char>, Json>,
    failed: Option<StateError>,
    i: int,
    j: int,
)
    requires
        merged_key(reg, numeric, deltas, key, before, after, failed),
    ensures
        (forall|k: int| 0 <= k < deltas.len() ==> (#[trigger] deltas[k]).key@ != key) ==> after
            == before && failed is None,
        0 <= i < deltas.len() && deltas[i].key@ == key && (forall|k: int|
            0 <= k < deltas.len() && k != i ==> (#[trigger] deltas[k]).key@ != key) ==> failed is None
            && (deltas[i].op is Put ==> after.contains_key(key) && after[key]
            == deltas[i].value@) && (deltas[i].op is Delete ==> !after.contains_key(key)),
        0 <= i < j < deltas.len() && deltas[i].key@ == key && deltas[j].key@ == key ==> reduced(
            reg.rule(key),
            numeric,
            before,
            key,
            group(deltas, key),
            after,
            failed,
        ),
{
    lemma_group_counts(deltas, key, i, j);
}

proof fn lemma_group_counts(deltas: Seq<StateDelta>, key: Seq<char>, i: int, j: int)
    ensures
        (forall|k: int| 0 <= k < deltas.len() ==> (#[trigger] deltas[k]).key@ != key) ==> group(
            deltas,
            key,
        ).len() == 0,
        0 <= i < deltas.len() && deltas[i].key@ == key ==> group(deltas, key).len() >= 1,
        0 <= i < deltas.len() && deltas[i].key@ == key && (forall|k: int|
            0 <= k < deltas.len() && k != i ==> (#[trigger] deltas[k]).key@ != key) ==> group(
            deltas,
            key,
        ) == seq![deltas[i]],
        0 <= i < j < deltas.len() && deltas[i].key@ == key && deltas[j].key@ == key ==> group(
            deltas,
            key,
        ).len() >= 2,
    decreases deltas.len(),
{
    if deltas.len() > 0 {
        let front = deltas.drop_last();
        let n = front.len() as int;
        lemma_group_counts(front, key, i, j);
        assert(deltas[n] == deltas.last());
        assert(forall|k: int| 0 <= k < n ==> front[k] == deltas[k]);
        if 0 <= i < deltas.len() && deltas[i].key@ == key && (forall|k: int|
            0 <= k < deltas.len() && k != i ==> (#[trigger] deltas[k]).key@ != key) {
            if i == n {
                assert forall|k: int| 0 <= k < n implies (#[trigger] front[k]).key@ != key by {
                    assert(deltas[k].key@ != key);
                }
                assert(group(deltas, key) =~= seq![deltas[i]]);
            } else {
                assert(deltas[n].key@ != key);
                assert forall|k: int| 0 <= k < n && k != i implies (#[trigger] front[k]).key@
                    != key by {
                    assert(deltas[k].key@ != key);
                }
            }
        }
        if forall|k: int| 0 <= k < deltas.len() ==> (#[trigger] deltas[k]).key@ != key {
            assert(deltas[n].key@ != key);
            assert forall|k: int| 0 <= k < n implies (#[trigger] front[k]).key@ != key by {
                assert(deltas[k].key@ != key);
            }
        }
        if 0 <= i < j < deltas.len() && deltas[i].key@ == key && deltas[j].key@ == key && j == n {
            assert(front[i].key@ == key);
        }
    }
}

/// Where changes are merged without an error, every key ends as its own changes make it
/// of what was there before, whatever the changes to other keys do.
pub proof fn law_each_key_by_its_own_changes<
    F: Fn(&Value, &Value) -> Result<Value, String>,
    K: Fn(NumericOp, Option<Number>, &Vec<Number>) -> Option<Number>,
>(
    reg: ReducerRegistry<F>,
    numeric: K,
    deltas: Seq<StateDelta>,
    keys: Seq<Seq<char>>,
    before: Map<Seq<char>, Json>,
    after: Map<Seq<char>, Json>,
    key: Seq<char>,
)
    requires
        merged(reg, numeric, deltas, keys, before, after, None),
        keys.no_duplicates(),
        keys.contains(key),
    ensures
        exists|from: Map<Seq<char>, Json>, to: Map<Seq<char>, Json>|
            from.contains_key(key) == before.contains_key(key) && (before.contains_key(key)
                ==> from[key] == before[key]) && to.contains_key(key) == after.contains_key(key) && (
            after.contains_key(key) ==> to[key] == after[key]) && #[trigger] merged_key(
                reg,
                numeric,
                deltas,
                key,
                from,
                to,
                None,
            ),
    decreases keys.len(),
{
    let last = keys.last();
    let front = keys.drop_last();
    let (between, so_far) = choose|between: Map<Seq<char>, Json>, so_far: Option<StateError>|
        merged(reg, numeric, deltas, front, before, between, so_far) && #[trigger] key_step(
            reg,
            numeric,
            deltas,
            last,
            between,
            so_far,
            after,
            None,
        );
    assert(so_far is None);
    assert(keys[keys.len() - 1] == last);
    if key == last {
        assert(!front.contains(key)) by {
            if front.contains(key) {
                assert(keys[front.index_of(key)] == keys[keys.len() - 1]);
            }
        }
        law_merge_touches_named_keys(
            reg,
            numeric,
            deltas,
            front,
            before,
            between,
            so_far,
            key,
        );
        assert(merged_key(reg, numeric, deltas, key, between, after, None));
    } else {
        let k = keys.index_of(key);
        assert(front[k] == key);
        law_each_key_by_its_own_changes(reg, numeric, deltas, front, before, between, key);
        lemma_reduced_elsewhere(reg, numeric, deltas, last, between, after, None, key);
    }
}

proof fn lemma_values_concat(x: Seq<Value>, y: Seq<Value>)
    ensures
        json::values_json(x + y) == json::values_json(x) + json::values_json(y),
{
    assert forall|i: int| 0 <= i < (x + y).len() implies json::values_json(x + y)[i] == (
    json::values_json(x) + json::values_json(y))[i] by {
        if i < x.len() {
            assert((x + y)[i] == x[i]);
        } else {
            assert((x + y)[i] == y[i - x.len()]);
        }
    }
    assert(json::values_json(x + y) =~= json::values_json(x) + json::values_json(y));
}

fn write_sources(deltas: &Vec<&StateDelta>) -> (writers: Vec<String>)
    ensures
        text::texts(writers@) == writers_of(derefs(deltas@)),
{
    let ghost wanted = writers_of(derefs(deltas@));
    let mut writers: Vec<String> = Vec::new();
    let mut i: usize = 0;
    assert(text::texts(writers@) =~= wanted.take(0));
    while i < deltas.len()
        invariant
            i <= deltas@.len(),
            wanted == writers_of(derefs(deltas@)),
            text::texts(writers@) == wanted.take(i as int),
        decreases deltas@.len() - i,
    {
        let w = deltas[i].source.to_string();
        proof {
            text::lemma_texts_push(writers@, w);
            assert(derefs(deltas@)[i as int] == *deltas@[i as int]);
            assert(wanted.take(i + 1) =~= wanted.take(i as int).push(w@));
        }
        writers.push(w);
        i += 1;
    }
    assert(wanted.take(wanted.len() as int) =~= wanted);
    writers
}

fn collect_items(deltas: &Vec<&StateDelta>) -> (items: Vec<Value>)
    ensures
        json::values_json(items@) == items_of(derefs(deltas@)),
{
    let ghost all = derefs(deltas@);
    let mut items: Vec<Value> = Vec::new();
    let mut i: usize = 0;
    assert(json::values_json(items@) =~= items_of(all.take(0)));
    while i < deltas.len()
        invariant
            i <= deltas@.len(),
            all == derefs(deltas@),
            json::values_json(items@) == items_of(all.take(i as int)),
        decreases deltas@.len() - i,
    {
        let d = deltas[i];
        let ghost x = items@;
        proof {
            json::lemma_value(d.value);
            assert(all.take(i + 1).drop_last() =~= all.take(i as int));
            assert(all.take(i + 1).last() == *d);
        }
        if let Value::Array(list) = &d.value {
            let mut more = json::copy_values(list);
            let ghost y = more@;
            items.append(&mut more);
            proof {
                assert(items@ =~= x + y);
                lemma_values_concat(x, y);
            }
        } else {
            assert(items_of(all.take(i + 1)) =~= items_of(all.take(i as int)));
        }
        i += 1;
    }
    assert(all.take(all.len() as int) =~= all);
    items
}

fn overlay_objects(base: StringMap<Value>, deltas: &Vec<&StateDelta>) -> (m: StringMap<Value>)
    ensures
        json::map_json(m@) == objects_over(json::map_json(base@), derefs(deltas@)),
{
    let ghost all = derefs(deltas@);
    let ghost start = json::map_json(base@);
    let mut m = base;
    let mut i: usize = 0;
    assert(all.take(0) =~= Seq::empty());
    while i < deltas.len()
        invariant
            i <= deltas@.len(),
            all == derefs(deltas@),
            json::map_json(m@) == objects_over(start, all.take(i as int)),
        decreases deltas@.len() - i,
    {
        let d = deltas[i];
        proof {
            json::lemma_value(d.value);
            assert(all.take(i + 1).drop_last() =~= all.take(i as int));
            assert(all.take(i + 1).last() == *d);
        }
        if let Value::Object(obj) = &d.value {
            let more = json::copy_map(obj);
            json::extend_map(&mut m, more);
        }
        i += 1;
    }
    assert(all.take(all.len() as int) =~= all);
    m
}

fn collect_numbers(deltas: &Vec<&StateDelta>) -> (numbers: Vec<Number>)
    ensures
        numbers@ == numbers_of(derefs(deltas@)),
{
    let ghost all = derefs(deltas@);
    let mut numbers: Vec<Number> = Vec::new();
    let mut i: usize = 0;
    assert(numbers@ =~= numbers_of(all.take(0)));
    while i < deltas.len()
        invariant
            i <= deltas@.len(),
            all == derefs(deltas@),
            numbers@ == numbers_of(all.take(i as int)),
        decreases deltas@.len() - i,
    {
        let d = deltas[i];
        proof {
            json::lemma_value(d.value);
            assert(all.take(i + 1).drop_last() =~= all.take(i as int));
            assert(all.take(i + 1).last() == *d);
        }
        if let Value::Number(n) = &d.value {
            numbers.push(*n);
        }
        i += 1;
    }
    assert(all.take(all.len() as int) =~= all);
    numbers
}

fn merge_numbers<K: Fn(NumericOp, Option<Number>, &Vec<Number>) -> Option<Number>>(
    state: &mut State,
    key: &str,
    deltas: &Vec<&StateDelta>,
    op: NumericOp,
    numeric: &K,
)
    requires
        numeric_total(*numeric),
    ensures
        exists|v: Json| #[trigger]
            numeric_result(*numeric, op, old(state)@, key@, derefs(deltas@), v) && final(state)@
                == old(state)@.insert(key@, v),
{
    let existing = state.get_number(key);
    let values = collect_numbers(deltas);
    assert(call_requires(*numeric, (op, existing, &values)));
    let out = numeric(op, existing, &values);
    let v = match out {
        Some(n) => Value::Number(n),
        None => Value::Null,
    };
    proof {
        json::lemma_value(v);
        assert(existing == number_at(state@, key@));
        assert(numeric_result(*numeric, op, state@, key@, derefs(deltas@), v@));
    }
    state.insert(key.to_owned(), v);
}

fn collect_keys(deltas: &Vec<StateDelta>) -> (keys: Vec<String>)
    ensures
        text::texts(keys@) == keys_of(deltas@),
{
    let mut keys: Vec<String> = Vec::new();
    let mut i: usize = 0;
    assert(text::texts(keys@) =~= keys_of(deltas@.take(0)));
    while i < deltas.len()
        invariant
            i <= deltas@.len(),
            text::texts(keys@) == keys_of(deltas@.take(i as int)),
        decreases deltas@.len() - i,
    {
        let key = &deltas[i].key;
        proof {
            assert(deltas@.take(i + 1).drop_last() =~= deltas@.take(i as int));
            text::lemma_texts_push(keys@, *key);
        }
        if !text::holds_text(&keys, key.as_str()) {
            keys.push(key.clone());
        }
        i += 1;
    }
    assert(deltas@.take(deltas@.len() as int) =~= deltas@);
    keys
}

fn collect_group<'a>(deltas: &'a Vec<StateDelta>, key: &str) -> (own: Vec<&'a StateDelta>)
    ensures
        derefs(own@) == group(deltas@, key@),
{
    let mut own: Vec<&'a StateDelta> = Vec::new();
    let mut i: usize = 0;
    assert(derefs(own@) =~= group(deltas@.take(0), key@));
    while i < deltas.len()
        invariant
            i <= deltas@.len(),
            derefs(own@) == group(deltas@.take(i as int), key@),
        decreases deltas@.len() - i,
    {
        let d = &deltas[i];
        let ghost was = own@;
        proof {
            assert(deltas@.take(i + 1).drop_last() =~= deltas@.take(i as int));
        }
        if text::same_text(d.key.as_str(), key) {
            own.push(d);
            assert(derefs(own@) =~= derefs(was).push(*d));
        }
        i += 1;
    }
    assert(deltas@.take(deltas@.len() as int) =~= deltas@);
    own
}

/// Once a rule has failed, its failure is the result, whatever comes after it; until a
/// failure, each result is what the rule makes of the one before it and the next change.
pub proof fn law_failures_stay<F: Fn(&Value, &Value) -> Result<Value, String>>(
    f: F,
    before: Result<Value, String>,
    delta: StateDelta,
    out: Result<Value, String>,
)
    ensures
        before is Err ==> (fold_step(f, before, delta, out) <==> out == before),
        before matches Ok(v) ==> (fold_step(f, before, delta, out) <==> call_ensures(
            f,
            (&v, &delta.value),
            out,
        )),
{
}

/// A merge that gives an error has failed with that error, and no other has failed.
pub proof fn law_errors_are_failures(r: Result<(), StateError>)
    ensures
        r is Ok ==> failure(r) is None,
        r matches Err(e) ==> failure(r) == Some(e),
{
}

/// A writer is named by what it is: a node, a hook of a node, a merge or a replay.
pub proof fn law_writers_are_named(node: String, hook: String)
    ensures
        (DeltaSource::Node { node_id: node }).message() == "node:"@ + node@,
        (DeltaSource::Hook { node_id: node, hook_name: hook }).message() == "hook:"@ + node@
            + ":"@ + hook@,
        DeltaSource::ReducerMerge.message() == "reducer_merge"@,
        DeltaSource::ResumeReplay.message() == "resume_replay"@,
{
}

/// Every rule has a name of its own.
pub proof fn law_rules_have_names<F>(f: F)
    ensures
        Reducer::<F>::Error.message() == "Error"@,
        Reducer::<F>::Replace.message() == "Replace"@,
        Reducer::<F>::Append.message() == "Append"@,
        Reducer::<F>::MergeObject.message() == "MergeObject"@,
        Reducer::<F>::Sum.message() == "Sum"@,
        Reducer::<F>::Max.message() == "Max"@,
        Reducer::<F>::Min.message() == "Min"@,
        Reducer::Custom(f).message() == "Custom"@,
{
}

} // verus!
