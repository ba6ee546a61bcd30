//! JSON values.

use vstd::prelude::*;

use crate::string_map;
use crate::string_map::StringMap;

verus! {

/// A JSON number: a non-negative integer, a negative integer, or the IEEE 754
/// bits of a double.
#[derive(Clone, Copy, PartialEq, Eq, Structural, Debug)]
pub enum Number {
    PosInt(u64),
    NegInt(i64),
    Float(u64),
}

/// A JSON value.
pub enum Value {
    Null,
    Bool(bool),
    Number(Number),
    String(String),
    Array(Vec<Value>),
    Object(StringMap<Value>),
}

/// What a JSON value is, apart from how it is stored.
#[verifier::ext_equal]
pub enum Json {
    Null,
    Bool(bool),
    Number(Number),
    String(Seq<char>),
    Array(Seq<Json>),
    Object(Map<Seq<char>, Json>),
}

/// The contents of a list of values.
pub open spec fn values_json(values: Seq<Value>) -> Seq<Json>
    decreases values,
{
    Seq::new(
        values.len(),
        |i: int|
            if 0 <= i < values.len() {
                values[i].json()
            } else {
                Json::Null
            },
    )
}

/// The contents of a list of named values.
pub open spec fn entries_json(entries: Seq<(String, Value)>) -> Map<Seq<char>, Json>
    decreases entries,
{
    if entries.len() == 0 {
        Map::empty()
    } else {
        entries_json(entries.drop_last()).insert(entries.last().0@, entries.last().1.json())
    }
}

/// The contents of a map of values.
pub open spec fn map_json(m: Map<Seq<char>, Value>) -> Map<Seq<char>, Json> {
    m.map_values(|v: Value| v@)
}

pub proof fn lemma_entries_json(entries: Seq<(String, Value)>)
    ensures
        entries_json(entries) == map_json(string_map::entries_map(entries)),
    decreases entries.len(),
{
    if entries.len() > 0 {
        lemma_entries_json(entries.drop_last());
    }
    assert(entries_json(entries) =~= map_json(string_map::entries_map(entries)));
}

impl Value {
    pub closed spec fn json(self) -> Json
        decreases self,
    {
        match self {
            Value::Null => Json::Null,
            Value::Bool(b) => Json::Bool(b),
            Value::Number(n) => Json::Number(n),
            Value::String(s) => Json::String(s@),
            Value::Array(a) => Json::Array(values_json(a@)),
            Value::Object(m) => Json::Object(entries_json(m.entries@)),
        }
    }
}

/// How each form of value reads.
pub proof fn lemma_value(value: Value)
    ensures
        value@ == (match value {
            Value::Null => Json::Null,
            Value::Bool(b) => Json::Bool(b),
            Value::Number(n) => Json::Number(n),
            Value::String(s) => Json::String(s@),
            Value::Array(a) => Json::Array(values_json(a@)),
            Value::Object(m) => Json::Object(map_json(m@)),
        }),
{
    match value {
        Value::Object(m) => {
            m.lemma_view();
            lemma_entries_json(m.entries@);
        },
        _ => {},
    }
}

impl Clone for Value {
    fn clone(&self) -> (copy: Self)
        ensures
            copy@ == self@,
        decreases self,
    {
        let copy = match self {
            Value::Null => Value::Null,
            Value::Bool(b) => Value::Bool(*b),
            Value::Number(n) => Value::Number(*n),
            Value::String(s) => Value::String(s.clone()),
            Value::Array(a) => {
                let mut items: Vec<Value> = Vec::new();
                let mut i: usize = 0;
                while i < a.len()
                    invariant
                        i <= a.len(),
                        *self == Value::Array(*a),
                        items.len() == i,
                        forall|j: int| 0 <= j < i ==> (#[trigger] items@[j])@ == a@[j]@,
                    decreases a.len() - i,
                {
                    assert(decreases_to!(self => self->Array_0));
                    assert(decreases_to!(a => a@));
                    assert(decreases_to!(a@ => a@[i as int]));
                    let item = a[i].clone();
                    items.push(item);
                    i += 1;
                }
                assert(values_json(items@) =~= values_json(a@));
                Value::Array(items)
            },
            Value::Object(m) => {
                let mut entries: Vec<(String, Value)> = Vec::new();
                let mut i: usize = 0;
                m.entries_distinct();
                while i < m.entries.len()
                    invariant
                        i <= m.entries@.len(),
                        *self == Value::Object(*m),
                        entries.len() == i,
                        forall|j: int| 0 <= j < i ==> (#[trigger] entries@[j]).0@ == m.entries@[j].0@,
                        forall|j: int| 0 <= j < i ==> (#[trigger] entries@[j]).1@ == m.entries@[j].1@,
                    decreases m.entries@.len() - i,
                {
                    let key = m.entries[i].0.clone();
                    assert(decreases_to!(self => self->Object_0));
                    assert(decreases_to!(m => m.entries));
                    assert(decreases_to!(m.entries => m.entries@));
                    assert(decreases_to!(m.entries@ => m.entries@[i as int]));
                    assert(decreases_to!(m.entries@[i as int] => m.entries@[i as int].1));
                    let item = m.entries[i].1.clone();
                    entries.push((key, item));
                    i += 1;
                }
                proof {
                    lemma_same_entries(entries@, m.entries@);
                }
                Value::Object(StringMap::from_entries(entries))
            },
        };
        copy
    }
}

proof fn lemma_same_entries(a: Seq<(String, Value)>, b: Seq<(String, Value)>)
    requires
        a.len() == b.len(),
        forall|j: int| 0 <= j < a.len() ==> (#[trigger] a[j]).0@ == b[j].0@,
        forall|j: int| 0 <= j < a.len() ==> (#[trigger] a[j]).1@ == b[j].1@,
        string_map::distinct_keys(b),
    ensures
        entries_json(a) == entries_json(b),
        string_map::distinct_keys(a),
        string_map::entry_keys(a) == string_map::entry_keys(b),
    decreases a.len(),
{
    assert(string_map::entry_keys(a) =~= string_map::entry_keys(b));
    assert forall|i: int, j: int| 0 <= i < j < a.len() implies (#[trigger] a[i]).0@ != (#[trigger] a[j]).0@ by {
        assert(b[i].0@ != b[j].0@);
    }
    if a.len() > 0 {
        let x = a.drop_last();
        let y = b.drop_last();
        assert forall|j: int| 0 <= j < x.len() implies (#[trigger] x[j]).0@ == y[j].0@ by {
            assert(a[j].0@ == b[j].0@);
        }
        assert forall|j: int| 0 <= j < x.len() implies (#[trigger] x[j]).1@ == y[j].1@ by {
            assert(a[j].1@ == b[j].1@);
        }
        lemma_same_entries(x, y);
        assert(a[a.len() - 1].1@ == b[a.len() - 1].1@);
    }
}

/// A copy of a map of values.
pub fn copy_map(m: &StringMap<Value>) -> (copy: StringMap<Value>)
    ensures
        map_json(copy@) == map_json(m@),
        copy.key_order() == m.key_order(),
{
    let mut entries: Vec<(String, Value)> = Vec::new();
    let mut i: usize = 0;
    m.entries_distinct();
    while i < m.entries.len()
        invariant
            i <= m.entries@.len(),
            entries.len() == i,
            forall|j: int| 0 <= j < i ==> (#[trigger] entries@[j]).0@ == m.entries@[j].0@,
            forall|j: int| 0 <= j < i ==> (#[trigger] entries@[j]).1@ == m.entries@[j].1@,
        decreases m.entries@.len() - i,
    {
        entries.push((m.entries[i].0.clone(), m.entries[i].1.clone()));
        i += 1;
    }
    proof {
        lemma_same_entries(entries@, m.entries@);
        m.lemma_view();
        lemma_entries_json(m.entries@);
        lemma_entries_json(entries@);
    }
    StringMap::from_entries(entries)
}

/// A copy of a list of values.
pub fn copy_values(items: &Vec<Value>) -> (copy: Vec<Value>)
    ensures
        values_json(copy@) == values_json(items@),
{
    let mut copy: Vec<Value> = Vec::new();
    let mut i: usize = 0;
    while i < items.len()
        invariant
            i <= items.len(),
            copy.len() == i,
            forall|j: int| 0 <= j < i ==> (#[trigger] copy@[j])@ == items@[j]@,
        decreases items.len() - i,
    {
        copy.push(items[i].clone());
        i += 1;
    }
    assert(values_json(copy@) =~= values_json(items@));
    copy
}

/// Puts the values of one map into another, over those under the same keys.
pub fn extend_map(m: &mut StringMap<Value>, more: StringMap<Value>)
    ensures
        map_json(final(m)@) == map_json(old(m)@).union_prefer_right(map_json(more@)),
{
    let ghost before = map_json(m@);
    let ghost all = more.entries@;
    proof {
        more.lemma_view();
        assert(map_json(m@) =~= before.union_prefer_right(
            map_json(string_map::entries_map(all.take(0))),
        ));
    }
    for entry in it: more.entries
        invariant
            it.seq() == all,
            map_json(m@) == before.union_prefer_right(
                map_json(string_map::entries_map(all.take(it.index() as int))),
            ),
    {
        let ghost k = it.index() as int;
        let ghost was = m@;
        let ghost pair = entry;
        m.insert(entry.0, entry.1);
        proof {
            assert(all.take(k + 1).drop_last() =~= all.take(k));
            assert(all.take(k + 1).last() == pair);
            assert(map_json(m@) =~= map_json(was).insert(pair.0@, pair.1@));
            let now = map_json(string_map::entries_map(all.take(k + 1)));
            assert(now =~= map_json(string_map::entries_map(all.take(k))).insert(pair.0@, pair.1@));
            assert(map_json(m@) =~= before.union_prefer_right(now));
        }
    }
    assert(all.take(all.len() as int) =~= all);
}

impl View for Value {
    type V = Json;

    open spec fn view(&self) -> Json {
        self.json()
    }
}

/// A list of values reads item by item, and a map of values key by key.
pub proof fn law_values_read_one_by_one(
    values: Seq<Value>,
    i: int,
    m: Map<Seq<char>, Value>,
    key: Seq<char>,
)
    ensures
        values_json(values).len() == values.len(),
        0 <= i < values.len() ==> values_json(values)[i] == values[i]@,
        map_json(m).contains_key(key) <==> m.contains_key(key),
        m.contains_key(key) ==> map_json(m)[key] == m[key]@,
{
}

/// What a value reads as tells which form it has: two values that read the same have the
/// same form.
pub proof fn law_forms_are_told_apart(a: Value, b: Value)
    requires
        a@ == b@,
    ensures
        a is Null <==> b is Null,
        a is Bool <==> b is Bool,
        a is Number <==> b is Number,
        a is String <==> b is String,
        a is Array <==> b is Array,
        a is Object <==> b is Object,
        a matches Value::Bool(x) ==> b == Value::Bool(x),
        a matches Value::Number(x) ==> b == Value::Number(x),
        a matches Value::String(x) ==> (b matches Value::String(y) && x@ == y@),
        a matches Value::Array(x) ==> (b matches Value::Array(y) && x@.len() == y@.len()),
        a matches Value::Object(x) ==> (b matches Value::Object(y) && x@.dom() == y@.dom()),
{
    lemma_value(a);
    lemma_value(b);
    if a is Array {
        assert(values_json(a->Array_0@).len() == values_json(b->Array_0@).len());
    }
    if a is Object {
        assert(map_json(a->Object_0@).dom() =~= a->Object_0@.dom());
        assert(map_json(b->Object_0@).dom() =~= b->Object_0@.dom());
    }
}

} // verus!
