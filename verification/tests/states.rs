//! States, branches, deltas and typed keys.

use lellm_graph::json::{Number, Value};
use lellm_graph::state::branch_state::{BranchState, ChangeOperation, ChangeRecord};
use lellm_graph::state::delta::{DeltaSource, NumericOp, Reducer, ReducerRegistry, StateDelta};
use lellm_graph::state::state::{
    array_reducer, ExecutionEntry, State, StateError, StateMerge, StateMutation,
};
use lellm_graph::state::statekey::{sk_count, sk_messages, StateKey};
use lellm_graph::state::workflow_state::{
    LastWriteWins, MergeStrategy, WorkflowError, WorkflowState,
};
use lellm_graph::string_map::StringMap;
use lellm_graph::time::{instant_to_iso, Instant};

type Rule = fn(&Value, &Value) -> Result<Value, String>;

fn num(n: u64) -> Value {
    Value::Number(Number::PosInt(n))
}

fn text(s: &str) -> Value {
    Value::String(s.to_string())
}

fn list(items: &[u64]) -> Value {
    Value::Array(items.iter().map(|n| num(*n)).collect())
}

fn ints(v: &Value) -> Vec<u64> {
    match v {
        Value::Array(items) => items
            .iter()
            .map(|i| match i {
                Value::Number(Number::PosInt(n)) => *n,
                _ => unreachable!(),
            })
            .collect(),
        _ => unreachable!(),
    }
}

fn read_u64(v: &Value) -> Result<u64, String> {
    match v {
        Value::Number(Number::PosInt(n)) => Ok(*n),
        _ => Err("not a count".to_string()),
    }
}

fn numeric(op: NumericOp, at: Option<Number>, values: &Vec<Number>) -> Option<Number> {
    let mut all: Vec<u64> = Vec::new();
    if let Some(Number::PosInt(n)) = at {
        all.push(n);
    }
    for v in values {
        if let Number::PosInt(n) = v {
            all.push(*n);
        }
    }
    let n = match op {
        NumericOp::Sum => all.iter().sum(),
        NumericOp::Max => *all.iter().max()?,
        NumericOp::Min => *all.iter().min()?,
    };
    Some(Number::PosInt(n))
}

#[test]
fn values_are_read_by_their_form() {
    let mut s = State::new();
    assert!(s.is_empty());
    assert!(s.insert("t".to_string(), text("x")).is_none());
    s.insert("b".to_string(), Value::Bool(true));
    s.insert("n".to_string(), num(5));
    s.insert("m".to_string(), Value::Number(Number::NegInt(-5)));
    s.insert("big".to_string(), num(u64::MAX));
    assert_eq!(s.len(), 5);
    assert_eq!(s.get_str("t"), Some("x"));
    assert_eq!(s.get_str("b"), None);
    assert_eq!(s.get_bool("b"), Some(true));
    assert_eq!(s.get_u64("n"), Some(5));
    assert_eq!(s.get_u64("m"), None);
    assert_eq!(s.get_i64("n"), Some(5));
    assert_eq!(s.get_i64("m"), Some(-5));
    assert_eq!(s.get_i64("big"), None);
    assert!(s.remove("t").is_some());
    assert!(!s.contains("t"));
    assert_eq!(s.keys().len(), 4);
}

#[test]
fn asking_for_a_value_may_fail_in_two_ways() {
    let mut s = State::new();
    s.insert("n".to_string(), num(5));
    s.insert("t".to_string(), text("x"));
    assert_eq!(s.get_json("n", &read_u64).ok(), Some(5));
    assert_eq!(s.require("n", &read_u64).ok(), Some(5));
    match s.get_json("gone", &read_u64) {
        Err(StateError::MissingKey(k)) => assert_eq!(k, "gone"),
        _ => unreachable!(),
    }
    match s.get_json("t", &read_u64) {
        Err(StateError::Deserialize(k, m)) => {
            assert_eq!(k, "t");
            assert_eq!(m, "not a count");
        }
        _ => unreachable!(),
    }
}

#[test]
fn what_cannot_be_written_is_null() {
    let mut s = State::new();
    s.set("k", None);
    assert!(matches!(s.get("k"), Some(Value::Null)));
    s.set("k", Some(num(1)));
    assert_eq!(s.get_u64("k"), Some(1));
}

#[test]
fn lists_grow_at_their_end() {
    let mut s = State::new();
    assert!(s.append_array("l", list(&[1, 2])).is_ok());
    assert!(s.append_array("l", list(&[3])).is_ok());
    assert_eq!(ints(s.get("l").unwrap()), vec![1, 2, 3]);
    assert_eq!(
        s.append_array("l", num(4)).err().unwrap(),
        "append_array expects an array"
    );
    s.insert("n".to_string(), num(1));
    assert_eq!(
        s.append_array("n", list(&[1])).err().unwrap(),
        "append_array: existing value is not an array"
    );
    assert!(s.reduce("l", list(&[4]), &array_reducer).is_ok());
    assert_eq!(ints(s.get("l").unwrap()), vec![1, 2, 3, 4]);
    assert_eq!(
        s.reduce("n", list(&[4]), &array_reducer).err().unwrap(),
        "array_reducer: existing is not an array"
    );
    assert!(s.reduce("new", num(9), &array_reducer).is_ok());
    assert_eq!(s.get_u64("new"), Some(9));
    assert_eq!(
        array_reducer(&list(&[1]), &num(2)).err().unwrap(),
        "array_reducer: new value is not an array"
    );
}

#[test]
fn a_batch_is_its_changes_in_order() {
    let mut s = State::new();
    s.apply_batch(vec![
        StateMutation::Put("a".to_string(), num(1)),
        StateMutation::Put("a".to_string(), num(2)),
        StateMutation::Put("b".to_string(), num(3)),
        StateMutation::Delete("b".to_string()),
    ]);
    assert_eq!(s.get_u64("a"), Some(2));
    assert!(!s.contains("b"));
}

#[test]
fn a_checkpoint_keeps_the_whole_state() {
    let mut s = State::new();
    s.insert("l".to_string(), list(&[1, 2]));
    let back = <State as WorkflowState>::restore(s.snapshot());
    assert_eq!(ints(back.get("l").unwrap()), vec![1, 2]);
    assert_eq!(back.len(), 1);
}

#[test]
fn later_branches_win_key_by_key() {
    let mut a = State::new();
    a.insert("x".to_string(), num(1));
    a.insert("y".to_string(), num(1));
    let mut b = State::new();
    b.insert("y".to_string(), num(2));
    b.insert("z".to_string(), num(2));
    let merged = StateMerge::merge(vec![a, b]).ok().unwrap();
    assert_eq!(merged.get_u64("x"), Some(1));
    assert_eq!(merged.get_u64("y"), Some(2));
    assert_eq!(merged.get_u64("z"), Some(2));
    assert_eq!(merged.len(), 3);
}

#[test]
fn the_last_branch_wins_as_a_whole() {
    assert_eq!(LastWriteWins::merge(vec![1u8, 2, 3]).ok(), Some(3));
    let none: Result<u8, WorkflowError> = LastWriteWins::merge(Vec::new());
    match none {
        Err(WorkflowError::MergeConflict(m)) => assert_eq!(m, "no branches to merge"),
        _ => unreachable!(),
    }
}

#[test]
fn a_branch_sees_its_own_writes_first() {
    let mut base = State::new();
    base.insert("a".to_string(), num(1));
    let mut branch = BranchState::from_state(base);
    branch.set("a", num(2));
    branch.set("b", num(3));
    assert_eq!(branch.get_typed("a", &read_u64), Some(2));
    assert_eq!(branch.get_typed("gone", &read_u64), None);
    assert_eq!(branch.base().get_u64("a"), Some(1));
    assert_eq!(branch.changes().len(), 2);
    let fork = branch.fork();
    assert!(fork.contains("b"));
    assert_eq!(fork.changes().len(), 0);
    let whole = branch.to_state();
    assert_eq!(whole.get_u64("a"), Some(2));
    assert_eq!(whole.get_u64("b"), Some(3));
    branch.clear_changes();
    assert!(branch.changes().is_empty());
}

#[test]
fn a_removed_key_is_gone_though_the_base_has_it() {
    let mut base = State::new();
    base.insert("a".to_string(), num(1));
    let mut branch = BranchState::from_state(base);
    branch.set("a", num(2));
    branch.remove("a");
    assert_eq!(branch.get_typed("a", &read_u64), None);
    assert!(branch.get("a").is_none());
    assert!(!branch.contains("a"));
    assert!(branch.keys().is_empty());
    assert!(branch.to_state().is_empty());
    assert!(branch.clone().fork().get("a").is_none());
    assert_eq!(branch.base().get_u64("a"), Some(1));
    assert_eq!(branch.changes().len(), 2);
    assert_eq!(branch.changes()[1].operation, ChangeOperation::Delete);
    branch.set("a", num(3));
    assert_eq!(branch.get_typed("a", &read_u64), Some(3));
}

#[test]
fn logged_changes_can_be_made_on_a_state() {
    let mut s = State::new();
    s.apply_branch_change(&ChangeRecord {
        key: "a".to_string(),
        operation: ChangeOperation::Put,
        value: num(4),
    });
    assert_eq!(s.get_u64("a"), Some(4));
    s.apply_branch_change(&ChangeRecord {
        key: "a".to_string(),
        operation: ChangeOperation::Delete,
        value: Value::Null,
    });
    assert!(s.is_empty());
}

#[test]
fn single_changes_need_no_rule() {
    let registry: ReducerRegistry<Rule> = ReducerRegistry::new();
    let mut s = State::new();
    s.insert("gone".to_string(), num(0));
    let deltas = vec![StateDelta::put("a", num(1)), StateDelta::delete("gone")];
    assert!(registry.merge_deltas(&mut s, &deltas, &numeric).is_ok());
    assert_eq!(s.get_u64("a"), Some(1));
    assert!(!s.contains("gone"));
}

#[test]
fn several_writers_without_a_rule_conflict() {
    let registry: ReducerRegistry<Rule> = ReducerRegistry::new();
    let mut s = State::new();
    let deltas = vec![
        StateDelta::put("a", num(1)).with_writer("w1"),
        StateDelta::put("a", num(2)).with_writer("w2"),
    ];
    match registry.merge_deltas(&mut s, &deltas, &numeric) {
        Err(StateError::StateConflict { key, writers }) => {
            assert_eq!(key, "a");
            assert_eq!(writers.len(), 2);
            assert_eq!(writers[0], DeltaSource::Node { node_id: "w1".to_string() }.to_string());
        }
        _ => unreachable!(),
    }
    assert!(s.is_empty());
}

#[test]
fn rules_join_several_changes() {
    let mut registry: ReducerRegistry<Rule> = ReducerRegistry::new();
    registry.register("r", Reducer::Replace);
    registry.register("l", Reducer::Append);
    registry.register("o", Reducer::MergeObject);
    registry.register("s", Reducer::Sum);
    registry.register("x", Reducer::Max);
    registry.register("m", Reducer::Min);
    fn second(_: &Value, new: &Value) -> Result<Value, String> {
        Ok(new.clone())
    }
    registry.register("c", Reducer::Custom(second as Rule));
    let mut s = State::new();
    s.insert("l".to_string(), list(&[1]));
    s.insert("s".to_string(), num(10));
    let mut one: StringMap<Value> = StringMap::new();
    one.insert("p".to_string(), num(1));
    let mut two: StringMap<Value> = StringMap::new();
    two.insert("p".to_string(), num(2));
    two.insert("q".to_string(), num(3));
    let deltas = vec![
        StateDelta::put("r", num(1)),
        StateDelta::put("r", num(2)),
        StateDelta::put("l", list(&[2])),
        StateDelta::put("l", list(&[3, 4])),
        StateDelta::put("o", Value::Object(one)),
        StateDelta::put("o", Value::Object(two)),
        StateDelta::put("s", num(1)),
        StateDelta::put("s", num(2)),
        StateDelta::put("x", num(7)),
        StateDelta::put("x", num(5)),
        StateDelta::put("m", num(7)),
        StateDelta::put("m", num(5)),
        StateDelta::put("c", num(1)),
        StateDelta::put("c", num(8)),
    ];
    assert!(registry.merge_deltas(&mut s, &deltas, &numeric).is_ok());
    assert_eq!(s.get_u64("r"), Some(2));
    assert_eq!(ints(s.get("l").unwrap()), vec![1, 2, 3, 4]);
    match s.get("o") {
        Some(Value::Object(m)) => {
            assert!(matches!(m.get("p"), Some(Value::Number(Number::PosInt(2)))));
            assert!(matches!(m.get("q"), Some(Value::Number(Number::PosInt(3)))));
        }
        _ => unreachable!(),
    }
    assert_eq!(s.get_u64("s"), Some(13));
    assert_eq!(s.get_u64("x"), Some(7));
    assert_eq!(s.get_u64("m"), Some(5));
    assert_eq!(s.get_u64("c"), Some(8));
}

#[test]
fn the_last_writer_may_delete() {
    let mut registry: ReducerRegistry<Rule> = ReducerRegistry::new();
    registry.register("k", Reducer::Replace);
    let mut s = State::new();
    s.insert("k".to_string(), num(1));
    let deltas = vec![StateDelta::put("k", num(2)), StateDelta::delete("k")];
    assert!(registry.merge_deltas(&mut s, &deltas, &numeric).is_ok());
    assert!(!s.contains("k"));
    let deltas = vec![StateDelta::delete("k"), StateDelta::put("k", num(3))];
    assert!(registry.merge_deltas(&mut s, &deltas, &numeric).is_ok());
    assert_eq!(s.get_u64("k"), Some(3));
}

#[test]
fn the_last_days_of_a_year_are_in_december() {
    let now = Instant { nanos: 0 };
    assert_eq!(instant_to_iso(&now, &now, 359 * 86400), "1970-12-30T00:00:00Z");
    assert_eq!(instant_to_iso(&now, &now, 364 * 86400 + 3661), "1970-12-05T01:01:01Z");
    assert_eq!(instant_to_iso(&now, &now, 365 * 86400), "1971-01-06T00:00:00Z");
}

#[test]
fn a_failing_rule_is_an_error() {
    let mut registry: ReducerRegistry<Rule> = ReducerRegistry::new();
    fn fails(_: &Value, _: &Value) -> Result<Value, String> {
        Err("no".to_string())
    }
    registry.register("c", Reducer::Custom(fails as Rule));
    registry.register_custom("c", fails as Rule);
    let mut s = State::new();
    let deltas = vec![StateDelta::put("c", num(1)), StateDelta::put("c", num(2))];
    match registry.merge_deltas(&mut s, &deltas, &numeric) {
        Err(StateError::ReducerConflict(k, m)) => {
            assert_eq!(k, "c");
            assert_eq!(m, "no");
        }
        _ => unreachable!(),
    }
    assert!(registry.apply_custom("c", &num(1), &num(2)).is_err());
    assert!(matches!(registry.apply_custom("other", &num(1), &num(2)), Ok(None)));
}

#[test]
fn typed_keys_name_their_values() {
    let mut s = State::new();
    let count: StateKey<u64, Rule> = sk_count();
    assert_eq!(count.name(), "count");
    assert!(matches!(count.reducer(), Reducer::Sum));
    s.set_sk(&count, Some(num(3)));
    assert_eq!(s.get_sk(&count, &read_u64), Some(3));
    assert_eq!(s.require_sk(&count, &read_u64).ok(), Some(3));
    assert!(s.contains_sk(&count));
    assert!(s.remove_sk(&count).is_some());
    assert_eq!(s.get_sk(&count, &read_u64), None);
    assert!(matches!(
        s.require_sk(&count, &read_u64),
        Err(StateError::MissingKey(_))
    ));
    let messages: StateKey<Vec<Value>, Rule> = sk_messages();
    assert_eq!(messages.name(), "messages");
    assert_eq!(messages.reducer().to_string(), "Append");
}

#[test]
fn errors_of_the_state_have_their_texts() {
    assert_eq!(
        StateError::MissingKey("k".to_string()).to_string(),
        "state key 'k' is missing"
    );
    assert_eq!(
        StateError::Deserialize("k".to_string(), "m".to_string()).to_string(),
        "failed to deserialize state key 'k': m"
    );
}

#[test]
fn further_errors_of_the_state_have_their_texts() {
    assert_eq!(
        StateError::ReducerConflict("k".to_string(), "m".to_string()).to_string(),
        "reducer conflict on key 'k': m"
    );
    assert_eq!(
        StateError::DeltaApply("k".to_string(), "m".to_string()).to_string(),
        "failed to apply delta on key 'k': m"
    );
    assert_eq!(
        StateError::StateConflict {
            key: "k".to_string(),
            writers: vec!["a".to_string(), "b".to_string()],
        }
        .to_string(),
        "state conflict on key 'k': concurrent writers [a, b]"
    );
}

#[test]
fn an_entry_of_the_log_is_written_as_json() {
    let entry = ExecutionEntry {
        step: 2,
        node_name: "n".to_string(),
        start_time: Instant { nanos: 0 },
        end_time: Instant { nanos: 2_000_000_000 },
        success: false,
        error: Some("e".to_string()),
    };
    assert_eq!(entry.elapsed().as_secs(), 2);
    match entry.to_json_value(&Instant { nanos: 5_000_000_000 }, 100) {
        Value::Object(m) => {
            assert!(matches!(m.get("step"), Some(Value::Number(Number::PosInt(2)))));
            assert!(matches!(m.get("success"), Some(Value::Bool(false))));
            match (m.get("start_time"), m.get("end_time")) {
                (Some(Value::String(a)), Some(Value::String(b))) => {
                    assert_eq!(a, "1970-01-01T00:01:35Z");
                    assert_eq!(b, "1970-01-01T00:01:37Z");
                }
                _ => unreachable!(),
            }
            assert!(matches!(m.get("error"), Some(Value::String(_))));
        }
        _ => unreachable!(),
    }
}
