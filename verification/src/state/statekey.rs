//! Keys of the dynamic state with the type of their value and their rule.

use core::marker::PhantomData;
use vstd::prelude::*;

use crate::json::{Json, Value};
use crate::state::delta::Reducer;
use crate::state::state;
use crate::state::state::{State, StateError};

verus! {

/// A key whose value has type `T`. `F` is the type of custom rules.
pub struct StateKey<T, F> {
    name: &'static str,
    reducer: Reducer<F>,
    _marker: PhantomData<T>,
}

impl<T, F> StateKey<T, F> {
    /// The key's name.
    pub closed spec fn key(self) -> Seq<char> {
        self.name@
    }

    /// The key's rule.
    pub closed spec fn rule(self) -> Reducer<F> {
        self.reducer
    }

    /// A key with a rule.
    pub fn new(name: &'static str, reducer: Reducer<F>) -> (k: Self)
        ensures
            k.key() == name@,
            k.rule() == reducer,
    {
        StateKey { name, reducer, _marker: PhantomData }
    }

    /// A key for which lists are joined.
    pub fn append(name: &'static str) -> (k: Self)
        ensures
            k.key() == name@,
            k.rule() == Reducer::<F>::Append,
    {
        StateKey::new(name, Reducer::Append)
    }

    /// A key for which numbers are added up.
    pub fn sum(name: &'static str) -> (k: Self)
        ensures
            k.key() == name@,
            k.rule() == Reducer::<F>::Sum,
    {
        StateKey::new(name, Reducer::Sum)
    }

    /// A key for which the last writer wins.
    pub fn replace(name: &'static str) -> (k: Self)
        ensures
            k.key() == name@,
            k.rule() == Reducer::<F>::Replace,
    {
        StateKey::new(name, Reducer::Replace)
    }

    /// A key for which objects are laid over one another.
    pub fn merge_object(name: &'static str) -> (k: Self)
        ensures
            k.key() == name@,
            k.rule() == Reducer::<F>::MergeObject,
    {
        StateKey::new(name, Reducer::MergeObject)
    }

    /// A key for which the greatest number is kept.
    pub fn max(name: &'static str) -> (k: Self)
        ensures
            k.key() == name@,
            k.rule() == Reducer::<F>::Max,
    {
        StateKey::new(name, Reducer::Max)
    }

    /// A key for which the least number is kept.
    pub fn min(name: &'static str) -> (k: Self)
        ensures
            k.key() == name@,
            k.rule() == Reducer::<F>::Min,
    {
        StateKey::new(name, Reducer::Min)
    }

    /// A key for which there may be one writer only.
    pub fn error(name: &'static str) -> (k: Self)
        ensures
            k.key() == name@,
            k.rule() == Reducer::<F>::Error,
    {
        StateKey::new(name, Reducer::Error)
    }

    /// The key's name.
    pub fn name(&self) -> (name: &str)
        ensures
            name@ == self.key(),
    {
        self.name
    }

    /// The key's rule.
    pub fn reducer(&self) -> (reducer: &Reducer<F>)
        ensures
            *reducer == self.rule(),
    {
        &self.reducer
    }
}

impl State {
    /// Puts a value under a key, `null` where the value could not be written down.
    pub fn set_sk<T, F>(&mut self, key: &StateKey<T, F>, value: Option<Value>)
        ensures
            final(self)@ == old(self)@.insert(
                key.key(),
                match value {
                    Some(v) => v@,
                    None => Json::Null,
                },
            ),
    {
        self.set(key.name(), value);
    }

    /// What `read` makes of the value under a key.
    pub fn get_sk<T, F, R: Fn(&Value) -> Result<T, String>>(
        &self,
        key: &StateKey<T, F>,
        read: &R,
    ) -> (r: Option<T>)
        requires
            forall|v: Value| #[trigger] call_requires(read, (&v,)),
        ensures
            state::wished(self@, key.key(), read, r),
    {
        match self.get_json(key.name(), read) {
            Ok(t) => Some(t),
            Err(_) => None,
        }
    }

    /// What `read` makes of the value under a key, an error without one.
    pub fn require_sk<T, F, R: Fn(&Value) -> Result<T, String>>(
        &self,
        key: &StateKey<T, F>,
        read: &R,
    ) -> (r: Result<T, StateError>)
        requires
            forall|v: Value| #[trigger] call_requires(read, (&v,)),
        ensures
            state::required(self@, key.key(), read, r),
    {
        self.get_json(key.name(), read)
    }

    /// Whether there is a value under a key.
    pub fn contains_sk<T, F>(&self, key: &StateKey<T, F>) -> (found: bool)
        ensures
            found == self@.contains_key(key.key()),
    {
        self.contains(key.name())
    }

    /// Takes a key out and hands back its value.
    pub fn remove_sk<T, F>(&mut self, key: &StateKey<T, F>) -> (removed: Option<Value>)
        ensures
            final(self)@ == old(self)@.remove(key.key()),
            match removed {
                Some(v) => old(self)@.contains_key(key.key()) && v@ == old(self)@[key.key()],
                None => !old(self)@.contains_key(key.key()),
            },
    {
        self.remove(key.name())
    }
}

/// The list of messages.
pub fn sk_messages<F>() -> (k: StateKey<Vec<Value>, F>)
    ensures
        k.key() == "messages"@,
        k.rule() == Reducer::<F>::Append,
{
    StateKey::append("messages")
}

/// A count.
pub fn sk_count<F>() -> (k: StateKey<u64, F>)
    ensures
        k.key() == "count"@,
        k.rule() == Reducer::<F>::Sum,
{
    StateKey::sum("count")
}

/// The steps taken.
pub fn sk_steps<F>() -> (k: StateKey<Vec<String>, F>)
    ensures
        k.key() == "steps"@,
        k.rule() == Reducer::<F>::Append,
{
    StateKey::append("steps")
}

/// The rounds of an agent.
pub fn sk_iterations<F>() -> (k: StateKey<u32, F>)
    ensures
        k.key() == "iterations"@,
        k.rule() == Reducer::<F>::Replace,
{
    StateKey::replace("iterations")
}

/// The tool calls of this round that are still to be made.
pub fn sk_pending_tool_calls<F>() -> (k: StateKey<Vec<Value>, F>)
    ensures
        k.key() == "pending_tool_calls"@,
        k.rule() == Reducer::<F>::Replace,
{
    StateKey::replace("pending_tool_calls")
}

/// The tokens of text put out so far.
pub fn sk_output_tokens<F>() -> (k: StateKey<usize, F>)
    ensures
        k.key() == "output_tokens"@,
        k.rule() == Reducer::<F>::Sum,
{
    StateKey::sum("output_tokens")
}

/// The tokens of reasoning put out so far.
pub fn sk_reasoning_tokens<F>() -> (k: StateKey<usize, F>)
    ensures
        k.key() == "reasoning_tokens"@,
        k.rule() == Reducer::<F>::Sum,
{
    StateKey::sum("reasoning_tokens")
}

} // verus!
