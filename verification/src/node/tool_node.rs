//! The node that calls the tools that a model has asked for.

use vstd::prelude::*;

use crate::error::{GraphError, TerminalError};
use crate::exec::execution_engine::NextAction;
use crate::json;
use crate::json::{Json, Value};
use crate::node::message;
use crate::node::message::{ContentBlock, Message, ToolCall};
use crate::state::state::State;

verus! {

/// A node that calls tools. `A` is the type of what calls them.
pub struct ToolNode<A> {
    pub name: String,
    pub executor: A,
    /// The key under which the conversation is kept.
    pub messages_key: String,
}

/// The calls that a conversation waits for: those of its last message, where that is
/// one of the assistant.
pub open spec fn awaited(messages: Seq<Message>, calls: Seq<ToolCall>) -> bool {
    if messages.len() > 0 && messages.last() is Assistant {
        let asked = messages.last()->Assistant_content@.filter(message::is_call());
        calls.len() == asked.len() && forall|i: int|
            0 <= i < calls.len() ==> (#[trigger] calls[i]).same(asked[i]->ToolCall_0)
    } else {
        calls.len() == 0
    }
}

/// The message answers a call with what the tool gave or with its error.
pub open spec fn answers(m: Message, call: ToolCall, outcome: Result<String, String>) -> bool {
    m matches Message::ToolResult { tool_call_id, is_error, content } && tool_call_id@ == call.id@
        && is_error == (outcome is Err) && message::is_text(
        content@,
        match outcome {
            Ok(t) => t@,
            Err(t) => t@,
        },
    )
}

/// The message that answers a call.
pub fn tool_message(call: &ToolCall, outcome: Result<String, String>) -> (m: Message)
    ensures
        answers(m, *call, outcome),
{
    let is_error = outcome.is_err();
    let text = match outcome {
        Ok(t) => t,
        Err(t) => t,
    };
    Message::ToolResult {
        tool_call_id: call.id.clone(),
        is_error,
        content: message::text_block(text),
    }
}

/// `values` is what `write` makes of messages up to the first that it cannot write.
pub open spec fn written_until<W: Fn(&Message) -> Result<Value, String>>(
    write: &W,
    messages: Seq<Message>,
    values: Seq<Value>,
) -> bool {
    &&& values.len() <= messages.len()
    &&& forall|i: int|
        0 <= i < values.len() ==> call_ensures(
            write,
            (&messages[i],),
            Ok::<Value, String>(#[trigger] values[i]),
        )
}

/// The message after those written is the first that cannot be written.
pub open spec fn stops_at<W: Fn(&Message) -> Result<Value, String>>(
    write: &W,
    messages: Seq<Message>,
    values: Seq<Value>,
    error: Seq<char>,
) -> bool {
    &&& values.len() < messages.len()
    &&& exists|m: String| #[trigger]
        call_ensures(
            write,
            (&messages[values.len() as int],),
            Err::<Value, String>(m),
        ) && m@ == error
}

fn write_all<W: Fn(&Message) -> Result<Value, String>>(messages: &Vec<Message>, write: &W) -> (r: (
    Vec<Value>,
    Option<String>,
))
    requires
        forall|m: Message| #[trigger] call_requires(write, (&m,)),
    ensures
        written_until(write, messages@, r.0@),
        match r.1 {
            None => r.0@.len() == messages@.len(),
            Some(e) => stops_at(write, messages@, r.0@, e@),
        },
{
    let mut values: Vec<Value> = Vec::new();
    let mut i: usize = 0;
    while i < messages.len()
        invariant
            i <= messages@.len(),
            values@.len() == i,
            forall|m: Message| #[trigger] call_requires(write, (&m,)),
            written_until(write, messages@, values@),
        decreases messages@.len() - i,
    {
        let ghost so_far = values@;
        match write(&messages[i]) {
            Ok(v) => {
                values.push(v);
                assert forall|j: int| 0 <= j < values@.len() implies call_ensures(
                    write,
                    (&messages@[j],),
                    Ok::<Value, String>(#[trigger] values@[j]),
                ) by {
                    if j < i {
                        assert(values@[j] == so_far[j]);
                    }
                }
            },
            Err(e) => {
                assert(call_ensures(
                    write,
                    (&messages@[values@.len() as int],),
                    Err::<Value, String>(e),
                ));
                return (values, Some(e));
            },
        }
        i += 1;
    }
    (values, None)
}

/// The error is one of the state, with a text.
pub open spec fn is_state_error(e: GraphError, text: Seq<char>) -> bool {
    e matches GraphError::Terminal(TerminalError::StateError(t)) && t@ == text
}

fn state_error(text: &str, cause: &String) -> (e: GraphError)
    ensures
        is_state_error(e, text@ + cause@),
{
    let mut t = text.to_owned();
    t.append(cause.as_str());
    GraphError::Terminal(TerminalError::StateError(t))
}

/// What becomes of the state and of the run when answers are added to a conversation.
/// An existing list gets them at its end, as far as they can be written down; where
/// there is no conversation one is begun, unless an answer cannot be written down; and
/// what is no list is left alone.
pub open spec fn added<W: Fn(&Message) -> Result<Value, String>>(
    before: Map<Seq<char>, Json>,
    after: Map<Seq<char>, Json>,
    key: Seq<char>,
    messages: Seq<Message>,
    write: &W,
    values: Seq<Value>,
    r: Result<NextAction, GraphError>,
) -> bool {
    if before.contains_key(key) && !(before[key] is Array) {
        after == before && r matches Ok(NextAction::Next)
    } else {
        &&& written_until(write, messages, values)
        &&& if before.contains_key(key) {
            after == before.insert(
                key,
                Json::Array(before[key]->Array_0 + json::values_json(values)),
            )
        } else if r is Ok {
            after == before.insert(key, Json::Array(json::values_json(values)))
        } else {
            after == before
        }
        &&& match r {
            Ok(next) => next is Next && values.len() == messages.len(),
            Err(e) => exists|cause: Seq<char>| #[trigger]
                stops_at(write, messages, values, cause) && is_state_error(
                    e,
                    (if before.contains_key(key) {
                        "failed to serialize tool result: "@
                    } else {
                        "failed to serialize tool results: "@
                    }) + cause,
                ),
        }
    }
}

impl<A> ToolNode<A> {
    /// A node for all the tools.
    pub fn all(executor: A) -> (node: Self)
        ensures
            node.name@ == "tools"@,
            node.executor == executor,
            node.messages_key@ == "messages"@,
    {
        ToolNode::new("tools", executor)
    }

    /// A node with a name.
    pub fn new(name: &str, executor: A) -> (node: Self)
        ensures
            node.name@ == name@,
            node.executor == executor,
            node.messages_key@ == "messages"@,
    {
        ToolNode { name: name.to_owned(), executor, messages_key: "messages".to_owned() }
    }

    /// The same with another key.
    pub fn with_messages_key(self, key: &str) -> (node: Self)
        ensures
            node.messages_key@ == key@,
            node == (ToolNode { messages_key: node.messages_key, ..self }),
    {
        let mut node = self;
        node.messages_key = key.to_owned();
        node
    }

    /// The calls that the conversation waits for.
    pub fn pending_calls<R: Fn(&Value) -> Option<Vec<Message>>>(&self, state: &State, read: &R) -> (
    calls: Vec<ToolCall>)
        requires
            forall|v: Value| #[trigger] call_requires(read, (&v,)),
        ensures
            exists|messages: Seq<Message>| #[trigger]
                message::messages_under(*state, self.messages_key@, read, messages) && awaited(
                    messages,
                    calls@,
                ),
    {
        let messages = message::read_list(state, self.messages_key.as_str(), read);
        assert(message::messages_under(*state, self.messages_key@, read, messages@));
        let n = messages.len();
        if n == 0 {
            return Vec::new();
        }
        match &messages[n - 1] {
            Message::Assistant { content } => message::calls_of(content),
            _ => Vec::new(),
        }
    }

    /// Adds the answers to the conversation.
    pub fn append_results<W: Fn(&Message) -> Result<Value, String>>(
        &self,
        state: &mut State,
        results: &Vec<Message>,
        write: &W,
    ) -> (r: Result<NextAction, GraphError>)
        requires
            forall|m: Message| #[trigger] call_requires(write, (&m,)),
        ensures
            exists|values: Seq<Value>| #[trigger]
                added(
                    old(state)@,
                    final(state)@,
                    self.messages_key@,
                    results@,
                    write,
                    values,
                    r,
                ),
    {
        let ghost before = state@;
        let ghost key = self.messages_key@;
        let held = match state.get(self.messages_key.as_str()) {
            Some(v) => {
                proof {
                    json::lemma_value(*v);
                }
                match v {
                    Value::Array(_) => Some(true),
                    _ => Some(false),
                }
            },
            None => None,
        };
        match held {
            Some(false) => {
                let r: Result<NextAction, GraphError> = Ok(NextAction::Next);
                assert(added(before, state@, key, results@, write, Seq::empty(), r));
                r
            },
            Some(true) => {
                let (values, failure) = write_all(results, write);
                let ghost list = values@;
                let more = Value::Array(values);
                proof {
                    json::lemma_value(more);
                }
                let _done = state.append_array(self.messages_key.as_str(), more);
                let r = match failure {
                    None => Ok(NextAction::Next),
                    Some(cause) => {
                        assert(stops_at(write, results@, list, cause@));
                        Err(state_error("failed to serialize tool result: ", &cause))
                    },
                };
                assert(added(before, state@, key, results@, write, list, r));
                r
            },
            None => {
                let (values, failure) = write_all(results, write);
                let ghost list = values@;
                let r = match failure {
                    None => {
                        let all = Value::Array(values);
                        proof {
                            json::lemma_value(all);
                        }
                        state.insert(self.messages_key.clone(), all);
                        Ok(NextAction::Next)
                    },
                    Some(cause) => {
                        assert(stops_at(write, results@, list, cause@));
                        Err(state_error("failed to serialize tool results: ", &cause))
                    },
                };
                assert(added(before, state@, key, results@, write, list, r));
                r
            },
        }
    }
}

/// Answers never change what is already in a conversation.
pub proof fn law_answers_are_appended<W: Fn(&Message) -> Result<Value, String>>(
    before: Map<Seq<char>, Json>,
    after: Map<Seq<char>, Json>,
    key: Seq<char>,
    messages: Seq<Message>,
    write: &W,
    values: Seq<Value>,
    r: Result<NextAction, GraphError>,
)
    requires
        added(before, after, key, messages, write, values, r),
    ensures
        before.contains_key(key) ==> after.contains_key(key),
        before.contains_key(key) && before[key] is Array ==> after[key] is Array
            && before[key]->Array_0.is_prefix_of(after[key]->Array_0),
        forall|other: Seq<char>|
            other != key ==> (#[trigger] after.contains_key(other) <==> before.contains_key(other)),
        forall|other: Seq<char>|
            other != key && before.contains_key(other) ==> #[trigger] after[other] == before[other],
{
}

/// The calls that are waited for are those of the last message, in order, if it is one of
/// the assistant, and none if it is not. What came before has no part in it.
pub proof fn law_last_message_is_answered(
    history: Seq<Message>,
    other: Seq<Message>,
    last: Message,
    calls: Seq<ToolCall>,
)
    ensures
        awaited(history.push(last), calls) <==> awaited(other.push(last), calls),
        awaited(history.push(last), calls) && last is Assistant ==> {
            let asked = last->Assistant_content@.filter(|b: ContentBlock| b is ToolCall);
            &&& calls.len() == asked.len()
            &&& forall|i: int|
                0 <= i < calls.len() ==> (#[trigger] calls[i]).id@ == asked[i]->ToolCall_0.id@
                    && calls[i].name@ == asked[i]->ToolCall_0.name@ && calls[i].arguments@
                    == asked[i]->ToolCall_0.arguments@
        },
        awaited(history.push(last), calls) && !(last is Assistant) ==> calls.len() == 0,
        awaited(Seq::empty(), calls) ==> calls.len() == 0,
{
    assert(history.push(last).last() == last);
    assert(other.push(last).last() == last);
    assert((|b: ContentBlock| b is ToolCall) =~= message::is_call());
}

/// An answer names the call that it answers, tells whether the tool failed, and reads as
/// what the tool gave or as its error. It asks for no call itself.
pub proof fn law_answers_name_their_call(
    history: Seq<Message>,
    m: Message,
    call: ToolCall,
    outcome: Result<String, String>,
    calls: Seq<ToolCall>,
)
    requires
        answers(m, call, outcome),
    ensures
        m is ToolResult,
        m->ToolResult_tool_call_id@ == call.id@,
        m->is_error <==> outcome is Err,
        outcome matches Ok(t) ==> message::plain_text(m->ToolResult_content@) == t@,
        outcome matches Err(t) ==> message::plain_text(m->ToolResult_content@) == t@,
        awaited(history.push(m), calls) ==> calls.len() == 0,
{
    let text = match outcome {
        Ok(t) => t@,
        Err(t) => t@,
    };
    message::law_text_reads_as_it_is(m->ToolResult_content@, text);
    assert(history.push(m).last() == m);
}

/// Where the answers are added, each is, in order and at the end, as it was written down:
/// after those of the conversation, or as a conversation of their own. The run goes on
/// along the edges exactly if none failed to be written; where one did, those before it
/// stay in a conversation that there was, and none is begun.
pub proof fn law_every_answer_is_added<W: Fn(&Message) -> Result<Value, String>>(
    before: Map<Seq<char>, Json>,
    after: Map<Seq<char>, Json>,
    key: Seq<char>,
    messages: Seq<Message>,
    write: &W,
    values: Seq<Value>,
    r: Result<NextAction, GraphError>,
)
    requires
        added(before, after, key, messages, write, values, r),
        before.contains_key(key) ==> before[key] is Array,
    ensures
        r matches Ok(next) ==> next is Next,
        r is Ok ==> values.len() == messages.len(),
        r is Err ==> values.len() < messages.len(),
        forall|i: int|
            0 <= i < values.len() ==> call_ensures(
                write,
                (&messages[i],),
                Ok::<Value, String>(#[trigger] values[i]),
            ),
        before.contains_key(key) ==> after.contains_key(key) && after[key] is Array
            && after[key]->Array_0.len() == before[key]->Array_0.len() + values.len() && forall|i: int|
            0 <= i < values.len() ==> after[key]->Array_0[before[key]->Array_0.len() + i]
                == (#[trigger] values[i])@,
        !before.contains_key(key) && r is Ok ==> after.contains_key(key) && after[key] is Array
            && after[key]->Array_0.len() == messages.len() && forall|i: int|
            0 <= i < messages.len() ==> after[key]->Array_0[i] == (#[trigger] values[i])@,
        !before.contains_key(key) && r is Err ==> after == before,
{
    assert forall|i: int| 0 <= i < values.len() implies json::values_json(values)[i] == (
    #[trigger] values[i])@ by {}
}

/// What is no conversation is left alone.
pub proof fn law_other_values_are_left_alone<W: Fn(&Message) -> Result<Value, String>>(
    before: Map<Seq<char>, Json>,
    after: Map<Seq<char>, Json>,
    key: Seq<char>,
    messages: Seq<Message>,
    write: &W,
    values: Seq<Value>,
    r: Result<NextAction, GraphError>,
)
    requires
        added(before, after, key, messages, write, values, r),
        before.contains_key(key),
        !(before[key] is Array),
    ensures
        after == before,
        r matches Ok(NextAction::Next),
{
}

/// Where an answer could not be written, the error is that of the first such answer, told as
/// one in a conversation that there was or in one that was to begin.
pub proof fn law_unwritten_answers_are_told<W: Fn(&Message) -> Result<Value, String>>(
    before: Map<Seq<char>, Json>,
    after: Map<Seq<char>, Json>,
    key: Seq<char>,
    messages: Seq<Message>,
    write: &W,
    values: Seq<Value>,
    e: GraphError,
)
    requires
        added(before, after, key, messages, write, values, Err::<NextAction, GraphError>(e)),
    ensures
        exists|cause: String| #[trigger]
            call_ensures(
                write,
                (&messages[values.len() as int],),
                Err::<Value, String>(cause),
            ) && (e matches GraphError::Terminal(TerminalError::StateError(t)) && (
            before.contains_key(key) ==> t@ == "failed to serialize tool result: "@ + cause@) && (
            !before.contains_key(key) ==> t@ == "failed to serialize tool results: "@ + cause@)),
{
    let text = choose|text: Seq<char>| #[trigger]
        stops_at(write, messages, values, text) && is_state_error(
            e,
            (if before.contains_key(key) {
                "failed to serialize tool result: "@
            } else {
                "failed to serialize tool results: "@
            }) + text,
        );
    let cause = choose|m: String| #[trigger]
        call_ensures(
            write,
            (&messages[values.len() as int],),
            Err::<Value, String>(m),
        ) && m@ == text;
    assert(call_ensures(
        write,
        (&messages[values.len() as int],),
        Err::<Value, String>(cause),
    ));
}

} // verus!
