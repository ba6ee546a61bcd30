//! Nodes that ask a model: once, or through an agent that goes on by itself.

use vstd::prelude::*;

use crate::error::{GraphError, TerminalError};
use crate::exec::execution_engine::NextAction;
use crate::json;
use crate::json::{Json, Number, Value};
use crate::node::message;
use crate::node::message::{ContentBlock, Message, ToolCall};
use crate::node::tool_node;
use crate::state::state::State;

verus! {

/// Why an agent stopped.
#[derive(Clone, Copy, PartialEq, Eq, Structural, Debug)]
pub enum StopReason {
    Complete,
    MaxIterationsReached,
    Cancelled,
    OutputBudgetExceeded,
    ReasoningBudgetExceeded,
}

impl StopReason {
    /// The reason as a short text.
    pub open spec fn short(self) -> Seq<char> {
        match self {
            StopReason::Complete => "Complete"@,
            StopReason::MaxIterationsReached => "MaxIterations"@,
            StopReason::Cancelled => "Cancelled"@,
            StopReason::OutputBudgetExceeded => "OutputBudget"@,
            StopReason::ReasoningBudgetExceeded => "ReasoningBudget"@,
        }
    }
}

/// The reason as a short text.
pub fn stop_reason_str(reason: &StopReason) -> (s: &'static str)
    ensures
        s@ == reason.short(),
{
    match reason {
        StopReason::Complete => "Complete",
        StopReason::MaxIterationsReached => "MaxIterations",
        StopReason::Cancelled => "Cancelled",
        StopReason::OutputBudgetExceeded => "OutputBudget",
        StopReason::ReasoningBudgetExceeded => "ReasoningBudget",
    }
}

/// What an agent has done.
pub struct AgentResult {
    /// The last reply.
    pub response: Vec<ContentBlock>,
    /// The whole conversation.
    pub messages: Vec<Message>,
    pub iterations: u64,
    pub tool_calls_executed: u64,
    pub stop_reason: StopReason,
}

/// What an agent reports while it runs.
pub enum AgentEvent<P> {
    /// It has stopped.
    LoopEnd { result: AgentResult },
    /// It has failed.
    LoopError { error: String },
    /// Anything else.
    Other(P),
}

/// A node that runs an agent. `A` is the type of agents.
pub struct AgentNode<A> {
    pub name: String,
    pub agent: A,
    /// What the keys begin with under which the node reads and writes.
    pub prefix: String,
    /// Whether the whole conversation is written down.
    pub write_messages: bool,
    /// Whether the counts and the reason for stopping are written down.
    pub write_stats: bool,
}

/// The error is that of a node that failed.
pub open spec fn is_node_failure(e: GraphError, node: Seq<char>, source: Seq<char>) -> bool {
    e matches GraphError::Terminal(TerminalError::NodeExecutionFailed { node: n, source: s })
        && n@ == node && s@ == source
}

fn node_failure(node: &String, source: String) -> (e: GraphError)
    ensures
        is_node_failure(e, node@, source@),
{
    GraphError::Terminal(TerminalError::NodeExecutionFailed { node: node.clone(), source })
}

fn prefixed(prefix: &String, name: &str) -> (key: String)
    ensures
        key@ == prefix@ + name@,
{
    let mut key = prefix.clone();
    key.append(name);
    key
}

/// Where the conversation of an agent is found: under the key of its own, or, where
/// that gives no messages, under the common one.
pub open spec fn agent_messages<R: Fn(&Value) -> Option<Vec<Message>>>(
    state: State,
    prefix: Seq<char>,
    read: &R,
    messages: Seq<Message>,
) -> bool {
    ||| messages.len() > 0 && message::messages_under(state, prefix + ".messages"@, read, messages)
    ||| exists|none: Seq<Message>|
        none.len() == 0 && #[trigger] message::messages_under(
            state,
            prefix + ".messages"@,
            read,
            none,
        ) && message::messages_under(state, "messages"@, read, messages)
}

/// The conversation with which an agent begins.
pub fn read_messages<R: Fn(&Value) -> Option<Vec<Message>>>(
    state: &State,
    prefix: &String,
    read: &R,
) -> (messages: Vec<Message>)
    requires
        forall|v: Value| #[trigger] call_requires(read, (&v,)),
    ensures
        agent_messages(*state, prefix@, read, messages@),
{
    let own = message::read_list(state, prefixed(prefix, ".messages").as_str(), read);
    if own.len() == 0 {
        assert(message::messages_under(*state, prefix@ + ".messages"@, read, own@));
        message::read_list(state, "messages", read)
    } else {
        own
    }
}

impl<A> AgentNode<A> {
    /// A node with the usual settings.
    pub fn new(name: &str, agent: A) -> (node: Self)
        ensures
            node.name@ == name@,
            node.agent == agent,
            node.prefix@ == "agent"@,
            node.write_messages,
            node.write_stats,
    {
        AgentNode {
            name: name.to_owned(),
            agent,
            prefix: "agent".to_owned(),
            write_messages: true,
            write_stats: true,
        }
    }

    /// The same with other keys.
    pub fn with_prefix(self, prefix: &str) -> (node: Self)
        ensures
            node.prefix@ == prefix@,
            node == (AgentNode { prefix: node.prefix, ..self }),
    {
        let mut node = self;
        node.prefix = prefix.to_owned();
        node
    }

    /// The same, writing the conversation down or not.
    pub fn with_write_messages(self, enabled: bool) -> (node: Self)
        ensures
            node == (AgentNode { write_messages: enabled, ..self }),
    {
        let mut node = self;
        node.write_messages = enabled;
        node
    }

    /// The same, writing the counts down or not.
    pub fn with_write_stats(self, enabled: bool) -> (node: Self)
        ensures
            node == (AgentNode { write_stats: enabled, ..self }),
    {
        let mut node = self;
        node.write_stats = enabled;
        node
    }

    /// The state after the reply was written down, if it holds text.
    pub open spec fn with_output(
        self,
        state: Map<Seq<char>, Json>,
        result: AgentResult,
    ) -> Map<Seq<char>, Json> {
        let text = message::plain_text(result.response@);
        if text.len() > 0 {
            state.insert(self.prefix@ + ".output"@, Json::String(text))
        } else {
            state
        }
    }

    /// The state after the conversation was written down, if it is to be.
    pub open spec fn with_messages(
        self,
        state: Map<Seq<char>, Json>,
        written: Json,
    ) -> Map<Seq<char>, Json> {
        if self.write_messages {
            state.insert(self.prefix@ + ".messages"@, written)
        } else {
            state
        }
    }

    /// The state after the counts were written down, if they are to be.
    pub open spec fn with_stats(
        self,
        state: Map<Seq<char>, Json>,
        result: AgentResult,
    ) -> Map<Seq<char>, Json> {
        if self.write_stats {
            state.insert(
                self.prefix@ + ".iterations"@,
                Json::Number(Number::PosInt(result.iterations)),
            ).insert(
                self.prefix@ + ".tool_calls"@,
                Json::Number(Number::PosInt(result.tool_calls_executed)),
            ).insert(self.prefix@ + ".stop_reason"@, Json::String(result.stop_reason.short()))
        } else {
            state
        }
    }

    /// The state after everything was written down.
    pub open spec fn recorded(
        self,
        state: Map<Seq<char>, Json>,
        result: AgentResult,
        written: Json,
    ) -> Map<Seq<char>, Json> {
        self.with_stats(self.with_messages(self.with_output(state, result), written), result)
    }

    /// What `write` makes of a conversation, `null` where it fails.
    pub open spec fn written<W: Fn(&Vec<Message>) -> Option<Value>>(
        messages: Vec<Message>,
        write: &W,
        written: Json,
    ) -> bool {
        exists|out: Option<Value>| #[trigger]
            call_ensures(write, (&messages,), out) && written == (match out {
                Some(v) => v@,
                None => Json::Null,
            })
    }

    /// Writes down what an agent has done.
    pub fn write_agent_result<W: Fn(&Vec<Message>) -> Option<Value>>(
        &self,
        result: &AgentResult,
        state: &mut State,
        write: &W,
    )
        requires
            call_requires(write, (&result.messages,)),
        ensures
            if self.write_messages {
                exists|written: Json| #[trigger]
                    Self::written(result.messages, write, written) && final(state)@
                        == self.recorded(old(state)@, *result, written)
            } else {
                final(state)@ == self.recorded(old(state)@, *result, Json::Null)
            },
    {
        let ghost before = state@;
        let text = message::text_of(&result.response);
        if text.as_str().unicode_len() > 0 {
            let value = Value::String(text);
            proof {
                json::lemma_value(value);
            }
            state.insert(prefixed(&self.prefix, ".output"), value);
        }
        assert(state@ == self.with_output(before, *result));
        let ghost first = state@;
        let ghost mut kept = Json::Null;
        if self.write_messages {
            let out = write(&result.messages);
            let ghost seen = out;
            let value = match out {
                Some(v) => v,
                None => Value::Null,
            };
            proof {
                json::lemma_value(Value::Null);
                kept = value@;
                assert(call_ensures(write, (&result.messages,), seen));
                assert(Self::written(result.messages, write, kept));
            }
            state.insert(prefixed(&self.prefix, ".messages"), value);
        }
        assert(state@ == self.with_messages(first, kept));
        if self.write_stats {
            let iterations = Value::Number(Number::PosInt(result.iterations));
            let calls = Value::Number(Number::PosInt(result.tool_calls_executed));
            let reason = Value::String(stop_reason_str(&result.stop_reason).to_owned());
            proof {
                json::lemma_value(iterations);
                json::lemma_value(calls);
                json::lemma_value(reason);
            }
            state.insert(prefixed(&self.prefix, ".iterations"), iterations);
            state.insert(prefixed(&self.prefix, ".tool_calls"), calls);
            state.insert(prefixed(&self.prefix, ".stop_reason"), reason);
        }
        assert(state@ == self.recorded(before, *result, kept));
    }

    /// What an agent's end means for the run: its result is written down and the run
    /// goes on, or the node has failed.
    pub fn execute<W: Fn(&Vec<Message>) -> Option<Value>>(
        &self,
        outcome: Result<AgentResult, String>,
        state: &mut State,
        write: &W,
    ) -> (r: Result<NextAction, GraphError>)
        requires
            forall|m: Vec<Message>| #[trigger] call_requires(write, (&m,)),
        ensures
            match outcome {
                Ok(result) => {
                    &&& r matches Ok(NextAction::Next)
                    &&& if self.write_messages {
                        exists|written: Json| #[trigger]
                            Self::written(result.messages, write, written) && final(state)@
                                == self.recorded(old(state)@, result, written)
                    } else {
                        final(state)@ == self.recorded(old(state)@, result, Json::Null)
                    }
                },
                Err(error) => {
                    &&& r matches Err(e) && is_node_failure(e, self.name@, error@)
                    &&& final(state)@ == old(state)@
                },
            },
    {
        match outcome {
            Ok(result) => {
                self.write_agent_result(&result, state, write);
                Ok(NextAction::Next)
            },
            Err(error) => Err(node_failure(&self.name, error)),
        }
    }

    /// What an event of the agent's stream means for the run: nothing yet, or, at the
    /// agent's end, what `execute` makes of it.
    pub fn after_event<P, W: Fn(&Vec<Message>) -> Option<Value>>(
        &self,
        event: AgentEvent<P>,
        state: &mut State,
        write: &W,
    ) -> (r: Option<Result<NextAction, GraphError>>)
        requires
            forall|m: Vec<Message>| #[trigger] call_requires(write, (&m,)),
        ensures
            match event {
                AgentEvent::LoopEnd { result } => {
                    &&& r matches Some(Ok(NextAction::Next))
                    &&& if self.write_messages {
                        exists|written: Json| #[trigger]
                            Self::written(result.messages, write, written) && final(state)@
                                == self.recorded(old(state)@, result, written)
                    } else {
                        final(state)@ == self.recorded(old(state)@, result, Json::Null)
                    }
                },
                AgentEvent::LoopError { error } => {
                    &&& r matches Some(Err(e)) && is_node_failure(e, self.name@, error@)
                    &&& final(state)@ == old(state)@
                },
                AgentEvent::Other(_) => r is None && final(state)@ == old(state)@,
            },
    {
        match event {
            AgentEvent::LoopEnd { result } => Some(self.execute(Ok(result), state, write)),
            AgentEvent::LoopError { error } => Some(self.execute(Err(error), state, write)),
            AgentEvent::Other(_) => None,
        }
    }

    /// The error of a stream that ended before the agent did.
    pub fn stream_closed(&self) -> (e: GraphError)
        ensures
            is_node_failure(e, self.name@, "agent stream closed without terminal event"@),
    {
        node_failure(&self.name, "agent stream closed without terminal event".to_owned())
    }
}

/// A node that asks a model once. `A` is the type of models.
pub struct LLMNode<A> {
    pub name: String,
    pub model: A,
    pub system_prompt: Option<String>,
    /// The key under which the conversation is kept.
    pub messages_key: String,
}

/// The message is not one of the system.
pub open spec fn not_system() -> spec_fn(Message) -> bool {
    |m: Message| !(m is System)
}

/// The messages that are not of the system, in order.
fn without_system(messages: Vec<Message>) -> (kept: Vec<Message>)
    ensures
        kept@ == messages@.filter(not_system()),
{
    let ghost all = messages@;
    let mut kept: Vec<Message> = Vec::new();
    proof {
        reveal(Seq::filter);
        assert(kept@ =~= all.take(0).filter(not_system()));
    }
    for m in it: messages
        invariant
            it.seq() == all,
            kept@ == all.take(it.index() as int).filter(not_system()),
    {
        let ghost k = it.index() as int;
        proof {
            reveal(Seq::filter);
            assert(all.take(k + 1).drop_last() =~= all.take(k));
            assert(all.take(k + 1).last() == m);
        }
        let system = match &m {
            Message::System { .. } => true,
            _ => false,
        };
        if !system {
            kept.push(m);
        }
    }
    assert(all.take(all.len() as int) =~= all);
    kept
}

impl<A> LLMNode<A> {
    /// A node without a prompt that keeps the conversation under the common key.
    pub fn new(name: &str, model: A) -> (node: Self)
        ensures
            node.name@ == name@,
            node.model == model,
            node.system_prompt is None,
            node.messages_key@ == "messages"@,
    {
        LLMNode {
            name: name.to_owned(),
            model,
            system_prompt: None,
            messages_key: "messages".to_owned(),
        }
    }

    /// The same with a prompt.
    pub fn with_system_prompt(self, prompt: &str) -> (node: Self)
        ensures
            node.system_prompt matches Some(p) && p@ == prompt@,
            node == (LLMNode { system_prompt: node.system_prompt, ..self }),
    {
        let mut node = self;
        node.system_prompt = Some(prompt.to_owned());
        node
    }

    /// The same with another key.
    pub fn with_messages_key(self, key: &str) -> (node: Self)
        ensures
            node.messages_key@ == key@,
            node == (LLMNode { messages_key: node.messages_key, ..self }),
    {
        let mut node = self;
        node.messages_key = key.to_owned();
        node
    }

    /// The conversation as it is sent: where the node has a prompt, the prompt comes
    /// first and stands in place of every other message of the system.
    pub open spec fn prompted(self, messages: Seq<Message>, sent: Seq<Message>) -> bool {
        match self.system_prompt {
            None => sent == messages,
            Some(p) => {
                &&& sent.len() > 0
                &&& sent[0] matches Message::System { content } && message::is_text(content@, p@)
                &&& sent.drop_first() == messages.filter(not_system())
            },
        }
    }

    /// Puts the prompt into a conversation.
    pub fn inject_prompt(&self, messages: Vec<Message>) -> (sent: Vec<Message>)
        ensures
            self.prompted(messages@, sent@),
    {
        match &self.system_prompt {
            None => messages,
            Some(p) => {
                let mut sent = without_system(messages);
                let ghost rest = sent@;
                sent.insert(0, Message::System { content: message::text_block(p.clone()) });
                assert(sent@.drop_first() =~= rest);
                sent
            },
        }
    }

    /// The conversation to be sent to the model.
    pub fn prepare<R: Fn(&Value) -> Option<Vec<Message>>>(&self, state: &State, read: &R) -> (sent:
        Vec<Message>)
        requires
            forall|v: Value| #[trigger] call_requires(read, (&v,)),
        ensures
            exists|messages: Seq<Message>| #[trigger]
                message::messages_under(*state, self.messages_key@, read, messages)
                    && self.prompted(messages, sent@),
    {
        let messages = message::read_list(state, self.messages_key.as_str(), read);
        let ghost seen = messages@;
        assert(message::messages_under(*state, self.messages_key@, read, seen));
        self.inject_prompt(messages)
    }

    /// The conversation with the model's reply at its end.
    pub open spec fn replied(
        sent: Seq<Message>,
        content: Vec<ContentBlock>,
        messages: Seq<Message>,
    ) -> bool {
        messages == sent.push(Message::Assistant { content })
    }

    /// What the model's reply means for the run: it is added to the conversation,
    /// which is written down, or the node has failed.
    pub fn execute<W: Fn(&Vec<Message>) -> Result<Value, String>>(
        &self,
        sent: Vec<Message>,
        reply: Result<Vec<ContentBlock>, String>,
        state: &mut State,
        write: &W,
    ) -> (r: Result<NextAction, GraphError>)
        requires
            forall|m: Vec<Message>| #[trigger] call_requires(write, (&m,)),
        ensures
            match reply {
                Err(error) => {
                    &&& r matches Err(e) && is_node_failure(e, self.name@, error@)
                    &&& final(state)@ == old(state)@
                },
                Ok(content) => exists|messages: Vec<Message>, out: Result<Value, String>|
                    Self::replied(sent@, content, messages@) && #[trigger] call_ensures(
                        write,
                        (&messages,),
                        out,
                    ) && (match out {
                        Ok(v) => r matches Ok(NextAction::Next) && final(state)@
                            == old(state)@.insert(self.messages_key@, v@),
                        Err(m) => (r matches Err(
                            GraphError::Terminal(TerminalError::StateError(t)),
                        ) && t@ == "failed to serialize messages: "@ + m@) && final(state)@
                            == old(state)@,
                    }),
            },
    {
        let ghost before = sent@;
        match reply {
            Err(error) => Err(node_failure(&self.name, error)),
            Ok(content) => {
                let mut messages = sent;
                messages.push(Message::Assistant { content });
                assert(Self::replied(before, content, messages@));
                let out = write(&messages);
                let ghost seen = out;
                assert(call_ensures(write, (&messages,), seen));
                match out {
                    Ok(v) => {
                        state.insert(self.messages_key.clone(), v);
                        Ok(NextAction::Next)
                    },
                    Err(m) => {
                        let mut t = "failed to serialize messages: ".to_owned();
                        t.append(m.as_str());
                        Err(GraphError::Terminal(TerminalError::StateError(t)))
                    },
                }
            },
        }
    }
}

/// A reply comes last: the conversation that was sent stays as it is, in front, and one
/// message of the assistant follows, with what the model said. The calls that are waited
/// for after it are those of the reply.
pub proof fn law_replies_come_last<A>(
    sent: Seq<Message>,
    content: Vec<ContentBlock>,
    messages: Seq<Message>,
    calls: Seq<ToolCall>,
)
    requires
        LLMNode::<A>::replied(sent, content, messages),
    ensures
        messages.len() == sent.len() + 1,
        sent.is_prefix_of(messages),
        messages[sent.len() as int] == (Message::Assistant { content }),
        tool_node::awaited(messages, calls) ==> {
            let asked = content@.filter(|b: ContentBlock| b is ToolCall);
            &&& calls.len() == asked.len()
            &&& forall|i: int|
                0 <= i < calls.len() ==> (#[trigger] calls[i]).id@ == asked[i]->ToolCall_0.id@
        },
{
    assert(messages =~= sent.push(messages[sent.len() as int]));
    tool_node::law_last_message_is_answered(sent, sent, messages[sent.len() as int], calls);
}

/// A prompt comes first and is the only message of the system; every other message is
/// sent, in order and as it is. Without a prompt the conversation is sent as it is.
pub proof fn law_prompts_come_first<A>(
    node: LLMNode<A>,
    messages: Seq<Message>,
    sent: Seq<Message>,
    m: Message,
)
    requires
        node.prompted(messages, sent),
    ensures
        node.system_prompt is None ==> sent == messages,
        node.system_prompt is Some ==> {
            &&& sent.len() > 0
            &&& sent[0] is System
            &&& message::plain_text(sent[0]->System_content@) == node.system_prompt->0@
            &&& forall|i: int| 0 < i < sent.len() ==> !((#[trigger] sent[i]) is System)
            &&& sent.drop_first() == messages.filter(|m: Message| !(m is System))
            &&& messages.contains(m) && !(m is System) ==> sent.contains(m)
        },
{
    broadcast use vstd::seq_lib::group_filter_ensures;

    if node.system_prompt is Some {
        message::law_text_reads_as_it_is(sent[0]->System_content@, node.system_prompt->0@);
        let kept = messages.filter(not_system());
        assert((|m: Message| !(m is System)) =~= not_system());
        assert forall|i: int| 0 < i < sent.len() implies !((#[trigger] sent[i]) is System) by {
            assert(sent.drop_first()[i - 1] == sent[i]);
            assert(not_system()(kept[i - 1]));
        }
        if messages.contains(m) && !(m is System) {
            let j = messages.index_of(m);
            assert(not_system()(messages[j]));
            assert(kept.contains(messages[j]));
            let k = kept.index_of(m);
            assert(sent.drop_first()[k] == sent[k + 1]);
        }
    }
}

/// An agent begins with its own conversation if there is one, and with the common one
/// otherwise.
pub proof fn law_own_conversation_first<R: Fn(&Value) -> Option<Vec<Message>>>(
    state: State,
    prefix: Seq<char>,
    read: &R,
    messages: Seq<Message>,
)
    requires
        agent_messages(state, prefix, read, messages),
    ensures
        !state@.contains_key(prefix + ".messages"@) ==> message::messages_under(
            state,
            "messages"@,
            read,
            messages,
        ),
        !state@.contains_key(prefix + ".messages"@) && !state@.contains_key("messages"@)
            ==> messages.len() == 0,
        state@.contains_key(prefix + ".messages"@) && (forall|v: Value, out: Option<Vec<Message>>|
            v@ == state@[prefix + ".messages"@] && #[trigger] call_ensures(read, (&v,), out)
                ==> out is Some && out->0@.len() > 0) ==> messages.len() > 0
            && message::messages_under(state, prefix + ".messages"@, read, messages),
{
    if exists|none: Seq<Message>|
        none.len() == 0 && #[trigger] message::messages_under(
            state,
            prefix + ".messages"@,
            read,
            none,
        ) && message::messages_under(state, "messages"@, read, messages) {
        let none = choose|none: Seq<Message>|
            none.len() == 0 && #[trigger] message::messages_under(
                state,
                prefix + ".messages"@,
                read,
                none,
            ) && message::messages_under(state, "messages"@, read, messages);
        if state@.contains_key(prefix + ".messages"@) {
            let (v, out) = choose|v: Value, out: Option<Vec<Message>>| #[trigger]
                call_ensures(read, (&v,), out) && v@ == state@[prefix + ".messages"@] && none == (
                match out {
                    Some(list) => list@,
                    None => Seq::empty(),
                });
            assert(call_ensures(read, (&v,), out));
        }
    }
}

/// What an agent leaves in the state: the text of its reply, its conversation, its
/// counts and the reason why it stopped, each under its own key after the prefix, and
/// only what is to be written; every other key is as it was.
pub proof fn law_agents_write_under_their_prefix<A>(
    node: AgentNode<A>,
    before: Map<Seq<char>, Json>,
    result: AgentResult,
    written: Json,
    other: Seq<char>,
)
    ensures
        ({
            let after = node.recorded(before, result, written);
            let text = message::plain_text(result.response@);
            let p = node.prefix@;
            &&& text.len() > 0 ==> after.contains_key(p + ".output"@) && after[p + ".output"@]
                == Json::String(text)
            &&& node.write_messages ==> after.contains_key(p + ".messages"@) && after[p
                + ".messages"@] == written
            &&& node.write_stats ==> {
                &&& after.contains_key(p + ".iterations"@)
                &&& after[p + ".iterations"@] == Json::Number(Number::PosInt(result.iterations))
                &&& after.contains_key(p + ".tool_calls"@)
                &&& after[p + ".tool_calls"@] == Json::Number(
                    Number::PosInt(result.tool_calls_executed),
                )
                &&& after.contains_key(p + ".stop_reason"@)
                &&& after[p + ".stop_reason"@] == Json::String(result.stop_reason.short())
            }
            &&& (other == p + ".output"@ ==> text.len() == 0) && (other == p + ".messages"@
                ==> !node.write_messages) && (other == p + ".iterations"@ || other == p
                + ".tool_calls"@ || other == p + ".stop_reason"@ ==> !node.write_stats) ==> {
                &&& after.contains_key(other) == before.contains_key(other)
                &&& before.contains_key(other) ==> after[other] == before[other]
            }
        }),
{
    let p = node.prefix@;
    let n = p.len() as int;
    reveal_strlit(".output");
    reveal_strlit(".messages");
    reveal_strlit(".iterations");
    reveal_strlit(".tool_calls");
    reveal_strlit(".stop_reason");
    assert((p + ".iterations"@)[n + 1] == 'i');
    assert((p + ".tool_calls"@)[n + 1] == 't');
    assert((p + ".output"@).len() == n + 7);
    assert((p + ".messages"@).len() == n + 9);
    assert((p + ".iterations"@).len() == n + 11);
    assert((p + ".tool_calls"@).len() == n + 11);
    assert((p + ".stop_reason"@).len() == n + 12);
}

/// Every reason to stop has a name of its own.
pub proof fn law_reasons_have_names()
    ensures
        StopReason::Complete.short() == "Complete"@,
        StopReason::MaxIterationsReached.short() == "MaxIterations"@,
        StopReason::Cancelled.short() == "Cancelled"@,
        StopReason::OutputBudgetExceeded.short() == "OutputBudget"@,
        StopReason::ReasoningBudgetExceeded.short() == "ReasoningBudget"@,
{
}

/// A failed call is told with the node that made it and what the call said; and a
/// conversation is kept as it was written, or as nothing where it could not be written.
pub proof fn law_failed_calls_are_told<A, W: Fn(&Vec<Message>) -> Option<Value>>(
    e: GraphError,
    node: Seq<char>,
    source: Seq<char>,
    messages: Vec<Message>,
    write: &W,
    written: Json,
)
    ensures
        is_node_failure(e, node, source) <==> (e matches GraphError::Terminal(
            TerminalError::NodeExecutionFailed { node: n, source: s },
        ) && n@ == node && s@ == source),
        AgentNode::<A>::written(messages, write, written) ==> (exists|v: Value| #[trigger]
            call_ensures(write, (&messages,), Some(v)) && written == v@) || (call_ensures(
            write,
            (&messages,),
            None::<Value>,
        ) && written is Null),
{
    if AgentNode::<A>::written(messages, write, written) {
        let out = choose|out: Option<Value>| #[trigger]
            call_ensures(write, (&messages,), out) && written == (match out {
                Some(v) => v@,
                None => Json::Null,
            });
        if let Some(v) = out {
            assert(call_ensures(write, (&messages,), Some(v)));
        }
    }
}

} // verus!
