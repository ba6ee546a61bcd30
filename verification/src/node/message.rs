//! The messages between a model, its user and its tools.

use vstd::prelude::*;

use crate::json::Value;
use crate::state::state::State;

verus! {

/// A tool that a model wants to be called.
pub struct ToolCall {
    pub id: String,
    pub name: String,
    pub arguments: Value,
}

impl ToolCall {
    /// Two calls say the same.
    pub open spec fn same(self, other: Self) -> bool {
        self.id@ == other.id@ && self.name@ == other.name@ && self.arguments@ == other.arguments@
    }
}

impl Clone for ToolCall {
    fn clone(&self) -> (copy: Self)
        ensures
            copy.same(*self),
    {
        ToolCall {
            id: self.id.clone(),
            name: self.name.clone(),
            arguments: self.arguments.clone(),
        }
    }
}

/// A part of a message.
pub enum ContentBlock {
    Text(String),
    ToolCall(ToolCall),
    /// Anything else, as it was written down.
    Other(Value),
}

/// A message.
pub enum Message {
    System { content: Vec<ContentBlock> },
    User { content: Vec<ContentBlock> },
    Assistant { content: Vec<ContentBlock> },
    ToolResult { tool_call_id: String, is_error: bool, content: Vec<ContentBlock> },
}

/// The content is one block of text.
pub open spec fn is_text(content: Seq<ContentBlock>, text: Seq<char>) -> bool {
    content.len() == 1 && (content[0] matches ContentBlock::Text(t) && t@ == text)
}

/// One block of text.
pub fn text_block(text: String) -> (content: Vec<ContentBlock>)
    ensures
        is_text(content@, text@),
{
    let mut content: Vec<ContentBlock> = Vec::new();
    content.push(ContentBlock::Text(text));
    content
}

/// The texts of a message, one after another, without anything between them.
pub open spec fn plain_text(content: Seq<ContentBlock>) -> Seq<char>
    decreases content.len(),
{
    if content.len() == 0 {
        Seq::empty()
    } else {
        let front = plain_text(content.drop_last());
        match content.last() {
            ContentBlock::Text(t) => front + t@,
            _ => front,
        }
    }
}

/// The texts of a message, joined.
pub fn text_of(content: &Vec<ContentBlock>) -> (text: String)
    ensures
        text@ == plain_text(content@),
{
    let mut text = String::new();
    let mut i: usize = 0;
    assert(content@.take(0) =~= Seq::empty());
    while i < content.len()
        invariant
            i <= content@.len(),
            text@ == plain_text(content@.take(i as int)),
        decreases content@.len() - i,
    {
        proof {
            assert(content@.take(i + 1).drop_last() =~= content@.take(i as int));
            assert(content@.take(i + 1).last() == content@[i as int]);
        }
        match &content[i] {
            ContentBlock::Text(t) => {
                text.append(t.as_str());
            },
            _ => {},
        }
        i += 1;
    }
    assert(content@.take(content@.len() as int) =~= content@);
    text
}

/// The blocks that are calls.
pub open spec fn is_call() -> spec_fn(ContentBlock) -> bool {
    |b: ContentBlock| b is ToolCall
}

/// Copies of the calls of a message, in order.
pub fn calls_of(content: &Vec<ContentBlock>) -> (calls: Vec<ToolCall>)
    ensures
        calls@.len() == content@.filter(is_call()).len(),
        forall|i: int|
            0 <= i < calls@.len() ==> (#[trigger] calls@[i]).same(
                content@.filter(is_call())[i]->ToolCall_0,
            ),
{
    let mut calls: Vec<ToolCall> = Vec::new();
    let mut i: usize = 0;
    proof {
        reveal(Seq::filter);
        assert(content@.take(0).filter(is_call()).len() == 0);
    }
    while i < content.len()
        invariant
            i <= content@.len(),
            calls@.len() == content@.take(i as int).filter(is_call()).len(),
            forall|j: int|
                0 <= j < calls@.len() ==> (#[trigger] calls@[j]).same(
                    content@.take(i as int).filter(is_call())[j]->ToolCall_0,
                ),
        decreases content@.len() - i,
    {
        proof {
            reveal(Seq::filter);
            assert(content@.take(i + 1).drop_last() =~= content@.take(i as int));
            assert(content@.take(i + 1).last() == content@[i as int]);
        }
        match &content[i] {
            ContentBlock::ToolCall(call) => {
                calls.push(call.clone());
            },
            _ => {},
        }
        i += 1;
    }
    assert(content@.take(content@.len() as int) =~= content@);
    calls
}

/// What reading the messages under a key gives: what `read` makes of the value, and
/// no messages where there is no value or `read` fails.
pub open spec fn messages_under<R: Fn(&Value) -> Option<Vec<Message>>>(
    state: State,
    key: Seq<char>,
    read: &R,
    messages: Seq<Message>,
) -> bool {
    if state@.contains_key(key) {
        exists|v: Value, out: Option<Vec<Message>>| #[trigger]
            call_ensures(read, (&v,), out) && v@ == state@[key] && messages == (match out {
                Some(list) => list@,
                None => Seq::empty(),
            })
    } else {
        messages.len() == 0
    }
}

/// The messages under a key, as `read` reads them.
pub fn read_list<R: Fn(&Value) -> Option<Vec<Message>>>(state: &State, key: &str, read: &R) -> (list:
    Vec<Message>)
    requires
        forall|v: Value| #[trigger] call_requires(read, (&v,)),
    ensures
        messages_under(*state, key@, read, list@),
{
    match state.get(key) {
        Some(v) => {
            let out = read(v);
            let ghost seen = out;
            match out {
                Some(list) => {
                    assert(call_ensures(read, (v,), seen));
                    list
                },
                None => {
                    assert(call_ensures(read, (v,), seen));
                    let list: Vec<Message> = Vec::new();
                    assert(list@ =~= Seq::empty());
                    list
                },
            }
        },
        None => Vec::new(),
    }
}

/// The text of a message is that of its parts, one after another: blocks of text give
/// their text, and no other block gives any.
pub proof fn law_texts_follow_one_another(
    a: Seq<ContentBlock>,
    b: Seq<ContentBlock>,
    block: ContentBlock,
)
    ensures
        plain_text(a + b) == plain_text(a) + plain_text(b),
        plain_text(seq![block]) == (if block is Text {
            block->Text_0@
        } else {
            Seq::empty()
        }),
    decreases b.len(),
{
    assert(plain_text(seq![block].drop_last()) =~= Seq::empty());
    assert(plain_text(seq![block]) =~= if block is Text {
        block->Text_0@
    } else {
        Seq::empty()
    });
    if b.len() == 0 {
        assert(a + b =~= a);
        assert(plain_text(a + b) =~= plain_text(a) + plain_text(b));
    } else {
        assert((a + b).drop_last() =~= a + b.drop_last());
        law_texts_follow_one_another(a, b.drop_last(), block);
        assert(plain_text(a + b) =~= plain_text(a) + plain_text(b));
    }
}

/// The calls of a message are those of its parts in order, and a block alone is found
/// exactly if it is a call.
pub proof fn law_calls_are_found(a: Seq<ContentBlock>, b: Seq<ContentBlock>, block: ContentBlock)
    ensures
        (a + b).filter(is_call()) == a.filter(is_call()) + b.filter(is_call()),
        seq![block].filter(is_call()) == (if block is ToolCall {
            seq![block]
        } else {
            Seq::empty()
        }),
        is_call()(block) <==> block is ToolCall,
{
    Seq::filter_distributes_over_add(a, b, is_call());
    reveal(Seq::filter);
    assert(seq![block].drop_last() =~= Seq::empty());
    assert(seq![block].drop_last().filter(is_call()) =~= Seq::empty());
    assert(seq![block].filter(is_call()) =~= if block is ToolCall {
        seq![block]
    } else {
        Seq::empty()
    });
}

/// A block of text reads as its text, and holds no call.
pub proof fn law_text_reads_as_it_is(content: Seq<ContentBlock>, text: Seq<char>)
    requires
        is_text(content, text),
    ensures
        plain_text(content) == text,
        content.filter(is_call()).len() == 0,
{
    assert(content =~= seq![content[0]]);
    law_texts_follow_one_another(content, content, content[0]);
    law_calls_are_found(content, content, content[0]);
}

/// Without a value under the key there are no messages, and otherwise they are what
/// reading that value gave, or none where reading failed.
pub proof fn law_messages_are_read<R: Fn(&Value) -> Option<Vec<Message>>>(
    state: State,
    key: Seq<char>,
    read: &R,
    messages: Seq<Message>,
)
    requires
        messages_under(state, key, read, messages),
    ensures
        !state@.contains_key(key) ==> messages.len() == 0,
        messages.len() > 0 ==> exists|v: Value, list: Vec<Message>| #[trigger]
            call_ensures(read, (&v,), Some(list)) && v@ == state@[key] && list@ == messages,
{
    if state@.contains_key(key) {
        let (v, out) = choose|v: Value, out: Option<Vec<Message>>| #[trigger]
            call_ensures(read, (&v,), out) && v@ == state@[key] && messages == (match out {
                Some(list) => list@,
                None => Seq::empty(),
            });
        if messages.len() > 0 {
            assert(call_ensures(read, (&v,), Some(out->0)));
        }
    }
}

/// Two calls are the same exactly if they have the same identifier, name and arguments, and a
/// content is a text exactly if it is one block with that text.
pub proof fn law_calls_are_told_apart(
    a: ToolCall,
    b: ToolCall,
    content: Seq<ContentBlock>,
    text: Seq<char>,
)
    ensures
        a.same(b) <==> a.id@ == b.id@ && a.name@ == b.name@ && a.arguments@ == b.arguments@,
        is_text(content, text) ==> content.len() == 1 && plain_text(content) == text,
{
    if is_text(content, text) {
        assert(plain_text(content.drop_last()) =~= Seq::empty());
        assert(plain_text(content) =~= text);
    }
}

} // verus!
