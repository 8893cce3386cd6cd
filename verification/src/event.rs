//! What happens in a turn, and the conversation a turn belongs to, as plain values.
use vstd::prelude::*;

use crate::json::{has_keys, is_text, Json};
use crate::text::ov;

verus! {

// =======================================================================================
// Events of a streamed answer
// =======================================================================================

/// A tool call the model asked for.
#[derive(Debug)]
pub struct ToolCall {
    pub id: String,
    pub name: String,
    /// The arguments, as JSON text.
    pub arguments: String,
}

pub ghost struct CallView {
    pub id: Seq<char>,
    pub name: Seq<char>,
    pub arguments: Seq<char>,
}

impl View for ToolCall {
    type V = CallView;

    open spec fn view(&self) -> CallView {
        CallView { id: self.id@, name: self.name@, arguments: self.arguments@ }
    }
}

impl ToolCall {
    /// A copy of the call.
    pub fn duplicate(&self) -> (c: ToolCall)
        ensures
            c == *self,
    {
        ToolCall { id: self.id.clone(), name: self.name.clone(), arguments: self.arguments.clone() }
    }
}

/// What a turn cost, as the provider reported it.
#[derive(Debug, Clone, Copy, PartialEq, Eq)]
pub struct Usage {
    pub prompt_tokens: u64,
    pub completion_tokens: u64,
    /// The part of the prompt served from the provider's cache, when it says; `None` when the
    /// provider reported nothing about caching.
    pub cache_hit_tokens: Option<u64>,
}

impl Usage {
    /// Prompt and completion together (saturating at `u64::MAX`).
    pub fn total(&self) -> (t: u64)
        ensures
            t == (if self.prompt_tokens + self.completion_tokens <= u64::MAX {
                (self.prompt_tokens + self.completion_tokens) as u64
            } else {
                u64::MAX
            }),
    {
        self.prompt_tokens.saturating_add(self.completion_tokens)
    }

    /// The share of the prompt served from the cache, in whole percent (rounded down, and at
    /// most `u64::MAX`), when the provider reported a split and the prompt was not empty.
    pub fn cache_rate(&self) -> (r: Option<u64>)
        ensures
            r == (match self.cache_hit_tokens {
                Some(h) => if self.prompt_tokens > 0 {
                    let rate = (h as nat * 100) / self.prompt_tokens as nat;
                    Some(
                        if rate <= u64::MAX {
                            rate as u64
                        } else {
                            u64::MAX
                        },
                    )
                } else {
                    None::<u64>
                },
                None => None::<u64>,
            }),
    {
        match self.cache_hit_tokens {
            Some(h) => if self.prompt_tokens > 0 {
                let wide: u128 = (h as u128) * 100;
                let rate: u128 = wide / (self.prompt_tokens as u128);
                if rate <= u64::MAX as u128 {
                    Some(rate as u64)
                } else {
                    Some(u64::MAX)
                }
            } else {
                None
            },
            None => None,
        }
    }
}

/// Something that happened in a turn.
#[derive(Debug)]
pub enum Event {
    /// A fragment of the answer.
    Text(String),
    /// A fragment of the model's reasoning.
    Reasoning(String),
    /// A message from another run working in the same directory.
    Peer { from: String, text: String },
    ToolStart { id: String, name: String },
    ToolArgs { id: String, args: String },
    ToolResult { id: String, output: String, ok: bool },
    Usage(Usage),
    Warning(String),
    /// What the turn is waiting for; `restarted` when a new wait begins.
    Status { text: String, restarted: bool },
    /// The answer is complete.
    Done,
}

pub ghost enum EventView {
    Text(Seq<char>),
    Reasoning(Seq<char>),
    Peer { from: Seq<char>, text: Seq<char> },
    ToolStart { id: Seq<char>, name: Seq<char> },
    ToolArgs { id: Seq<char>, args: Seq<char> },
    ToolResult { id: Seq<char>, output: Seq<char>, ok: bool },
    Usage(Usage),
    Warning(Seq<char>),
    Status { text: Seq<char>, restarted: bool },
    Done,
}

impl View for Event {
    type V = EventView;

    open spec fn view(&self) -> EventView {
        match self {
            Event::Text(t) => EventView::Text(t@),
            Event::Reasoning(t) => EventView::Reasoning(t@),
            Event::Peer { from, text } => EventView::Peer { from: from@, text: text@ },
            Event::ToolStart { id, name } => EventView::ToolStart { id: id@, name: name@ },
            Event::ToolArgs { id, args } => EventView::ToolArgs { id: id@, args: args@ },
            Event::ToolResult { id, output, ok } => EventView::ToolResult {
                id: id@,
                output: output@,
                ok: *ok,
            },
            Event::Usage(u) => EventView::Usage(*u),
            Event::Warning(t) => EventView::Warning(t@),
            Event::Status { text, restarted } => EventView::Status {
                text: text@,
                restarted: *restarted,
            },
            Event::Done => EventView::Done,
        }
    }
}

pub open spec fn event_views(v: Seq<Event>) -> Seq<EventView> {
    v.map_values(|e: Event| e@)
}

// =======================================================================================
// The conversation sent to a provider
// =======================================================================================

/// One message of a conversation.
#[derive(Debug)]
#[allow(inconsistent_fields)]
pub enum Message {
    System { content: String },
    User { content: String },
    Assistant { content: Option<String>, reasoning: Option<String>, tool_calls: Vec<ToolCall> },
    Tool { tool_call_id: String, content: String },
}

#[allow(inconsistent_fields)]
pub ghost enum MessageView {
    System { content: Seq<char> },
    User { content: Seq<char> },
    Assistant {
        content: Option<Seq<char>>,
        reasoning: Option<Seq<char>>,
        tool_calls: Seq<CallView>,
    },
    Tool { tool_call_id: Seq<char>, content: Seq<char> },
}

pub open spec fn tool_call_views(v: Seq<ToolCall>) -> Seq<CallView> {
    v.map_values(|c: ToolCall| c@)
}

impl View for Message {
    type V = MessageView;

    open spec fn view(&self) -> MessageView {
        match self {
            Message::System { content } => MessageView::System { content: content@ },
            Message::User { content } => MessageView::User { content: content@ },
            Message::Assistant { content, reasoning, tool_calls } => MessageView::Assistant {
                content: ov(*content),
                reasoning: ov(*reasoning),
                tool_calls: tool_call_views(tool_calls@),
            },
            Message::Tool { tool_call_id, content } => MessageView::Tool {
                tool_call_id: tool_call_id@,
                content: content@,
            },
        }
    }
}

pub open spec fn message_views(v: Seq<Message>) -> Seq<MessageView> {
    v.map_values(|m: Message| m@)
}

fn copy_calls(calls: &Vec<ToolCall>) -> (out: Vec<ToolCall>)
    ensures
        out@ == calls@,
{
    let mut out: Vec<ToolCall> = Vec::new();
    let mut i: usize = 0;
    while i < calls.len()
        invariant
            i <= calls@.len(),
            out@ == calls@.subrange(0, i as int),
        decreases calls@.len() - i,
    {
        out.push(calls[i].duplicate());
        i = i + 1;
        assert(out@ =~= calls@.subrange(0, i as int));
    }
    assert(calls@.subrange(0, calls@.len() as int) =~= calls@);
    out
}

impl Message {
    /// A copy of the message.
    pub fn duplicate(&self) -> (m: Message)
        ensures
            m@ == self@,
    {
        match self {
            Message::System { content } => Message::System { content: content.clone() },
            Message::User { content } => Message::User { content: content.clone() },
            Message::Assistant { content, reasoning, tool_calls } => Message::Assistant {
                content: match content {
                    Some(c) => Some(c.clone()),
                    None => None,
                },
                reasoning: match reasoning {
                    Some(r) => Some(r.clone()),
                    None => None,
                },
                tool_calls: copy_calls(tool_calls),
            },
            Message::Tool { tool_call_id, content } => Message::Tool {
                tool_call_id: tool_call_id.clone(),
                content: content.clone(),
            },
        }
    }
}

// =======================================================================================
// The wire shape of a message
// =======================================================================================

/// Whether `j` is a tool call as an OpenAI-compatible API takes it back:
/// `{"id", "type": "function", "function": {"name", "arguments"}}`, with no name at the top.
pub open spec fn wire_call(j: Json, c: CallView) -> bool {
    &&& has_keys(j, seq!["id"@, "type"@, "function"@])
    &&& is_text(j->Object_0@[0].1, c.id)
    &&& is_text(j->Object_0@[1].1, "function"@)
    &&& has_keys(j->Object_0@[2].1, seq!["name"@, "arguments"@])
    &&& is_text(j->Object_0@[2].1->Object_0@[0].1, c.name)
    &&& is_text(j->Object_0@[2].1->Object_0@[1].1, c.arguments)
}

/// Whether `j` is the wire form of a message: `role` first, then `content` (`null` for an
/// assistant message with none), then an assistant's `tool_calls` when it has any, or a tool
/// answer's `tool_call_id` before its `content`. The reasoning a provider streamed is not
/// sent back.
pub open spec fn wire_message(j: Json, m: MessageView) -> bool {
    match m {
        MessageView::System { content } => has_keys(j, seq!["role"@, "content"@]) && is_text(
            j->Object_0@[0].1,
            "system"@,
        ) && is_text(j->Object_0@[1].1, content),
        MessageView::User { content } => has_keys(j, seq!["role"@, "content"@]) && is_text(
            j->Object_0@[0].1,
            "user"@,
        ) && is_text(j->Object_0@[1].1, content),
        MessageView::Assistant { content, tool_calls, .. } => {
            &&& (if tool_calls.len() == 0 {
                has_keys(j, seq!["role"@, "content"@])
            } else {
                has_keys(j, seq!["role"@, "content"@, "tool_calls"@])
            })
            &&& is_text(j->Object_0@[0].1, "assistant"@)
            &&& match content {
                Some(c) => is_text(j->Object_0@[1].1, c),
                None => j->Object_0@[1].1 is Null,
            }
            &&& tool_calls.len() > 0 ==> (j->Object_0@[2].1 matches Json::Array(l) && l@.len()
                == tool_calls.len() && forall|i: int|
                0 <= i < l@.len() ==> wire_call(#[trigger] l@[i], tool_calls[i]))
        },
        MessageView::Tool { tool_call_id, content } => has_keys(
            j,
            seq!["role"@, "tool_call_id"@, "content"@],
        ) && is_text(j->Object_0@[0].1, "tool"@) && is_text(j->Object_0@[1].1, tool_call_id)
            && is_text(j->Object_0@[2].1, content),
    }
}

/// A member holding a text.
fn text_member(key: &str, value: &str) -> (m: (String, Json))
    ensures
        m.0@ == key@,
        is_text(m.1, value@),
{
    (key.to_owned(), crate::json::text(value))
}

impl ToolCall {
    /// The tool call in the form the API takes it back.
    pub fn wire(&self) -> (j: Json)
        ensures
            wire_call(j, self@),
    {
        let mut f: Vec<(String, Json)> = Vec::new();
        f.push(text_member("name", self.name.as_str()));
        f.push(text_member("arguments", self.arguments.as_str()));
        let mut m: Vec<(String, Json)> = Vec::new();
        m.push(text_member("id", self.id.as_str()));
        m.push(text_member("type", "function"));
        m.push(("function".to_owned(), Json::Object(f)));
        Json::Object(m)
    }
}

impl Message {
    /// The message in the form an OpenAI-compatible API takes it.
    pub fn wire(&self) -> (j: Json)
        ensures
            wire_message(j, self@),
    {
        let mut m: Vec<(String, Json)> = Vec::new();
        match self {
            Message::System { content } => {
                m.push(text_member("role", "system"));
                m.push(text_member("content", content.as_str()));
            },
            Message::User { content } => {
                m.push(text_member("role", "user"));
                m.push(text_member("content", content.as_str()));
            },
            Message::Assistant { content, tool_calls, .. } => {
                m.push(text_member("role", "assistant"));
                match content {
                    Some(c) => m.push(text_member("content", c.as_str())),
                    None => m.push(("content".to_owned(), Json::Null)),
                }
                if tool_calls.len() > 0 {
                    let mut l: Vec<Json> = Vec::new();
                    let mut i: usize = 0;
                    while i < tool_calls.len()
                        invariant
                            i <= tool_calls@.len(),
                            l@.len() == i,
                            forall|k: int|
                                0 <= k < i ==> wire_call(#[trigger] l@[k], tool_calls@[k]@),
                        decreases tool_calls@.len() - i,
                    {
                        l.push(tool_calls[i].wire());
                        i = i + 1;
                    }
                    m.push(("tool_calls".to_owned(), Json::Array(l)));
                }
            },
            Message::Tool { tool_call_id, content } => {
                m.push(text_member("role", "tool"));
                m.push(text_member("tool_call_id", tool_call_id.as_str()));
                m.push(text_member("content", content.as_str()));
            },
        }
        Json::Object(m)
    }
}

} // verus!
