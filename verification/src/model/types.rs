//! Messages, requests and responses.

use crate::json::{Json, JsonView};
use crate::text::{opt_text, owned, owned_opt};
use crate::tool::{call_views, clone_calls, ToolCall, ToolCallView};
use vstd::prelude::*;

verus! {

/// Who speaks in a message.
#[derive(Debug, Clone, Copy, PartialEq, Eq, Structural)]
pub enum Role {
    System,
    User,
    Assistant,
    Tool,
}

/// One message of a conversation.
#[derive(Debug, PartialEq)]
pub struct Message {
    pub role: Role,
    pub content: Option<String>,
    pub tool_calls: Vec<ToolCall>,
    pub tool_call_id: Option<String>,
}

/// A message, as contracts speak of it.
pub struct MessageView {
    pub role: Role,
    pub content: Option<Seq<char>>,
    pub tool_calls: Seq<ToolCallView>,
    pub tool_call_id: Option<Seq<char>>,
}

impl View for Message {
    type V = MessageView;

    open spec fn view(&self) -> MessageView {
        MessageView {
            role: self.role,
            content: opt_text(self.content),
            tool_calls: call_views(self.tool_calls@),
            tool_call_id: opt_text(self.tool_call_id),
        }
    }
}

/// A message of one role that carries only text.
pub open spec fn plain_message(role: Role, content: Seq<char>) -> MessageView {
    MessageView { role, content: Some(content), tool_calls: Seq::empty(), tool_call_id: None }
}

/// The models of a list of messages.
pub open spec fn message_views(s: Seq<Message>) -> Seq<MessageView> {
    Seq::new(s.len(), |i: int| s[i]@)
}

impl Clone for Message {
    fn clone(&self) -> (r: Self)
        ensures
            r@ == self@,
    {
        Message {
            role: self.role,
            content: owned_opt(&self.content),
            tool_calls: clone_calls(&self.tool_calls),
            tool_call_id: owned_opt(&self.tool_call_id),
        }
    }
}

/// Copies of all messages of a list.
pub fn clone_messages(v: &Vec<Message>) -> (r: Vec<Message>)
    ensures
        message_views(r@) == message_views(v@),
        r@.len() == v@.len(),
{
    let mut r: Vec<Message> = Vec::new();
    let mut i: usize = 0;
    while i < v.len()
        invariant
            i <= v@.len(),
            r@.len() == i,
            forall|j: int| 0 <= j < i ==> (#[trigger] r@[j])@ == v@[j]@,
        decreases v@.len() - i,
    {
        r.push(v[i].clone());
        i += 1;
    }
    assert(message_views(r@) =~= message_views(v@));
    r
}

impl Message {
    fn plain(role: Role, content: &str) -> (r: Self)
        ensures
            r@ == plain_message(role, content@),
    {
        let r = Message {
            role,
            content: Some(owned(content)),
            tool_calls: Vec::new(),
            tool_call_id: None,
        };
        assert(call_views(r.tool_calls@) =~= Seq::<ToolCallView>::empty());
        r
    }

    /// A message with instructions for the model.
    pub fn system(content: &str) -> (r: Self)
        ensures
            r@ == plain_message(Role::System, content@),
    {
        Message::plain(Role::System, content)
    }

    /// A message of the user.
    pub fn user(content: &str) -> (r: Self)
        ensures
            r@ == plain_message(Role::User, content@),
    {
        Message::plain(Role::User, content)
    }

    /// A text answer of the model.
    pub fn assistant(content: &str) -> (r: Self)
        ensures
            r@ == plain_message(Role::Assistant, content@),
    {
        Message::plain(Role::Assistant, content)
    }

    /// An answer of the model that asks for tool calls.
    pub fn assistant_with_tool_calls(tool_calls: Vec<ToolCall>) -> (r: Self)
        ensures
            r@ == (MessageView {
                role: Role::Assistant,
                content: None,
                tool_calls: call_views(tool_calls@),
                tool_call_id: None,
            }),
    {
        Message { role: Role::Assistant, content: None, tool_calls, tool_call_id: None }
    }

    /// The result of a tool call.
    pub fn tool_result(tool_call_id: &str, content: &str) -> (r: Self)
        ensures
            r@ == (MessageView {
                tool_call_id: Some(tool_call_id@),
                ..plain_message(Role::Tool, content@)
            }),
    {
        let r = Message {
            role: Role::Tool,
            content: Some(owned(content)),
            tool_calls: Vec::new(),
            tool_call_id: Some(owned(tool_call_id)),
        };
        assert(call_views(r.tool_calls@) =~= Seq::<ToolCallView>::empty());
        r
    }
}

/// The description of a tool that a model may call.
#[derive(Debug, PartialEq)]
pub struct ToolSpec {
    pub name: String,
    pub description: String,
    /// The JSON schema of the arguments.
    pub parameters: Json,
}

/// A tool description, as contracts speak of it.
pub struct ToolSpecView {
    pub name: Seq<char>,
    pub description: Seq<char>,
    pub parameters: JsonView,
}

impl View for ToolSpec {
    type V = ToolSpecView;

    open spec fn view(&self) -> ToolSpecView {
        ToolSpecView {
            name: self.name@,
            description: self.description@,
            parameters: self.parameters@,
        }
    }
}

impl Clone for ToolSpec {
    fn clone(&self) -> (r: Self)
        ensures
            r@ == self@,
    {
        ToolSpec {
            name: self.name.clone(),
            description: self.description.clone(),
            parameters: self.parameters.duplicate(),
        }
    }
}

/// The models of a list of tool descriptions.
pub open spec fn spec_views(s: Seq<ToolSpec>) -> Seq<ToolSpecView> {
    Seq::new(s.len(), |i: int| s[i]@)
}

/// A request to a model.
#[derive(Debug, PartialEq)]
pub struct ChatRequest {
    pub messages: Vec<Message>,
    pub tools: Vec<ToolSpec>,
    /// The sampling temperature, as JSON has it: a number, or `null` for one
    /// that is not finite.
    pub temperature: Option<Json>,
    pub max_tokens: Option<u32>,
}

/// A request, as contracts speak of it.
pub struct RequestView {
    pub messages: Seq<MessageView>,
    pub tools: Seq<ToolSpecView>,
    pub temperature: Option<JsonView>,
    pub max_tokens: Option<u32>,
}

impl View for ChatRequest {
    type V = RequestView;

    open spec fn view(&self) -> RequestView {
        RequestView {
            messages: message_views(self.messages@),
            tools: spec_views(self.tools@),
            temperature: match self.temperature {
                Some(t) => Some(t@),
                None => None,
            },
            max_tokens: self.max_tokens,
        }
    }
}

impl ChatRequest {
    /// A request with messages alone.
    pub fn new(messages: Vec<Message>) -> (r: Self)
        ensures
            r@ == (RequestView {
                messages: message_views(messages@),
                tools: Seq::empty(),
                temperature: None,
                max_tokens: None,
            }),
    {
        let r = ChatRequest { messages, tools: Vec::new(), temperature: None, max_tokens: None };
        assert(r@.tools =~= Seq::<ToolSpecView>::empty());
        r
    }
}

/// Why a model stopped.
#[derive(Debug, Clone, Copy, PartialEq, Eq, Structural)]
pub enum StopReason {
    EndTurn,
    ToolUse,
    MaxTokens,
}

/// How many tokens a request and its response took.
#[derive(Debug, Clone, Copy, PartialEq, Eq, Structural)]
pub struct Usage {
    pub input_tokens: u32,
    pub output_tokens: u32,
    pub cached_tokens: u32,
}

impl Default for Usage {
    fn default() -> (r: Self)
        ensures
            r == (Usage { input_tokens: 0, output_tokens: 0, cached_tokens: 0 }),
    {
        Usage { input_tokens: 0, output_tokens: 0, cached_tokens: 0 }
    }
}

/// A complete answer of a model.
#[derive(Debug, PartialEq)]
pub struct ChatResponse {
    pub message: Message,
    pub stop_reason: StopReason,
    pub usage: Option<Usage>,
}

impl ChatResponse {
    /// The text of the answer, empty if it has none.
    pub fn text(&self) -> (r: String)
        ensures
            r@ == (match self.message@.content {
                Some(t) => t,
                None => Seq::empty(),
            }),
    {
        match &self.message.content {
            Some(t) => t.clone(),
            None => String::new(),
        }
    }

    /// Whether the model asks for tool calls.
    pub fn has_tool_calls(&self) -> (r: bool)
        ensures
            r == (self.message@.tool_calls.len() > 0),
    {
        self.message.tool_calls.len() > 0
    }

    /// The tool calls that the model asks for.
    pub fn tool_calls(&self) -> (r: &Vec<ToolCall>)
        ensures
            call_views(r@) == self.message@.tool_calls,
    {
        &self.message.tool_calls
    }
}

} // verus!
