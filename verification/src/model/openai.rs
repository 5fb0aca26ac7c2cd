//! The OpenAI chat completions API: requests, responses and streams.

use crate::decode::{
    is_object, opt_text_at, place1, place2, place3, place4, placed, read_opt_text,
    read_text_or_empty, read_u32, read_u32_or_zero, read_u64, read_u64_or_zero, text_or_empty_at,
    u32_at, u32_or_zero_at, u64_at, u64_or_zero_at,
};
use crate::error::{DaimonError, ErrorView, Result};
use crate::json::{
    json_text, json_views, make_object1, make_object2, make_object3, object1, object2, object3,
    parsed_json, rereadable, Json, JsonMap, JsonView, NumberView,
};
use crate::model::line_buffer::{lossy_string, lossy_text};
use crate::model::types::{
    message_views, spec_views, ChatRequest, ChatResponse, Message, MessageView, RequestView, Role,
    StopReason, ToolSpec, ToolSpecView, Usage,
};
use crate::model::wire::{role_name, role_to_str};
use crate::split::{cuts_do_not_matter, lemma_first_line, lemma_no_end, split};
use crate::stream::{event_views, EventView, StreamEvent};
use crate::text::{
    after_prefix, cat2, cat4, chars_of, decimal, decimal_text, opt_text, owned, owned_opt, same,
    string_of, strip_prefix, trim_text, trimmed,
};
use crate::tool::{call_views, ToolCall, ToolCallView};
use std::time::Duration;
use vstd::arithmetic::power2::pow2;
use vstd::prelude::*;

verus! {

/// Where the service is, unless told otherwise.
pub const DEFAULT_BASE_URL: &'static str = "https://api.openai.com/v1";

/// How often a request is tried again, unless told otherwise.
pub const DEFAULT_MAX_RETRIES: u32 = 3;

/// A model behind the chat completions API.
#[derive(Debug)]
pub struct OpenAi {
    pub api_key: String,
    pub model_id: String,
    pub base_url: String,
    pub timeout: Option<Duration>,
    pub max_retries: u32,
    pub response_format: Option<String>,
    pub parallel_tool_calls: Option<bool>,
}

/// A model's settings, as contracts speak of them.
pub struct OpenAiView {
    pub api_key: Seq<char>,
    pub model_id: Seq<char>,
    pub base_url: Seq<char>,
    pub timeout: Option<Duration>,
    pub max_retries: u32,
    pub response_format: Option<Seq<char>>,
    pub parallel_tool_calls: Option<bool>,
}

impl View for OpenAi {
    type V = OpenAiView;

    open spec fn view(&self) -> OpenAiView {
        OpenAiView {
            api_key: self.api_key@,
            model_id: self.model_id@,
            base_url: self.base_url@,
            timeout: self.timeout,
            max_retries: self.max_retries,
            response_format: opt_text(self.response_format),
            parallel_tool_calls: self.parallel_tool_calls,
        }
    }
}

impl OpenAi {
    /// A model with an API key.
    pub fn with_api_key(model_id: &str, api_key: &str) -> (r: Self)
        ensures
            r@ == (OpenAiView {
                api_key: api_key@,
                model_id: model_id@,
                base_url: DEFAULT_BASE_URL@,
                timeout: None,
                max_retries: DEFAULT_MAX_RETRIES,
                response_format: None,
                parallel_tool_calls: None,
            }),
    {
        OpenAi {
            api_key: owned(api_key),
            model_id: owned(model_id),
            base_url: owned(DEFAULT_BASE_URL),
            timeout: None,
            max_retries: DEFAULT_MAX_RETRIES,
            response_format: None,
            parallel_tool_calls: None,
        }
    }

    /// Sets where the service is.
    pub fn with_base_url(self, base_url: &str) -> (r: Self)
        ensures
            r@ == (OpenAiView { base_url: base_url@, ..self@ }),
    {
        OpenAi { base_url: owned(base_url), ..self }
    }

    /// Sets how long a request may take.
    pub fn with_timeout(self, timeout: Duration) -> (r: Self)
        ensures
            r@ == (OpenAiView { timeout: Some(timeout), ..self@ }),
    {
        OpenAi { timeout: Some(timeout), ..self }
    }

    /// Sets how often a request is tried again.
    pub fn with_max_retries(self, retries: u32) -> (r: Self)
        ensures
            r@ == (OpenAiView { max_retries: retries, ..self@ }),
    {
        OpenAi { max_retries: retries, ..self }
    }

    /// Sets the form of answers, such as `json_object`.
    pub fn with_response_format(self, format: &str) -> (r: Self)
        ensures
            r@ == (OpenAiView { response_format: Some(format@), ..self@ }),
    {
        OpenAi { response_format: Some(owned(format)), ..self }
    }

    /// Sets whether tools may be called in parallel.
    pub fn with_parallel_tool_calls(self, enabled: bool) -> (r: Self)
        ensures
            r@ == (OpenAiView { parallel_tool_calls: Some(enabled), ..self@ }),
    {
        OpenAi { parallel_tool_calls: Some(enabled), ..self }
    }

    /// Where requests go.
    pub fn completions_url(&self) -> (r: String)
        ensures
            r@ == self@.base_url + "/chat/completions"@,
    {
        cat2(&self.base_url, "/chat/completions")
    }

    /// The credentials that go with each request.
    pub fn authorization(&self) -> (r: String)
        ensures
            r@ == "Bearer "@ + self@.api_key,
    {
        cat2("Bearer ", &self.api_key)
    }
}

// ---------------------------------------------------------------------
// Messages and tools
// ---------------------------------------------------------------------

/// A function call of a message.
#[derive(Debug, PartialEq)]
pub struct OpenAiFunction {
    pub name: String,
    /// The arguments as JSON text.
    pub arguments: String,
}

/// A tool call of a message.
#[derive(Debug, PartialEq)]
pub struct OpenAiToolCall {
    pub id: String,
    pub kind: String,
    pub function: OpenAiFunction,
    pub index: u64,
}

/// A message of a request.
#[derive(Debug, PartialEq)]
pub struct OpenAiMessage {
    pub role: String,
    pub content: Option<String>,
    pub tool_calls: Option<Vec<OpenAiToolCall>>,
    pub tool_call_id: Option<String>,
}

/// The function of a tool.
#[derive(Debug, PartialEq)]
pub struct OpenAiToolFunction {
    pub name: String,
    pub description: String,
    pub parameters: Json,
}

/// A tool of a request.
#[derive(Debug, PartialEq)]
pub struct OpenAiTool {
    pub kind: String,
    pub function: OpenAiToolFunction,
}

/// A tool call, as contracts speak of it.
pub struct CallView {
    pub id: Seq<char>,
    pub kind: Seq<char>,
    pub name: Seq<char>,
    pub arguments: Seq<char>,
    pub index: u64,
}

/// A message of a request, as contracts speak of it.
pub struct EntryView {
    pub role: Seq<char>,
    pub content: Option<Seq<char>>,
    pub tool_calls: Option<Seq<CallView>>,
    pub tool_call_id: Option<Seq<char>>,
}

impl View for OpenAiToolCall {
    type V = CallView;

    open spec fn view(&self) -> CallView {
        CallView {
            id: self.id@,
            kind: self.kind@,
            name: self.function.name@,
            arguments: self.function.arguments@,
            index: self.index,
        }
    }
}

/// The models of a list of tool calls.
pub open spec fn wire_calls(s: Seq<OpenAiToolCall>) -> Seq<CallView> {
    Seq::new(s.len(), |i: int| s[i]@)
}

impl View for OpenAiMessage {
    type V = EntryView;

    open spec fn view(&self) -> EntryView {
        EntryView {
            role: self.role@,
            content: opt_text(self.content),
            tool_calls: match self.tool_calls {
                Some(v) => Some(wire_calls(v@)),
                None => None,
            },
            tool_call_id: opt_text(self.tool_call_id),
        }
    }
}

/// A tool call in a request.
pub open spec fn sent_call(c: ToolCallView) -> CallView {
    CallView {
        id: c.id,
        kind: "function"@,
        name: c.name,
        arguments: json_text(c.arguments),
        index: 0,
    }
}

/// A message in a request.
pub open spec fn sent_message(m: MessageView) -> EntryView {
    EntryView {
        role: role_name(m.role),
        content: m.content,
        tool_calls: if m.tool_calls.len() == 0 {
            None
        } else {
            Some(Seq::new(m.tool_calls.len(), |i: int| sent_call(m.tool_calls[i])))
        },
        tool_call_id: m.tool_call_id,
    }
}

/// The arguments that a text stands for; one that cannot be read counts as
/// `null`.
pub open spec fn arguments_of(text: Seq<char>) -> JsonView {
    match parsed_json(text) {
        Ok(v) => v,
        Err(_) => JsonView::Null,
    }
}

impl OpenAiToolCall {
    /// A tool call in a request. Its arguments can be read back, where they hold
    /// no doubles and are not nested too deep.
    pub fn of(call: &ToolCall) -> (r: Self)
        ensures
            r@ == sent_call(call@),
            rereadable(call@.arguments, 127) ==> arguments_of(r@.arguments) == call@.arguments,
    {
        OpenAiToolCall {
            id: call.id.clone(),
            kind: owned("function"),
            function: OpenAiFunction {
                name: call.name.clone(),
                arguments: call.arguments.to_text(),
            },
            index: 0,
        }
    }

    fn to_json(&self) -> (r: Json)
        ensures
            r@ == call_json(self@),
    {
        Json::object(
            JsonMap::new().with("id", Json::text(&self.id)).with(
                "type",
                Json::text(&self.kind),
            ).with(
                "function",
                make_object2(
                    "name",
                    Json::text(&self.function.name),
                    "arguments",
                    Json::text(&self.function.arguments),
                ),
            ).with("index", Json::uint(self.index)),
        )
    }
}

impl OpenAiMessage {
    /// A message in a request.
    pub fn of(msg: &Message) -> (r: Self)
        ensures
            r@ == sent_message(msg@),
    {
        let ghost calls = msg@.tool_calls;
        let tool_calls = if msg.tool_calls.len() == 0 {
            None
        } else {
            let mut list: Vec<OpenAiToolCall> = Vec::new();
            let mut i: usize = 0;
            while i < msg.tool_calls.len()
                invariant
                    i <= msg.tool_calls@.len(),
                    calls == call_views(msg.tool_calls@),
                    list@.len() == i,
                    forall|j: int| 0 <= j < i ==> (#[trigger] list@[j])@ == sent_call(calls[j]),
                decreases msg.tool_calls@.len() - i,
            {
                list.push(OpenAiToolCall::of(&msg.tool_calls[i]));
                i += 1;
            }
            assert(wire_calls(list@) =~= Seq::new(calls.len(), |i: int| sent_call(calls[i])));
            Some(list)
        };
        OpenAiMessage {
            role: owned(role_to_str(&msg.role)),
            content: owned_opt(&msg.content),
            tool_calls,
            tool_call_id: owned_opt(&msg.tool_call_id),
        }
    }

    /// The message as JSON.
    pub fn to_json(&self) -> (r: Json)
        ensures
            r@ == entry_json(self@),
    {
        let a = JsonMap::new().with("role", Json::text(&self.role));
        let b = match &self.content {
            Some(t) => a.with("content", Json::text(t)),
            None => a,
        };
        let c = match &self.tool_calls {
            Some(calls) => {
                let ghost all = wire_calls(calls@);
                let mut items: Vec<Json> = Vec::new();
                let mut i: usize = 0;
                while i < calls.len()
                    invariant
                        i <= calls@.len(),
                        all == wire_calls(calls@),
                        items@.len() == i,
                        forall|j: int| 0 <= j < i ==> (#[trigger] items@[j])@ == call_json(all[j]),
                    decreases calls@.len() - i,
                {
                    items.push(calls[i].to_json());
                    i += 1;
                }
                assert(json_views(items@) =~= Seq::new(all.len(), |i: int| call_json(all[i])));
                b.with("tool_calls", Json::array(items))
            },
            None => b,
        };
        let d = match &self.tool_call_id {
            Some(t) => c.with("tool_call_id", Json::text(t)),
            None => c,
        };
        Json::object(d)
    }
}

/// A tool call as JSON.
pub open spec fn call_json(c: CallView) -> JsonView {
    JsonView::Object(
        Map::<Seq<char>, JsonView>::empty().insert("id"@, JsonView::Str(c.id)).insert(
            "type"@,
            JsonView::Str(c.kind),
        ).insert(
            "function"@,
            object2("name"@, JsonView::Str(c.name), "arguments"@, JsonView::Str(c.arguments)),
        ).insert("index"@, JsonView::Number(NumberView::PosInt(c.index))),
    )
}

/// A message as JSON. What is missing has no member.
pub open spec fn entry_json(e: EntryView) -> JsonView {
    let a = Map::<Seq<char>, JsonView>::empty().insert("role"@, JsonView::Str(e.role));
    let b = match e.content {
        Some(t) => a.insert("content"@, JsonView::Str(t)),
        None => a,
    };
    let c = match e.tool_calls {
        Some(calls) => b.insert(
            "tool_calls"@,
            JsonView::Array(Seq::new(calls.len(), |i: int| call_json(calls[i]))),
        ),
        None => b,
    };
    let d = match e.tool_call_id {
        Some(t) => c.insert("tool_call_id"@, JsonView::Str(t)),
        None => c,
    };
    JsonView::Object(d)
}

/// A tool as JSON.
pub open spec fn tool_json(t: ToolSpecView) -> JsonView {
    object2(
        "type"@,
        JsonView::Str("function"@),
        "function"@,
        object3(
            "name"@,
            JsonView::Str(t.name),
            "description"@,
            JsonView::Str(t.description),
            "parameters"@,
            t.parameters,
        ),
    )
}

impl OpenAiTool {
    /// A tool in a request.
    pub fn of(spec: &ToolSpec) -> (r: Self)
        ensures
            r.kind@ == "function"@,
            r.function.name@ == spec@.name,
            r.function.description@ == spec@.description,
            r.function.parameters@ == spec@.parameters,
    {
        OpenAiTool {
            kind: owned("function"),
            function: OpenAiToolFunction {
                name: spec.name.clone(),
                description: spec.description.clone(),
                parameters: spec.parameters.duplicate(),
            },
        }
    }

    fn into_json(self) -> (r: Json)
        ensures
            r@ == object2(
                "type"@,
                JsonView::Str(self.kind@),
                "function"@,
                object3(
                    "name"@,
                    JsonView::Str(self.function.name@),
                    "description"@,
                    JsonView::Str(self.function.description@),
                    "parameters"@,
                    self.function.parameters@,
                ),
            ),
    {
        make_object2(
            "type",
            Json::text(&self.kind),
            "function",
            make_object3(
                "name",
                Json::text(&self.function.name),
                "description",
                Json::text(&self.function.description),
                "parameters",
                self.function.parameters,
            ),
        )
    }
}

// ---------------------------------------------------------------------
// Requests
// ---------------------------------------------------------------------

/// The body of a request.
pub open spec fn request_json(model: OpenAiView, q: RequestView, stream: bool) -> JsonView {
    let a = Map::<Seq<char>, JsonView>::empty().insert(
        "model"@,
        JsonView::Str(model.model_id),
    ).insert(
        "messages"@,
        JsonView::Array(
            Seq::new(q.messages.len(), |i: int| entry_json(sent_message(q.messages[i]))),
        ),
    );
    let b = if q.tools.len() > 0 {
        a.insert("tools"@, JsonView::Array(Seq::new(q.tools.len(), |i: int| tool_json(q.tools[i]))))
    } else {
        a
    };
    let c = match q.temperature {
        Some(t) => b.insert("temperature"@, t),
        None => b,
    };
    let d = match q.max_tokens {
        Some(n) => c.insert("max_tokens"@, JsonView::Number(NumberView::PosInt(n as u64))),
        None => c,
    };
    let e = d.insert("stream"@, JsonView::Bool(stream));
    let f = match model.response_format {
        Some(t) => e.insert("response_format"@, object1("type"@, JsonView::Str(t))),
        None => e,
    };
    JsonView::Object(
        match model.parallel_tool_calls {
            Some(p) => f.insert("parallel_tool_calls"@, JsonView::Bool(p)),
            None => f,
        },
    )
}

fn make_messages(messages: &Vec<Message>) -> (r: Json)
    ensures
        r@ == JsonView::Array(
            Seq::new(
                messages@.len(),
                |i: int| entry_json(sent_message(message_views(messages@)[i])),
            ),
        ),
{
    let ghost all = message_views(messages@);
    let mut items: Vec<Json> = Vec::new();
    let mut i: usize = 0;
    while i < messages.len()
        invariant
            i <= messages@.len(),
            all == message_views(messages@),
            items@.len() == i,
            forall|j: int|
                0 <= j < i ==> (#[trigger] items@[j])@ == entry_json(sent_message(all[j])),
        decreases messages@.len() - i,
    {
        items.push(OpenAiMessage::of(&messages[i]).to_json());
        i += 1;
    }
    assert(json_views(items@) =~= Seq::new(all.len(), |i: int| entry_json(sent_message(all[i]))));
    Json::array(items)
}

fn make_tools(tools: &Vec<ToolSpec>) -> (r: Json)
    ensures
        r@ == JsonView::Array(Seq::new(tools@.len(), |i: int| tool_json(spec_views(tools@)[i]))),
{
    let ghost all = spec_views(tools@);
    let mut items: Vec<Json> = Vec::new();
    let mut i: usize = 0;
    while i < tools.len()
        invariant
            i <= tools@.len(),
            all == spec_views(tools@),
            items@.len() == i,
            forall|j: int| 0 <= j < i ==> (#[trigger] items@[j])@ == tool_json(all[j]),
        decreases tools@.len() - i,
    {
        items.push(OpenAiTool::of(&tools[i]).into_json());
        i += 1;
    }
    assert(json_views(items@) =~= Seq::new(all.len(), |i: int| tool_json(all[i])));
    Json::array(items)
}

impl OpenAi {
    /// The body of a request.
    pub fn build_request_body(&self, request: &ChatRequest, stream: bool) -> (r: Json)
        ensures
            r@ == request_json(self@, request@, stream),
    {
        assert(request@.messages.len() == request.messages@.len());
        assert(request@.tools.len() == request.tools@.len());
        let a = JsonMap::new().with("model", Json::text(&self.model_id)).with(
            "messages",
            make_messages(&request.messages),
        );
        let b = if request.tools.len() > 0 {
            a.with("tools", make_tools(&request.tools))
        } else {
            a
        };
        let c = match &request.temperature {
            Some(t) => b.with("temperature", t.duplicate()),
            None => b,
        };
        let d = match request.max_tokens {
            Some(n) => c.with("max_tokens", Json::uint(n as u64)),
            None => c,
        };
        let e = d.with("stream", Json::Bool(stream));
        let f = match &self.response_format {
            Some(t) => e.with("response_format", make_object1("type", Json::text(t))),
            None => e,
        };
        Json::object(
            match self.parallel_tool_calls {
                Some(p) => f.with("parallel_tool_calls", Json::Bool(p)),
                None => f,
            },
        )
    }
}

// ---------------------------------------------------------------------
// Responses
// ---------------------------------------------------------------------

/// The message of an answer.
#[derive(Debug, PartialEq)]
pub struct OpenAiChoiceMessage {
    pub content: Option<String>,
    pub tool_calls: Option<Vec<OpenAiToolCall>>,
}

/// One of the answers to choose from.
#[derive(Debug, PartialEq)]
pub struct OpenAiChoice {
    pub message: OpenAiChoiceMessage,
    pub finish_reason: Option<String>,
}

/// How many tokens of a prompt came from the cache.
#[derive(Debug, Clone, Copy, PartialEq, Eq, Structural)]
pub struct OpenAiPromptTokensDetails {
    pub cached_tokens: u32,
}

/// How many tokens an answer took.
#[derive(Debug, Clone, Copy, PartialEq, Eq, Structural)]
pub struct OpenAiUsage {
    pub prompt_tokens: u32,
    pub completion_tokens: u32,
    pub prompt_tokens_details: Option<OpenAiPromptTokensDetails>,
}

/// An answer in one piece.
#[derive(Debug, PartialEq)]
pub struct OpenAiResponse {
    pub choices: Vec<OpenAiChoice>,
    pub usage: Option<OpenAiUsage>,
}

/// One of the answers, as contracts speak of it.
pub struct ChoiceView {
    pub content: Option<Seq<char>>,
    pub tool_calls: Option<Seq<CallView>>,
    pub finish_reason: Option<Seq<char>>,
}

/// An answer, as contracts speak of it.
pub struct ResponseView {
    pub choices: Seq<ChoiceView>,
    pub usage: Option<OpenAiUsage>,
}

impl View for OpenAiChoice {
    type V = ChoiceView;

    open spec fn view(&self) -> ChoiceView {
        ChoiceView {
            content: opt_text(self.message.content),
            tool_calls: match self.message.tool_calls {
                Some(v) => Some(wire_calls(v@)),
                None => None,
            },
            finish_reason: opt_text(self.finish_reason),
        }
    }
}

/// The models of a list of answers.
pub open spec fn choice_views(s: Seq<OpenAiChoice>) -> Seq<ChoiceView> {
    Seq::new(s.len(), |i: int| s[i]@)
}

impl View for OpenAiResponse {
    type V = ResponseView;

    open spec fn view(&self) -> ResponseView {
        ResponseView { choices: choice_views(self.choices@), usage: self.usage }
    }
}

/// The tool calls of an answer.
pub open spec fn answer_calls(calls: Option<Seq<CallView>>) -> Seq<ToolCallView> {
    match calls {
        Some(s) => Seq::new(
            s.len(),
            |i: int|
                ToolCallView { id: s[i].id, name: s[i].name, arguments: arguments_of(s[i].arguments) },
        ),
        None => Seq::empty(),
    }
}

/// Why an answer stopped.
pub open spec fn stop_reason_of(name: Option<Seq<char>>) -> StopReason {
    match name {
        Some(s) => if s == "tool_calls"@ {
            StopReason::ToolUse
        } else if s == "length"@ {
            StopReason::MaxTokens
        } else {
            StopReason::EndTurn
        },
        None => StopReason::EndTurn,
    }
}

/// Whether a result is that of an answer: its first choice counts.
pub open spec fn answers(response: ResponseView, r: Result<ChatResponse>) -> bool {
    if response.choices.len() == 0 {
        r is Err && r->Err_0@ == ErrorView::Model("no choices in OpenAI response"@)
    } else {
        let choice = response.choices[0];
        &&& r is Ok
        &&& r->Ok_0.message@ == (MessageView {
            role: Role::Assistant,
            content: choice.content,
            tool_calls: answer_calls(choice.tool_calls),
            tool_call_id: None,
        })
        &&& r->Ok_0.stop_reason == stop_reason_of(choice.finish_reason)
        &&& r->Ok_0.usage == match response.usage {
            Some(u) => Some(
                Usage {
                    input_tokens: u.prompt_tokens,
                    output_tokens: u.completion_tokens,
                    cached_tokens: match u.prompt_tokens_details {
                        Some(d) => d.cached_tokens,
                        None => 0,
                    },
                },
            ),
            None => None,
        }
    }
}

fn read_arguments(text: &str) -> (r: Json)
    ensures
        r@ == arguments_of(text@),
{
    match Json::parse(text) {
        Ok(v) => v,
        Err(_) => Json::Null,
    }
}

fn make_calls(calls: &Option<Vec<OpenAiToolCall>>) -> (r: Vec<ToolCall>)
    ensures
        call_views(r@) == answer_calls(
            match *calls {
                Some(v) => Some(wire_calls(v@)),
                None => None,
            },
        ),
{
    let mut r: Vec<ToolCall> = Vec::new();
    match calls {
        Some(list) => {
            let ghost all = wire_calls(list@);
            let mut i: usize = 0;
            while i < list.len()
                invariant
                    i <= list@.len(),
                    all == wire_calls(list@),
                    r@.len() == i,
                    forall|j: int| 0 <= j < i ==> (#[trigger] r@[j])@ == answer_calls(Some(all))[j],
                decreases list@.len() - i,
            {
                let call = &list[i];
                assert(all[i as int] == call@);
                r.push(
                    ToolCall {
                        id: call.id.clone(),
                        name: call.function.name.clone(),
                        arguments: read_arguments(&call.function.arguments),
                    },
                );
                i += 1;
            }
            assert(call_views(r@) =~= answer_calls(Some(all)));
        },
        None => {
            assert(call_views(r@) =~= Seq::<ToolCallView>::empty());
        },
    }
    r
}

/// Turns an answer into a response.
pub fn parse_response(response: OpenAiResponse) -> (r: Result<ChatResponse>)
    ensures
        answers(response@, r),
{
    if response.choices.len() == 0 {
        return Err(DaimonError::Model(owned("no choices in OpenAI response")));
    }
    let choice = &response.choices[0];
    assert(response@.choices[0] == choice@);
    let tool_calls = make_calls(&choice.message.tool_calls);
    let stop_reason = match &choice.finish_reason {
        Some(s) => if same(s, "tool_calls") {
            StopReason::ToolUse
        } else if same(s, "length") {
            StopReason::MaxTokens
        } else {
            StopReason::EndTurn
        },
        None => StopReason::EndTurn,
    };
    let usage = match response.usage {
        Some(u) => Some(
            Usage {
                input_tokens: u.prompt_tokens,
                output_tokens: u.completion_tokens,
                cached_tokens: match u.prompt_tokens_details {
                    Some(d) => d.cached_tokens,
                    None => 0,
                },
            },
        ),
        None => None,
    };
    Ok(
        ChatResponse {
            message: Message {
                role: Role::Assistant,
                content: owned_opt(&choice.message.content),
                tool_calls,
                tool_call_id: None,
            },
            stop_reason,
            usage,
        },
    )
}

/// The name and the arguments of a function that a JSON object stands for.
pub open spec fn json_function(v: JsonView) -> Option<(Seq<char>, Seq<char>)> {
    let v = placed(v, seq!["name"@, "arguments"@], 0);
    if v is Object {
        match (text_or_empty_at(v, "name"@), text_or_empty_at(v, "arguments"@)) {
            (Some(name), Some(arguments)) => Some((name, arguments)),
            _ => None,
        }
    } else {
        None
    }
}

/// A function that may be missing, and then is empty.
pub open spec fn function_at(v: JsonView) -> Option<(Seq<char>, Seq<char>)> {
    match v.field("function"@) {
        None => Some((Seq::empty(), Seq::empty())),
        Some(f) => json_function(f),
    }
}

/// The tool call that a JSON object stands for. Whatever is missing is empty.
pub open spec fn json_call(v: JsonView) -> Option<CallView> {
    let v = placed(v, seq!["id"@, "type"@, "function"@, "index"@], 0);
    if v is Object {
        match (
            text_or_empty_at(v, "id"@),
            text_or_empty_at(v, "type"@),
            function_at(v),
            u64_or_zero_at(v, "index"@),
        ) {
            (Some(id), Some(kind), Some((name, arguments)), Some(index)) => Some(
                CallView { id, kind, name, arguments, index },
            ),
            _ => None,
        }
    } else {
        None
    }
}

/// Tool calls that may be missing or `null`.
pub open spec fn opt_calls_at(v: JsonView) -> Option<Option<Seq<CallView>>> {
    match v.field("tool_calls"@) {
        None => Some(None),
        Some(JsonView::Null) => Some(None),
        Some(JsonView::Array(items)) => if forall|i: int|
            0 <= i < items.len() ==> json_call(#[trigger] items[i]) is Some {
            Some(Some(Seq::new(items.len(), |i: int| json_call(items[i])->0)))
        } else {
            None
        },
        _ => None,
    }
}

/// The answer that a JSON object stands for.
pub open spec fn json_choice(v: JsonView) -> Option<ChoiceView> {
    let v = placed(v, seq!["message"@, "finish_reason"@], 2);
    match v.field("message"@) {
        Some(m) => {
            let m = placed(m, seq!["content"@, "tool_calls"@], 2);
            match (opt_text_at(m, "content"@), opt_calls_at(m), opt_text_at(v, "finish_reason"@)) {
                (Some(content), Some(tool_calls), Some(finish_reason)) => if m is Object {
                    Some(ChoiceView { content, tool_calls, finish_reason })
                } else {
                    None
                },
                _ => None,
            }
        },
        None => None,
    }
}

/// The answers that a JSON array stands for.
pub open spec fn json_choices(v: Option<JsonView>) -> Option<Seq<ChoiceView>> {
    match v {
        Some(JsonView::Array(items)) => if forall|i: int|
            0 <= i < items.len() ==> json_choice(#[trigger] items[i]) is Some {
            Some(Seq::new(items.len(), |i: int| json_choice(items[i])->0))
        } else {
            None
        },
        _ => None,
    }
}

/// How many tokens came from the cache, which may be missing or `null`.
pub open spec fn details_at(v: JsonView) -> Option<Option<OpenAiPromptTokensDetails>> {
    match v.field("prompt_tokens_details"@) {
        None => Some(None),
        Some(JsonView::Null) => Some(None),
        Some(d) => {
            let d = placed(d, seq!["cached_tokens"@], 0);
            match u32_or_zero_at(d, "cached_tokens"@) {
                Some(cached_tokens) => if d is Object {
                    Some(Some(OpenAiPromptTokensDetails { cached_tokens }))
                } else {
                    None
                },
                None => None,
            }
        },
    }
}

/// The token counts, which may be missing or `null`.
pub open spec fn opt_usage_at(v: JsonView) -> Option<Option<OpenAiUsage>> {
    match v.field("usage"@) {
        None => Some(None),
        Some(JsonView::Null) => Some(None),
        Some(u) => {
            let u = placed(
                u,
                seq!["prompt_tokens"@, "completion_tokens"@, "prompt_tokens_details"@],
                3,
            );
            match (u32_at(u, "prompt_tokens"@), u32_at(u, "completion_tokens"@), details_at(u)) {
                (Some(prompt_tokens), Some(completion_tokens), Some(prompt_tokens_details)) => Some(
                    Some(OpenAiUsage { prompt_tokens, completion_tokens, prompt_tokens_details }),
                ),
                _ => None,
            }
        },
    }
}

/// The answer that a JSON object stands for.
pub open spec fn json_response(v: JsonView) -> Option<ResponseView> {
    let v = placed(v, seq!["choices"@, "usage"@], 2);
    match (json_choices(v.field("choices"@)), opt_usage_at(v)) {
        (Some(choices), Some(usage)) => Some(ResponseView { choices, usage }),
        _ => None,
    }
}

fn read_function(v: &Json) -> (r: Option<OpenAiFunction>)
    ensures
        match r {
            Some(f) => function_at(v@) == Some((f.name@, f.arguments@)),
            None => function_at(v@) is None,
        },
{
    match v.get("function") {
        None => {
            let f = OpenAiFunction { name: String::new(), arguments: String::new() };
            assert(f.name@ =~= Seq::<char>::empty());
            assert(f.arguments@ =~= Seq::<char>::empty());
            Some(f)
        },
        Some(f) => {
            let held = place2(f, "name", "arguments", 0);
            let f = match &held {
                Some(p) => p,
                None => f,
            };
            if !is_object(f) {
                return None;
            }
            match (read_text_or_empty(f, "name"), read_text_or_empty(f, "arguments")) {
                (Some(name), Some(arguments)) => Some(OpenAiFunction { name, arguments }),
                _ => None,
            }
        },
    }
}

fn read_call(v: &Json) -> (r: Option<OpenAiToolCall>)
    ensures
        match r {
            Some(c) => json_call(v@) == Some(c@),
            None => json_call(v@) is None,
        },
{
    let held = place4(v, "id", "type", "function", "index", 0);
    let v = match &held {
        Some(p) => p,
        None => v,
    };
    if !is_object(v) {
        return None;
    }
    match (
        read_text_or_empty(v, "id"),
        read_text_or_empty(v, "type"),
        read_function(v),
        read_u64_or_zero(v, "index"),
    ) {
        (Some(id), Some(kind), Some(function), Some(index)) => Some(
            OpenAiToolCall { id, kind, function, index },
        ),
        _ => None,
    }
}

fn read_opt_calls(v: &Json) -> (r: Option<Option<Vec<OpenAiToolCall>>>)
    ensures
        match r {
            Some(Some(calls)) => opt_calls_at(v@) == Some(Some(wire_calls(calls@))),
            Some(None) => opt_calls_at(v@) == Some(None::<Seq<CallView>>),
            None => opt_calls_at(v@) is None,
        },
{
    match v.get("tool_calls") {
        None => Some(None),
        Some(Json::Null) => Some(None),
        Some(Json::Array(items)) => {
            let ghost all = json_views(items@);
            assert(v@.field("tool_calls"@)->0->Array_0 =~= all);
            let mut calls: Vec<OpenAiToolCall> = Vec::new();
            let mut i: usize = 0;
            while i < items.len()
                invariant
                    i <= items@.len(),
                    all == json_views(items@),
                    v@.field("tool_calls"@) == Some(JsonView::Array(all)),
                    calls@.len() == i,
                    forall|j: int| 0 <= j < i ==> json_call(all[j]) == Some((#[trigger] calls@[j])@),
                decreases items@.len() - i,
            {
                match read_call(&items[i]) {
                    Some(c) => {
                        calls.push(c);
                    },
                    None => {
                        assert(json_call(all[i as int]) is None);
                        return None;
                    },
                }
                i += 1;
            }
            proof {
                assert forall|j: int| 0 <= j < all.len() implies json_call(
                    #[trigger] all[j],
                ) is Some by {
                    assert(json_call(all[j]) == Some(calls@[j]@));
                }
                assert(opt_calls_at(v@)->0->0 =~= wire_calls(calls@));
            }
            Some(Some(calls))
        },
        Some(_) => None,
    }
}

fn read_choice(v: &Json) -> (r: Option<OpenAiChoice>)
    ensures
        match r {
            Some(c) => json_choice(v@) == Some(c@),
            None => json_choice(v@) is None,
        },
{
    let held = place2(v, "message", "finish_reason", 2);
    let v = match &held {
        Some(p) => p,
        None => v,
    };
    match v.get("message") {
        Some(m) => {
            let inner = place2(m, "content", "tool_calls", 2);
            let m = match &inner {
                Some(p) => p,
                None => m,
            };
            if !is_object(m) {
                return None;
            }
            match (
                read_opt_text(m, "content"),
                read_opt_calls(m),
                read_opt_text(v, "finish_reason"),
            ) {
                (Some(content), Some(tool_calls), Some(finish_reason)) => Some(
                    OpenAiChoice {
                        message: OpenAiChoiceMessage { content, tool_calls },
                        finish_reason,
                    },
                ),
                _ => None,
            }
        },
        None => None,
    }
}

fn read_choices(v: &Json) -> (r: Option<Vec<OpenAiChoice>>)
    ensures
        match r {
            Some(choices) => json_choices(v@.field("choices"@)) == Some(choice_views(choices@)),
            None => json_choices(v@.field("choices"@)) is None,
        },
{
    match v.get("choices") {
        Some(Json::Array(items)) => {
            let ghost all = json_views(items@);
            assert(v@.field("choices"@)->0->Array_0 =~= all);
            let mut choices: Vec<OpenAiChoice> = Vec::new();
            let mut i: usize = 0;
            while i < items.len()
                invariant
                    i <= items@.len(),
                    all == json_views(items@),
                    v@.field("choices"@) == Some(JsonView::Array(all)),
                    choices@.len() == i,
                    forall|j: int|
                        0 <= j < i ==> json_choice(all[j]) == Some((#[trigger] choices@[j])@),
                decreases items@.len() - i,
            {
                match read_choice(&items[i]) {
                    Some(c) => {
                        choices.push(c);
                    },
                    None => {
                        assert(json_choice(all[i as int]) is None);
                        return None;
                    },
                }
                i += 1;
            }
            proof {
                assert forall|j: int| 0 <= j < all.len() implies json_choice(
                    #[trigger] all[j],
                ) is Some by {
                    assert(json_choice(all[j]) == Some(choices@[j]@));
                }
                assert(json_choices(v@.field("choices"@))->0 =~= choice_views(choices@));
            }
            Some(choices)
        },
        _ => None,
    }
}

fn read_details(v: &Json) -> (r: Option<Option<OpenAiPromptTokensDetails>>)
    ensures
        r == details_at(v@),
{
    match v.get("prompt_tokens_details") {
        None => Some(None),
        Some(Json::Null) => Some(None),
        Some(d) => {
            let held = place1(d, "cached_tokens", 0);
            let d = match &held {
                Some(p) => p,
                None => d,
            };
            if !is_object(d) {
                return None;
            }
            match read_u32_or_zero(d, "cached_tokens") {
                Some(cached_tokens) => Some(Some(OpenAiPromptTokensDetails { cached_tokens })),
                None => None,
            }
        },
    }
}

fn read_opt_usage(v: &Json) -> (r: Option<Option<OpenAiUsage>>)
    ensures
        r == opt_usage_at(v@),
{
    match v.get("usage") {
        None => Some(None),
        Some(Json::Null) => Some(None),
        Some(u) => {
            let held = place3(
                u,
                "prompt_tokens",
                "completion_tokens",
                "prompt_tokens_details",
                3,
            );
            let u = match &held {
                Some(p) => p,
                None => u,
            };
            match (read_u32(u, "prompt_tokens"), read_u32(u, "completion_tokens"), read_details(u)) {
                (Some(prompt_tokens), Some(completion_tokens), Some(prompt_tokens_details)) => Some(
                    Some(OpenAiUsage { prompt_tokens, completion_tokens, prompt_tokens_details }),
                ),
                _ => None,
            }
        },
    }
}

/// The answer that a JSON object stands for.
pub fn read_response(v: &Json) -> (r: Option<OpenAiResponse>)
    ensures
        match r {
            Some(response) => json_response(v@) == Some(response@),
            None => json_response(v@) is None,
        },
{
    let held = place2(v, "choices", "usage", 2);
    let v = match &held {
        Some(p) => p,
        None => v,
    };
    match (read_choices(v), read_opt_usage(v)) {
        (Some(choices), Some(usage)) => Some(OpenAiResponse { choices, usage }),
        _ => None,
    }
}

// ---------------------------------------------------------------------
// The exchange
// ---------------------------------------------------------------------

/// Whether a status says that trying again may help.
pub open spec fn retriable(code: u16) -> bool {
    code == 429 || 500 <= code < 600
}

/// Whether the answer to the request that was sent for the `attempt`-th time,
/// counted from zero, ends the exchange.
pub open spec fn ends(model: OpenAiView, attempt: u32, code: u16) -> bool {
    200 <= code < 300 || !retriable(code) || attempt >= model.max_retries
}

/// What to do after the service has answered.
#[derive(Debug, PartialEq)]
pub enum Exchange {
    /// Wait, then send the request again.
    Retry,
    /// Give this to the caller.
    Finished(Result<ChatResponse>),
}

/// What an answer with a good status stands for.
pub open spec fn body_response(body: Seq<char>, r: Result<ChatResponse>) -> bool {
    match parsed_json(body) {
        Err(e) => r is Err && r->Err_0@ == ErrorView::Model(
            "OpenAI response parse error: "@ + e,
        ),
        Ok(v) => match json_response(v) {
            Some(response) => answers(response, r),
            None => r is Err && r->Err_0@ == ErrorView::Model(
                "OpenAI response parse error: "@ + "not an OpenAI response"@,
            ),
        },
    }
}

/// The error for an answer with a bad status.
pub open spec fn api_error(status: Seq<char>, body: Seq<char>) -> ErrorView {
    ErrorView::Model("OpenAI API error ("@ + status + "): "@ + body)
}

fn make_api_error(status: &str, body: &str) -> (r: DaimonError)
    ensures
        r@ == api_error(status@, body@),
{
    DaimonError::Model(cat4("OpenAI API error (", status, "): ", body))
}

/// Reads the body of an answer with a good status.
pub fn response_from_body(body: &str) -> (r: Result<ChatResponse>)
    ensures
        body_response(body@, r),
{
    match Json::parse(body) {
        Err(e) => Err(DaimonError::Model(cat2("OpenAI response parse error: ", &e))),
        Ok(v) => match read_response(&v) {
            Some(response) => parse_response(response),
            None => Err(
                DaimonError::Model(
                    cat2("OpenAI response parse error: ", "not an OpenAI response"),
                ),
            ),
        },
    }
}

impl OpenAi {
    /// Decides what to do after the answer to the request that was sent for the
    /// `attempt`-th time, counted from zero. `status` is the status in words.
    pub fn after_answer(&self, attempt: u32, code: u16, status: &str, body: &str) -> (r: Exchange)
        ensures
            match r {
                Exchange::Retry => !ends(self@, attempt, code),
                Exchange::Finished(result) => ends(self@, attempt, code) && if 200 <= code < 300 {
                    body_response(body@, result)
                } else {
                    result is Err && result->Err_0@ == api_error(status@, body@)
                },
            },
    {
        if 200 <= code && code < 300 {
            return Exchange::Finished(response_from_body(body));
        }
        let again = code == 429 || (500 <= code && code < 600);
        if again && attempt < self.max_retries {
            Exchange::Retry
        } else {
            Exchange::Finished(Err(make_api_error(status, body)))
        }
    }

    /// The error of a stream that the service refused, if it did.
    pub fn stream_refused(&self, code: u16, status: &str, body: &str) -> (r: Option<DaimonError>)
        ensures
            match r {
                Some(e) => !(200 <= code < 300) && e@ == api_error(status@, body@),
                None => 200 <= code < 300,
            },
    {
        if 200 <= code && code < 300 {
            None
        } else {
            Some(make_api_error(status, body))
        }
    }
}

/// How many milliseconds to wait before the next attempt: twice as long each
/// time.
pub fn backoff_ms(attempt: u32) -> (r: u64)
    requires
        attempt <= 57,
    ensures
        r == 100 * pow2(attempt as nat),
{
    let mut r: u64 = 100;
    let mut i: u32 = 0;
    proof {
        vstd::arithmetic::power2::lemma2_to64();
    }
    while i < attempt
        invariant
            i <= attempt <= 57,
            r == 100 * pow2(i as nat),
        decreases attempt - i,
    {
        proof {
            vstd::arithmetic::power2::lemma_pow2_unfold((i + 1) as nat);
            if i < 56 {
                vstd::arithmetic::power2::lemma_pow2_strictly_increases(i as nat, 56);
            }
            vstd::arithmetic::power2::lemma2_to64();
            vstd::arithmetic::power2::lemma2_to64_rest();
        }
        r = r * 2;
        i += 1;
    }
    r
}

/// However the service answers, a request is sent at most once more than the
/// retries allow.
pub proof fn retries_are_bounded(model: OpenAiView, codes: Seq<u16>)
    requires
        codes.len() > model.max_retries,
    ensures
        exists|i: int|
            0 <= i <= model.max_retries && ends(model, i as u32, #[trigger] codes[i]),
{
    let i = model.max_retries as int;
    assert(ends(model, i as u32, codes[i]));
}

// ---------------------------------------------------------------------
// Streams
// ---------------------------------------------------------------------

/// A piece of a function call.
#[derive(Debug, PartialEq)]
pub struct OpenAiStreamFunction {
    pub name: Option<String>,
    pub arguments: Option<String>,
}

/// A piece of a tool call.
#[derive(Debug, PartialEq)]
pub struct OpenAiStreamToolCall {
    pub index: u64,
    pub function: Option<OpenAiStreamFunction>,
}

/// A piece of an answer.
#[derive(Debug, PartialEq)]
pub struct OpenAiStreamDelta {
    pub content: Option<String>,
    pub tool_calls: Option<Vec<OpenAiStreamToolCall>>,
}

/// A piece of a tool call, as contracts speak of it.
pub struct CallPiece {
    pub index: u64,
    /// The name and the arguments, as far as the piece carries them.
    pub function: Option<(Option<Seq<char>>, Option<Seq<char>>)>,
}

/// A piece of an answer, as contracts speak of it.
pub struct DeltaView {
    pub content: Option<Seq<char>>,
    pub tool_calls: Option<Seq<CallPiece>>,
}

impl View for OpenAiStreamToolCall {
    type V = CallPiece;

    open spec fn view(&self) -> CallPiece {
        CallPiece {
            index: self.index,
            function: match self.function {
                Some(f) => Some((opt_text(f.name), opt_text(f.arguments))),
                None => None,
            },
        }
    }
}

/// The models of a list of pieces.
pub open spec fn piece_views(s: Seq<OpenAiStreamToolCall>) -> Seq<CallPiece> {
    Seq::new(s.len(), |i: int| s[i]@)
}

impl View for OpenAiStreamDelta {
    type V = DeltaView;

    open spec fn view(&self) -> DeltaView {
        DeltaView {
            content: opt_text(self.content),
            tool_calls: match self.tool_calls {
                Some(v) => Some(piece_views(v@)),
                None => None,
            },
        }
    }
}

/// The models of a list of pieces.
pub open spec fn delta_views(s: Seq<OpenAiStreamDelta>) -> Seq<DeltaView> {
    Seq::new(s.len(), |i: int| s[i]@)
}

/// What a piece of a tool call becomes: its start, if it carries a name, and its
/// arguments, if it carries any.
pub open spec fn piece_events(c: CallPiece) -> Seq<EventView> {
    let id = decimal(c.index as nat);
    match c.function {
        Some((name, arguments)) => {
            let start = match name {
                Some(name) => seq![EventView::ToolCallStart { id, name }],
                None => Seq::empty(),
            };
            let more = match arguments {
                Some(a) => if a.len() > 0 {
                    seq![EventView::ToolCallDelta { id, arguments_delta: a }]
                } else {
                    Seq::empty()
                },
                None => Seq::empty(),
            };
            start + more
        },
        None => Seq::empty(),
    }
}

/// What pieces of tool calls become.
pub open spec fn pieces_events(s: Seq<CallPiece>) -> Seq<EventView>
    decreases s.len(),
{
    if s.len() == 0 {
        Seq::empty()
    } else {
        pieces_events(s.drop_last()) + piece_events(s.last())
    }
}

/// What a piece of an answer becomes: its text, then its tool calls.
pub open spec fn delta_events(d: DeltaView) -> Seq<EventView> {
    let text = match d.content {
        Some(t) => if t.len() > 0 {
            seq![EventView::TextDelta(t)]
        } else {
            Seq::empty()
        },
        None => Seq::empty(),
    };
    let calls = match d.tool_calls {
        Some(s) => pieces_events(s),
        None => Seq::empty(),
    };
    text + calls
}

/// What pieces of answers become.
pub open spec fn deltas_events(s: Seq<DeltaView>) -> Seq<EventView>
    decreases s.len(),
{
    if s.len() == 0 {
        Seq::empty()
    } else {
        deltas_events(s.drop_last()) + delta_events(s.last())
    }
}

/// A function piece that may be missing or `null`.
pub open spec fn opt_function_piece(v: JsonView) -> Option<
    Option<(Option<Seq<char>>, Option<Seq<char>>)>,
> {
    match v.field("function"@) {
        None => Some(None),
        Some(JsonView::Null) => Some(None),
        Some(f) => {
            let f = placed(f, seq!["name"@, "arguments"@], 2);
            match (opt_text_at(f, "name"@), opt_text_at(f, "arguments"@)) {
                (Some(name), Some(arguments)) => if f is Object {
                    Some(Some((name, arguments)))
                } else {
                    None
                },
                _ => None,
            }
        },
    }
}

/// The piece of a tool call that a JSON object stands for.
pub open spec fn json_piece(v: JsonView) -> Option<CallPiece> {
    let v = placed(v, seq!["index"@, "function"@], 2);
    match (u64_at(v, "index"@), opt_function_piece(v)) {
        (Some(index), Some(function)) => Some(CallPiece { index, function }),
        _ => None,
    }
}

/// Pieces of tool calls that may be missing or `null`.
pub open spec fn opt_pieces_at(v: JsonView) -> Option<Option<Seq<CallPiece>>> {
    match v.field("tool_calls"@) {
        None => Some(None),
        Some(JsonView::Null) => Some(None),
        Some(JsonView::Array(items)) => if forall|i: int|
            0 <= i < items.len() ==> json_piece(#[trigger] items[i]) is Some {
            Some(Some(Seq::new(items.len(), |i: int| json_piece(items[i])->0)))
        } else {
            None
        },
        _ => None,
    }
}

/// The piece of an answer that a JSON object stands for.
pub open spec fn json_delta(v: JsonView) -> Option<DeltaView> {
    let v = placed(v, seq!["delta"@], 1);
    match v.field("delta"@) {
        Some(d) => {
            let d = placed(d, seq!["content"@, "tool_calls"@], 2);
            match (opt_text_at(d, "content"@), opt_pieces_at(d)) {
                (Some(content), Some(tool_calls)) => if d is Object {
                    Some(DeltaView { content, tool_calls })
                } else {
                    None
                },
                _ => None,
            }
        },
        None => None,
    }
}

/// The pieces of answers that a JSON object stands for.
pub open spec fn json_chunk(v: JsonView) -> Option<Seq<DeltaView>> {
    let v = placed(v, seq!["choices"@], 1);
    match v.field("choices"@) {
        Some(JsonView::Array(items)) => if forall|i: int|
            0 <= i < items.len() ==> json_delta(#[trigger] items[i]) is Some {
            Some(Seq::new(items.len(), |i: int| json_delta(items[i])->0))
        } else {
            None
        },
        _ => None,
    }
}

/// What a line of the stream becomes. A line that cannot be read is passed over.
pub open spec fn line_events(line: Seq<char>) -> Seq<EventView> {
    if line == "data: [DONE]"@ {
        seq![EventView::Done]
    } else {
        match after_prefix(line, "data: "@) {
            Some(data) => match parsed_json(data) {
                Ok(v) => match json_chunk(v) {
                    Some(deltas) => deltas_events(deltas),
                    None => Seq::empty(),
                },
                Err(_) => Seq::empty(),
            },
            None => Seq::empty(),
        }
    }
}

/// What complete lines become.
pub open spec fn lines_events(lines: Seq<Seq<char>>) -> Seq<EventView>
    decreases lines.len(),
{
    if lines.len() == 0 {
        Seq::empty()
    } else {
        lines_events(lines.drop_last()) + line_events(trimmed(lines.last()))
    }
}

/// What is left of a text behind its last complete line, and what its lines
/// become.
pub open spec fn received(pending: Seq<char>, text: Seq<char>) -> (Seq<char>, Seq<EventView>) {
    let (lines, rest) = split(pending + text, '\n');
    (rest, lines_events(lines))
}

fn read_function_piece(v: &Json) -> (r: Option<Option<OpenAiStreamFunction>>)
    ensures
        match r {
            Some(Some(f)) => opt_function_piece(v@) == Some(
                Some((opt_text(f.name), opt_text(f.arguments))),
            ),
            Some(None) => opt_function_piece(v@) == Some(
                None::<(Option<Seq<char>>, Option<Seq<char>>)>,
            ),
            None => opt_function_piece(v@) is None,
        },
{
    match v.get("function") {
        None => Some(None),
        Some(Json::Null) => Some(None),
        Some(f) => {
            let held = place2(f, "name", "arguments", 2);
            let f = match &held {
                Some(p) => p,
                None => f,
            };
            if !is_object(f) {
                return None;
            }
            match (read_opt_text(f, "name"), read_opt_text(f, "arguments")) {
                (Some(name), Some(arguments)) => Some(
                    Some(OpenAiStreamFunction { name, arguments }),
                ),
                _ => None,
            }
        },
    }
}

fn read_piece(v: &Json) -> (r: Option<OpenAiStreamToolCall>)
    ensures
        match r {
            Some(c) => json_piece(v@) == Some(c@),
            None => json_piece(v@) is None,
        },
{
    let held = place2(v, "index", "function", 2);
    let v = match &held {
        Some(p) => p,
        None => v,
    };
    match (read_u64(v, "index"), read_function_piece(v)) {
        (Some(index), Some(function)) => Some(OpenAiStreamToolCall { index, function }),
        _ => None,
    }
}

fn read_opt_pieces(v: &Json) -> (r: Option<Option<Vec<OpenAiStreamToolCall>>>)
    ensures
        match r {
            Some(Some(pieces)) => opt_pieces_at(v@) == Some(Some(piece_views(pieces@))),
            Some(None) => opt_pieces_at(v@) == Some(None::<Seq<CallPiece>>),
            None => opt_pieces_at(v@) is None,
        },
{
    match v.get("tool_calls") {
        None => Some(None),
        Some(Json::Null) => Some(None),
        Some(Json::Array(items)) => {
            let ghost all = json_views(items@);
            assert(v@.field("tool_calls"@)->0->Array_0 =~= all);
            let mut pieces: Vec<OpenAiStreamToolCall> = Vec::new();
            let mut i: usize = 0;
            while i < items.len()
                invariant
                    i <= items@.len(),
                    all == json_views(items@),
                    v@.field("tool_calls"@) == Some(JsonView::Array(all)),
                    pieces@.len() == i,
                    forall|j: int|
                        0 <= j < i ==> json_piece(all[j]) == Some((#[trigger] pieces@[j])@),
                decreases items@.len() - i,
            {
                match read_piece(&items[i]) {
                    Some(c) => {
                        pieces.push(c);
                    },
                    None => {
                        assert(json_piece(all[i as int]) is None);
                        return None;
                    },
                }
                i += 1;
            }
            proof {
                assert forall|j: int| 0 <= j < all.len() implies json_piece(
                    #[trigger] all[j],
                ) is Some by {
                    assert(json_piece(all[j]) == Some(pieces@[j]@));
                }
                assert(opt_pieces_at(v@)->0->0 =~= piece_views(pieces@));
            }
            Some(Some(pieces))
        },
        Some(_) => None,
    }
}

fn read_delta(v: &Json) -> (r: Option<OpenAiStreamDelta>)
    ensures
        match r {
            Some(d) => json_delta(v@) == Some(d@),
            None => json_delta(v@) is None,
        },
{
    let held = place1(v, "delta", 1);
    let v = match &held {
        Some(p) => p,
        None => v,
    };
    match v.get("delta") {
        Some(d) => {
            let inner = place2(d, "content", "tool_calls", 2);
            let d = match &inner {
                Some(p) => p,
                None => d,
            };
            if !is_object(d) {
                return None;
            }
            match (read_opt_text(d, "content"), read_opt_pieces(d)) {
                (Some(content), Some(tool_calls)) => Some(
                    OpenAiStreamDelta { content, tool_calls },
                ),
                _ => None,
            }
        },
        None => None,
    }
}

/// The pieces of answers that a JSON object stands for.
pub fn read_chunk(v: &Json) -> (r: Option<Vec<OpenAiStreamDelta>>)
    ensures
        match r {
            Some(deltas) => json_chunk(v@) == Some(delta_views(deltas@)),
            None => json_chunk(v@) is None,
        },
{
    let held = place1(v, "choices", 1);
    let o = match &held {
        Some(p) => p,
        None => v,
    };
    match o.get("choices") {
        Some(Json::Array(items)) => {
            let ghost all = json_views(items@);
            assert(o@.field("choices"@)->0->Array_0 =~= all);
            let mut deltas: Vec<OpenAiStreamDelta> = Vec::new();
            let mut i: usize = 0;
            while i < items.len()
                invariant
                    i <= items@.len(),
                    all == json_views(items@),
                    o@ == placed(v@, seq!["choices"@], 1),
                    o@.field("choices"@) == Some(JsonView::Array(all)),
                    deltas@.len() == i,
                    forall|j: int|
                        0 <= j < i ==> json_delta(all[j]) == Some((#[trigger] deltas@[j])@),
                decreases items@.len() - i,
            {
                match read_delta(&items[i]) {
                    Some(d) => {
                        deltas.push(d);
                    },
                    None => {
                        assert(json_delta(all[i as int]) is None);
                        return None;
                    },
                }
                i += 1;
            }
            proof {
                assert forall|j: int| 0 <= j < all.len() implies json_delta(
                    #[trigger] all[j],
                ) is Some by {
                    assert(json_delta(all[j]) == Some(deltas@[j]@));
                }
                assert(json_chunk(v@)->0 =~= delta_views(deltas@));
            }
            Some(deltas)
        },
        _ => None,
    }
}

fn push_piece(piece: &OpenAiStreamToolCall, events: &mut Vec<StreamEvent>)
    ensures
        event_views(final(events)@) == event_views(old(events)@) + piece_events(piece@),
{
    let ghost start = event_views(events@);
    let ghost view = piece@;
    assert(start + Seq::<EventView>::empty() =~= start);
    if let Some(f) = &piece.function {
        let ghost head = match (view.function->0).0 {
            Some(name) => seq![
                EventView::ToolCallStart { id: decimal(view.index as nat), name },
            ],
            None => Seq::empty(),
        };
        if let Some(name) = &f.name {
            events.push(
                StreamEvent::ToolCallStart { id: decimal_text(piece.index), name: name.clone() },
            );
        }
        assert(event_views(events@) =~= start + head);
        if let Some(a) = &f.arguments {
            if a.as_str().unicode_len() > 0 {
                let ghost before = event_views(events@);
                let more = StreamEvent::ToolCallDelta {
                    id: decimal_text(piece.index),
                    arguments_delta: a.clone(),
                };
                let ghost seen = more@;
                events.push(more);
                assert(event_views(events@) =~= before.push(seen));
            }
        }
        assert(event_views(events@) =~= start + piece_events(view));
    }
}

fn push_delta(delta: &OpenAiStreamDelta, events: &mut Vec<StreamEvent>)
    ensures
        event_views(final(events)@) == event_views(old(events)@) + delta_events(delta@),
{
    let ghost start = event_views(events@);
    let ghost view = delta@;
    let ghost text = match view.content {
        Some(t) => if t.len() > 0 {
            seq![EventView::TextDelta(t)]
        } else {
            Seq::empty()
        },
        None => Seq::empty(),
    };
    if let Some(t) = &delta.content {
        if t.as_str().unicode_len() > 0 {
            let piece = StreamEvent::TextDelta(t.clone());
            let ghost seen = piece@;
            events.push(piece);
            assert(event_views(events@) =~= start.push(seen));
        }
    }
    assert(event_views(events@) =~= start + text);
    if let Some(pieces) = &delta.tool_calls {
        let ghost all = piece_views(pieces@);
        let mut i: usize = 0;
        assert(all.take(0) =~= Seq::<CallPiece>::empty());
        assert(event_views(events@) =~= start + text + pieces_events(all.take(0)));
        while i < pieces.len()
            invariant
                i <= pieces@.len(),
                all == piece_views(pieces@),
                event_views(events@) == start + text + pieces_events(all.take(i as int)),
            decreases pieces@.len() - i,
        {
            let ghost earlier = pieces_events(all.take(i as int));
            assert(all.take(i + 1).drop_last() =~= all.take(i as int));
            assert(all.take(i + 1).last() == pieces@[i as int]@);
            push_piece(&pieces[i], events);
            i += 1;
            assert(start + text + earlier + piece_events(pieces@[i - 1]@) =~= start + text + (
            earlier + piece_events(pieces@[i - 1]@)));
        }
        assert(all.take(i as int) =~= all);
    }
    assert(event_views(events@) =~= start + delta_events(view));
}

fn push_line(line: &str, events: &mut Vec<StreamEvent>)
    ensures
        event_views(final(events)@) == event_views(old(events)@) + line_events(line@),
{
    let ghost start = event_views(events@);
    assert(start + Seq::<EventView>::empty() =~= start);
    if same(line, "data: [DONE]") {
        events.push(StreamEvent::Done);
        assert(event_views(events@) =~= start + seq![EventView::Done]);
        return;
    }
    match strip_prefix(line, "data: ") {
        Some(data) => match Json::parse(&data) {
            Ok(v) => match read_chunk(&v) {
                Some(deltas) => {
                    let ghost all = delta_views(deltas@);
                    let mut i: usize = 0;
                    assert(all.take(0) =~= Seq::<DeltaView>::empty());
                    while i < deltas.len()
                        invariant
                            i <= deltas@.len(),
                            all == delta_views(deltas@),
                            event_views(events@) == start + deltas_events(all.take(i as int)),
                        decreases deltas@.len() - i,
                    {
                        let ghost earlier = deltas_events(all.take(i as int));
                        assert(all.take(i + 1).drop_last() =~= all.take(i as int));
                        assert(all.take(i + 1).last() == deltas@[i as int]@);
                        push_delta(&deltas[i], events);
                        i += 1;
                        assert(start + earlier + delta_events(deltas@[i - 1]@) =~= start + (earlier
                            + delta_events(deltas@[i - 1]@)));
                    }
                    assert(all.take(i as int) =~= all);
                },
                None => {},
            },
            Err(_) => {},
        },
        None => {},
    }
}

/// The service's stream, read in pieces as they arrive.
pub struct OpenAiStream {
    buffer: Vec<char>,
}

impl View for OpenAiStream {
    type V = Seq<char>;

    closed spec fn view(&self) -> Seq<char> {
        self.buffer@
    }
}

impl OpenAiStream {
    /// A stream of which nothing has arrived.
    pub fn new() -> (r: Self)
        ensures
            r@ == Seq::<char>::empty(),
    {
        OpenAiStream { buffer: Vec::new() }
    }

    /// Takes a piece of the stream and gives the events that are complete with
    /// it.
    pub fn push(&mut self, chunk: &[u8]) -> (r: Vec<StreamEvent>)
        ensures
            (final(self)@, event_views(r@)) == received(old(self)@, lossy_text(chunk@)),
    {
        let text = lossy_string(chunk);
        self.push_text(&text)
    }

    /// Takes a piece of the stream's text and gives the events that are complete
    /// with it.
    pub fn push_text(&mut self, text: &str) -> (r: Vec<StreamEvent>)
        ensures
            (final(self)@, event_views(r@)) == received(old(self)@, text@),
    {
        let mut more = chars_of(text);
        let ghost start = self@;
        self.buffer.append(&mut more);
        assert(self@ =~= start + text@);
        let ghost (all, rest) = split(self.buffer@, '\n');
        let ghost mut done: Seq<Seq<char>> = Seq::empty();
        let mut events: Vec<StreamEvent> = Vec::new();
        assert(event_views(events@) =~= Seq::<EventView>::empty());
        assert(done + all =~= all);
        loop
            invariant
                done + split(self.buffer@, '\n').0 == all,
                split(self.buffer@, '\n').1 == rest,
                event_views(events@) == lines_events(done),
            ensures
                self.buffer@ == rest,
                event_views(events@) == lines_events(all),
            decreases self.buffer@.len(),
        {
            let ghost buffer = self.buffer@;
            let ghost lines = split(buffer, '\n').0;
            let mut n: usize = 0;
            while n < self.buffer.len() && self.buffer[n] != '\n'
                invariant
                    n <= self.buffer@.len(),
                    self.buffer@ == buffer,
                    forall|i: int| 0 <= i < n ==> buffer[i] != '\n',
                decreases self.buffer@.len() - n,
            {
                n += 1;
            }
            if n == self.buffer.len() {
                proof {
                    lemma_no_end(buffer, '\n');
                    assert(done + Seq::<Seq<char>>::empty() =~= done);
                }
                break;
            }
            let line = trim_text(&string_of(&self.buffer, 0, n));
            let behind = self.buffer.split_off(n + 1);
            self.buffer = behind;
            proof {
                lemma_first_line(buffer, n as int, '\n');
                assert(buffer.subrange(0, n as int) =~= buffer.take(n as int));
                assert(self.buffer@ =~= buffer.skip(n + 1));
                assert(lines[0] == buffer.take(n as int));
                let grown = done.push(lines[0]);
                assert(grown.drop_last() =~= done);
                assert(lines =~= seq![lines[0]] + split(self.buffer@, '\n').0);
                assert(grown + split(self.buffer@, '\n').0 =~= done + lines);
                done = grown;
            }
            push_line(&line, &mut events);
        }
        events
    }
}

proof fn lemma_lines_in_two_parts(a: Seq<Seq<char>>, b: Seq<Seq<char>>)
    ensures
        lines_events(a + b) == lines_events(a) + lines_events(b),
    decreases b.len(),
{
    if b.len() == 0 {
        assert(a + b =~= a);
        assert(lines_events(a) + Seq::<EventView>::empty() =~= lines_events(a));
    } else {
        lemma_lines_in_two_parts(a, b.drop_last());
        assert((a + b).drop_last() =~= a + b.drop_last());
        assert(lines_events(a) + lines_events(b.drop_last()) + line_events(trimmed(b.last()))
            =~= lines_events(a) + (lines_events(b.drop_last()) + line_events(trimmed(b.last()))));
    }
}

/// How the text of a stream is cut into pieces does not matter.
pub proof fn pieces_do_not_matter(pending: Seq<char>, a: Seq<char>, b: Seq<char>)
    ensures
        ({
            let (mid, first) = received(pending, a);
            let (end, second) = received(mid, b);
            received(pending, a + b) == (end, first + second)
        }),
{
    assert(pending + (a + b) =~= (pending + a) + b);
    cuts_do_not_matter(pending + a, b, '\n');
    let (lines, rest) = split(pending + a, '\n');
    lemma_lines_in_two_parts(lines, split(rest + b, '\n').0);
}

} // verus!
