//! The Ollama chat API: requests, responses and streams.

use crate::decode::{
    flag_at, is_object, opt_text_at, opt_u32_at, place1, place2, place4, placed, read_flag,
    read_opt_text, read_opt_u32, read_text, text_at,
};
use crate::error::{DaimonError, ErrorView, Result};
use crate::json::{
    json_text, json_views, make_object1, make_object2, make_object3, object1, object2, object3,
    parsed_json, Json, JsonMap, JsonView, NumberView,
};
use crate::model::line_buffer::{line_text, LineBuffer, NEWLINE};
use crate::model::types::{
    message_views, spec_views, ChatRequest, ChatResponse, Message, MessageView, RequestView, Role,
    StopReason, ToolSpec, ToolSpecView, Usage,
};
use crate::model::wire::{role_name, role_to_str};
use crate::split::{cuts_do_not_matter, split};
use crate::stream::{event_views, EventView, StreamEvent};
use crate::text::{
    cat2, cat4, chars_of, decimal, decimal_text, lemma_decimal_injective, opt_text, owned,
    string_of, trim_text, trimmed,
};
use crate::tool::{call_views, ToolCall, ToolCallView};
use std::time::Duration;
use vstd::prelude::*;

verus! {

/// Where the service is, unless told otherwise.
pub const DEFAULT_BASE_URL: &'static str = "http://localhost:11434";

/// How many seconds a request may take, unless told otherwise.
pub const DEFAULT_TIMEOUT_SECS: u64 = 300;

/// A model behind an Ollama server.
#[derive(Debug)]
pub struct Ollama {
    pub model: String,
    pub base_url: String,
    /// How long a request may take; the default if nothing is set.
    pub timeout: Option<Duration>,
    pub keep_alive: Option<String>,
}

/// A model's settings, as contracts speak of them.
pub struct OllamaView {
    pub model: Seq<char>,
    pub base_url: Seq<char>,
    pub timeout: Option<Duration>,
    pub keep_alive: Option<Seq<char>>,
}

impl View for Ollama {
    type V = OllamaView;

    open spec fn view(&self) -> OllamaView {
        OllamaView {
            model: self.model@,
            base_url: self.base_url@,
            timeout: self.timeout,
            keep_alive: opt_text(self.keep_alive),
        }
    }
}

/// The number of slashes at the end.
pub open spec fn slash_run(s: Seq<char>) -> nat
    decreases s.len(),
{
    if s.len() > 0 && s.last() == '/' {
        1 + slash_run(s.drop_last())
    } else {
        0
    }
}

/// The text without slashes at its end.
pub open spec fn without_slashes(s: Seq<char>) -> Seq<char> {
    s.take(s.len() - slash_run(s))
}

fn trim_slashes(s: &str) -> (r: String)
    ensures
        r@ == without_slashes(s@),
{
    let chars = chars_of(s);
    let mut end: usize = chars.len();
    assert(s@.take(end as int) =~= s@);
    while end > 0 && chars[end - 1] == '/'
        invariant
            end <= chars@.len(),
            chars@ == s@,
            s@.len() - slash_run(s@) == end - slash_run(s@.take(end as int)),
        decreases end,
    {
        assert(s@.take(end as int).drop_last() =~= s@.take(end - 1));
        end -= 1;
    }
    let r = string_of(&chars, 0, end);
    assert(r@ =~= s@.take(end as int));
    r
}

impl Ollama {
    /// A model by its name.
    pub fn new(model: &str) -> (r: Self)
        ensures
            r@ == (OllamaView {
                model: model@,
                base_url: DEFAULT_BASE_URL@,
                timeout: None,
                keep_alive: None,
            }),
    {
        Ollama {
            model: owned(model),
            base_url: owned(DEFAULT_BASE_URL),
            timeout: None,
            keep_alive: None,
        }
    }

    /// Sets where the service is. Slashes at the end are dropped.
    pub fn with_base_url(self, url: &str) -> (r: Self)
        ensures
            r@ == (OllamaView { base_url: without_slashes(url@), ..self@ }),
    {
        Ollama { base_url: trim_slashes(url), ..self }
    }

    /// Sets how long a request may take.
    pub fn with_timeout(self, timeout: Duration) -> (r: Self)
        ensures
            r@ == (OllamaView { timeout: Some(timeout), ..self@ }),
    {
        Ollama { timeout: Some(timeout), ..self }
    }

    /// Sets how long the model stays loaded after a request.
    pub fn with_keep_alive(self, keep_alive: &str) -> (r: Self)
        ensures
            r@ == (OllamaView { keep_alive: Some(keep_alive@), ..self@ }),
    {
        Ollama { keep_alive: Some(owned(keep_alive)), ..self }
    }

    /// The name of the model.
    pub fn model_id(&self) -> (r: &String)
        ensures
            r@ == self@.model,
    {
        &self.model
    }

    /// Where requests go.
    pub fn chat_url(&self) -> (r: String)
        ensures
            r@ == self@.base_url + "/api/chat"@,
    {
        cat2(&self.base_url, "/api/chat")
    }
}

// ---------------------------------------------------------------------
// Requests
// ---------------------------------------------------------------------

/// A tool call in a request.
pub open spec fn call_entry(c: ToolCallView) -> JsonView {
    object1(
        "function"@,
        object2("name"@, JsonView::Str(c.name), "arguments"@, c.arguments),
    )
}

/// A message in a request.
pub open spec fn message_entry(m: MessageView) -> JsonView {
    let a = Map::<Seq<char>, JsonView>::empty().insert("role"@, JsonView::Str(role_name(m.role)));
    let b = match m.content {
        Some(t) => a.insert("content"@, JsonView::Str(t)),
        None => a,
    };
    JsonView::Object(
        if m.tool_calls.len() > 0 {
            b.insert(
                "tool_calls"@,
                JsonView::Array(
                    Seq::new(m.tool_calls.len(), |i: int| call_entry(m.tool_calls[i])),
                ),
            )
        } else {
            b
        },
    )
}

/// A tool in a request.
pub open spec fn tool_entry(t: ToolSpecView) -> JsonView {
    object2(
        "type"@,
        JsonView::Str("function"@),
        "function"@,
        object3(
            "name"@,
            JsonView::Str(t.name),
            "description"@,
            JsonView::Str(t.description),
            "parameters"@,
            t.parameters,
        ),
    )
}

/// The options of a request, if it has any.
pub open spec fn request_options(q: RequestView) -> Option<JsonView> {
    let none = Map::<Seq<char>, JsonView>::empty();
    let a = match q.temperature {
        Some(t) => none.insert("temperature"@, t),
        None => none,
    };
    let b = match q.max_tokens {
        Some(n) => a.insert("num_predict"@, JsonView::Number(NumberView::PosInt(n as u64))),
        None => a,
    };
    if q.temperature is Some || q.max_tokens is Some {
        Some(JsonView::Object(b))
    } else {
        None
    }
}

/// The body of a request.
pub open spec fn request_json(model: OllamaView, q: RequestView, stream: bool) -> JsonView {
    let a = Map::<Seq<char>, JsonView>::empty().insert("model"@, JsonView::Str(model.model)).insert(
        "messages"@,
        JsonView::Array(Seq::new(q.messages.len(), |i: int| message_entry(q.messages[i]))),
    ).insert("stream"@, JsonView::Bool(stream));
    let b = if q.tools.len() > 0 {
        a.insert(
            "tools"@,
            JsonView::Array(Seq::new(q.tools.len(), |i: int| tool_entry(q.tools[i]))),
        )
    } else {
        a
    };
    let c = match request_options(q) {
        Some(o) => b.insert("options"@, o),
        None => b,
    };
    JsonView::Object(
        match model.keep_alive {
            Some(k) => c.insert("keep_alive"@, JsonView::Str(k)),
            None => c,
        },
    )
}

/// A message in a request.
pub fn convert_message(msg: &Message) -> (r: Json)
    ensures
        r@ == message_entry(msg@),
{
    let a = JsonMap::new().with("role", Json::text(role_to_str(&msg.role)));
    let b = match &msg.content {
        Some(t) => a.with("content", Json::text(t)),
        None => a,
    };
    if msg.tool_calls.len() == 0 {
        return Json::object(b);
    }
    let ghost calls = msg@.tool_calls;
    let mut items: Vec<Json> = Vec::new();
    let mut i: usize = 0;
    while i < msg.tool_calls.len()
        invariant
            i <= msg.tool_calls@.len(),
            calls == call_views(msg.tool_calls@),
            items@.len() == i,
            forall|j: int| 0 <= j < i ==> (#[trigger] items@[j])@ == call_entry(calls[j]),
        decreases msg.tool_calls@.len() - i,
    {
        let call = &msg.tool_calls[i];
        items.push(
            make_object1(
                "function",
                make_object2(
                    "name",
                    Json::text(&call.name),
                    "arguments",
                    call.arguments.duplicate(),
                ),
            ),
        );
        i += 1;
    }
    assert(json_views(items@) =~= Seq::new(calls.len(), |i: int| call_entry(calls[i])));
    Json::object(b.with("tool_calls", Json::array(items)))
}

/// A tool in a request.
pub fn convert_tool_spec(spec: &ToolSpec) -> (r: Json)
    ensures
        r@ == tool_entry(spec@),
{
    make_object2(
        "type",
        Json::text("function"),
        "function",
        make_object3(
            "name",
            Json::text(&spec.name),
            "description",
            Json::text(&spec.description),
            "parameters",
            spec.parameters.duplicate(),
        ),
    )
}

fn make_messages(messages: &Vec<Message>) -> (r: Json)
    ensures
        r@ == JsonView::Array(
            Seq::new(messages@.len(), |i: int| message_entry(message_views(messages@)[i])),
        ),
{
    let ghost all = message_views(messages@);
    let mut items: Vec<Json> = Vec::new();
    let mut i: usize = 0;
    while i < messages.len()
        invariant
            i <= messages@.len(),
            all == message_views(messages@),
            items@.len() == i,
            forall|j: int| 0 <= j < i ==> (#[trigger] items@[j])@ == message_entry(all[j]),
        decreases messages@.len() - i,
    {
        items.push(convert_message(&messages[i]));
        i += 1;
    }
    assert(json_views(items@) =~= Seq::new(all.len(), |i: int| message_entry(all[i])));
    Json::array(items)
}

fn make_tools(tools: &Vec<ToolSpec>) -> (r: Json)
    ensures
        r@ == JsonView::Array(
            Seq::new(tools@.len(), |i: int| tool_entry(spec_views(tools@)[i])),
        ),
{
    let ghost all = spec_views(tools@);
    let mut items: Vec<Json> = Vec::new();
    let mut i: usize = 0;
    while i < tools.len()
        invariant
            i <= tools@.len(),
            all == spec_views(tools@),
            items@.len() == i,
            forall|j: int| 0 <= j < i ==> (#[trigger] items@[j])@ == tool_entry(all[j]),
        decreases tools@.len() - i,
    {
        items.push(convert_tool_spec(&tools[i]));
        i += 1;
    }
    assert(json_views(items@) =~= Seq::new(all.len(), |i: int| tool_entry(all[i])));
    Json::array(items)
}

impl Ollama {
    /// The body of a request.
    pub fn build_request_body(&self, request: &ChatRequest, stream: bool) -> (r: Json)
        ensures
            r@ == request_json(self@, request@, stream),
    {
        let a = JsonMap::new().with("model", Json::text(&self.model)).with(
            "messages",
            make_messages(&request.messages),
        ).with("stream", Json::Bool(stream));
        let b = if request.tools.len() > 0 {
            a.with("tools", make_tools(&request.tools))
        } else {
            a
        };
        let none = JsonMap::new();
        let warm = match &request.temperature {
            Some(t) => none.with("temperature", t.duplicate()),
            None => none,
        };
        let options = match request.max_tokens {
            Some(n) => warm.with("num_predict", Json::uint(n as u64)),
            None => warm,
        };
        let c = if request.temperature.is_some() || request.max_tokens.is_some() {
            b.with("options", Json::object(options))
        } else {
            b
        };
        assert(request@.messages.len() == request.messages@.len());
        Json::object(
            match &self.keep_alive {
                Some(k) => c.with("keep_alive", Json::text(k)),
                None => c,
            },
        )
    }
}

// ---------------------------------------------------------------------
// Responses
// ---------------------------------------------------------------------

/// A function that the model asks to be called.
#[derive(Debug, PartialEq)]
pub struct OllamaFunction {
    pub name: String,
    pub arguments: Json,
}

/// A tool call of an answer.
#[derive(Debug, PartialEq)]
pub struct OllamaToolCall {
    pub function: OllamaFunction,
}

/// The message of an answer.
#[derive(Debug, PartialEq)]
pub struct OllamaMessage {
    pub content: Option<String>,
    pub tool_calls: Vec<OllamaToolCall>,
}

/// An answer, or one record of a streamed answer.
#[derive(Debug, PartialEq)]
pub struct OllamaResponse {
    pub message: Option<OllamaMessage>,
    pub done: bool,
    pub prompt_eval_count: Option<u32>,
    pub eval_count: Option<u32>,
}

/// A tool call, as contracts speak of it.
pub struct FunctionView {
    pub name: Seq<char>,
    pub arguments: JsonView,
}

/// The message of an answer, as contracts speak of it.
pub struct AnswerView {
    pub content: Option<Seq<char>>,
    pub tool_calls: Seq<FunctionView>,
}

/// An answer, as contracts speak of it.
pub struct RecordView {
    pub message: Option<AnswerView>,
    pub done: bool,
    pub prompt_eval_count: Option<u32>,
    pub eval_count: Option<u32>,
}

impl View for OllamaToolCall {
    type V = FunctionView;

    open spec fn view(&self) -> FunctionView {
        FunctionView { name: self.function.name@, arguments: self.function.arguments@ }
    }
}

/// The models of a list of tool calls.
pub open spec fn function_views(s: Seq<OllamaToolCall>) -> Seq<FunctionView> {
    Seq::new(s.len(), |i: int| s[i]@)
}

impl View for OllamaMessage {
    type V = AnswerView;

    open spec fn view(&self) -> AnswerView {
        AnswerView {
            content: opt_text(self.content),
            tool_calls: function_views(self.tool_calls@),
        }
    }
}

impl View for OllamaResponse {
    type V = RecordView;

    open spec fn view(&self) -> RecordView {
        RecordView {
            message: match self.message {
                Some(m) => Some(m@),
                None => None,
            },
            done: self.done,
            prompt_eval_count: self.prompt_eval_count,
            eval_count: self.eval_count,
        }
    }
}

/// The identifier of the tool call with a number.
pub open spec fn call_id(n: nat) -> Seq<char> {
    "ollama_tc_"@ + decimal(n)
}

fn make_call_id(n: u64) -> (r: String)
    ensures
        r@ == call_id(n as nat),
{
    cat2("ollama_tc_", &decimal_text(n))
}

/// The message of a response. Without tool calls it has text in any case.
pub open spec fn answer_message(a: AnswerView) -> MessageView {
    MessageView {
        role: Role::Assistant,
        content: if a.tool_calls.len() == 0 && a.content is None {
            Some(Seq::empty())
        } else {
            a.content
        },
        tool_calls: Seq::new(
            a.tool_calls.len(),
            |i: int|
                ToolCallView {
                    id: call_id(i as nat),
                    name: a.tool_calls[i].name,
                    arguments: a.tool_calls[i].arguments,
                },
        ),
        tool_call_id: None,
    }
}

/// Whether a result is that of an answer.
pub open spec fn answers(record: RecordView, r: Result<ChatResponse>) -> bool {
    match record.message {
        None => r is Err && r->Err_0@ == ErrorView::Model("missing message in Ollama response"@),
        Some(a) => {
            &&& r is Ok
            &&& r->Ok_0.message@ == answer_message(a)
            &&& r->Ok_0.stop_reason == if a.tool_calls.len() > 0 {
                StopReason::ToolUse
            } else {
                StopReason::EndTurn
            }
            &&& r->Ok_0.usage == match record.prompt_eval_count {
                Some(n) => Some(
                    Usage {
                        input_tokens: n,
                        output_tokens: match record.eval_count {
                            Some(m) => m,
                            None => 0,
                        },
                        cached_tokens: 0,
                    },
                ),
                None => None,
            }
        },
    }
}

/// Turns an answer into a response.
pub fn parse_response(resp: OllamaResponse) -> (r: Result<ChatResponse>)
    ensures
        answers(resp@, r),
{
    let msg = match resp.message {
        Some(m) => m,
        None => {
            return Err(DaimonError::Model(owned("missing message in Ollama response")));
        },
    };
    let ghost answer = msg@;
    let has_tool_calls = msg.tool_calls.len() > 0;
    let mut calls: Vec<ToolCall> = Vec::new();
    let mut i: usize = 0;
    while i < msg.tool_calls.len()
        invariant
            i <= msg.tool_calls@.len(),
            answer == msg@,
            calls@.len() == i,
            forall|j: int|
                0 <= j < i ==> (#[trigger] calls@[j])@ == answer_message(answer).tool_calls[j],
        decreases msg.tool_calls@.len() - i,
    {
        let call = &msg.tool_calls[i];
        assert(call@ == answer.tool_calls[i as int]);
        calls.push(
            ToolCall {
                id: make_call_id(i as u64),
                name: call.function.name.clone(),
                arguments: call.function.arguments.duplicate(),
            },
        );
        i += 1;
    }
    assert(call_views(calls@) =~= answer_message(answer).tool_calls);
    let content = match msg.content {
        Some(t) => Some(t),
        None => if has_tool_calls {
            None
        } else {
            let none = String::new();
            assert(none@ =~= Seq::<char>::empty());
            Some(none)
        },
    };
    let usage = match resp.prompt_eval_count {
        Some(n) => Some(
            Usage {
                input_tokens: n,
                output_tokens: match resp.eval_count {
                    Some(m) => m,
                    None => 0,
                },
                cached_tokens: 0,
            },
        ),
        None => None,
    };
    Ok(
        ChatResponse {
            message: Message {
                role: Role::Assistant,
                content,
                tool_calls: calls,
                tool_call_id: None,
            },
            stop_reason: if has_tool_calls {
                StopReason::ToolUse
            } else {
                StopReason::EndTurn
            },
            usage,
        },
    )
}

/// The tool call that a JSON object stands for. Arguments that are missing count
/// as `null`.
pub open spec fn json_function(v: JsonView) -> Option<FunctionView> {
    let v = placed(v, seq!["function"@], 1);
    match v.field("function"@) {
        Some(f) => {
            let f = placed(f, seq!["name"@, "arguments"@], 1);
            match text_at(f, "name"@) {
                Some(name) => Some(
                    FunctionView {
                        name,
                        arguments: match f.field("arguments"@) {
                            Some(a) => a,
                            None => JsonView::Null,
                        },
                    },
                ),
                None => None,
            }
        },
        None => None,
    }
}

/// The tool calls that a member stands for; one that is missing holds none.
pub open spec fn json_functions(v: Option<JsonView>) -> Option<Seq<FunctionView>> {
    match v {
        None => Some(Seq::empty()),
        Some(JsonView::Array(items)) => if forall|i: int|
            0 <= i < items.len() ==> json_function(#[trigger] items[i]) is Some {
            Some(Seq::new(items.len(), |i: int| json_function(items[i])->0))
        } else {
            None
        },
        _ => None,
    }
}

/// The message that a JSON object stands for.
pub open spec fn json_answer(v: JsonView) -> Option<AnswerView> {
    let v = placed(v, seq!["content"@, "tool_calls"@], 0);
    if v is Object {
        match (opt_text_at(v, "content"@), json_functions(v.field("tool_calls"@))) {
            (Some(content), Some(tool_calls)) => Some(AnswerView { content, tool_calls }),
            _ => None,
        }
    } else {
        None
    }
}

/// A message that may be missing or `null`.
pub open spec fn opt_answer_at(v: JsonView) -> Option<Option<AnswerView>> {
    match v.field("message"@) {
        None => Some(None),
        Some(JsonView::Null) => Some(None),
        Some(m) => match json_answer(m) {
            Some(a) => Some(Some(a)),
            None => None,
        },
    }
}

/// The answer that a JSON object stands for.
pub open spec fn json_record(v: JsonView) -> Option<RecordView> {
    let v = placed(v, seq!["message"@, "done"@, "prompt_eval_count"@, "eval_count"@], 0);
    if v is Object {
        match (
            opt_answer_at(v),
            flag_at(v, "done"@),
            opt_u32_at(v, "prompt_eval_count"@),
            opt_u32_at(v, "eval_count"@),
        ) {
            (Some(message), Some(done), Some(prompt_eval_count), Some(eval_count)) => Some(
                RecordView { message, done, prompt_eval_count, eval_count },
            ),
            _ => None,
        }
    } else {
        None
    }
}

fn read_function(v: &Json) -> (r: Option<OllamaToolCall>)
    ensures
        match r {
            Some(c) => json_function(v@) == Some(c@),
            None => json_function(v@) is None,
        },
{
    let held = place1(v, "function", 1);
    let v = match &held {
        Some(p) => p,
        None => v,
    };
    match v.get("function") {
        Some(f) => {
            let held = place2(f, "name", "arguments", 1);
            let f = match &held {
                Some(p) => p,
                None => f,
            };
            match read_text(f, "name") {
                Some(name) => Some(
                    OllamaToolCall {
                        function: OllamaFunction {
                            name,
                            arguments: match f.get("arguments") {
                                Some(a) => a.duplicate(),
                                None => Json::Null,
                            },
                        },
                    },
                ),
                None => None,
            }
        },
        None => None,
    }
}

fn read_functions(v: Option<&Json>) -> (r: Option<Vec<OllamaToolCall>>)
    ensures
        ({
            let view = match v {
                Some(j) => Some(j@),
                None => None,
            };
            match r {
                Some(calls) => json_functions(view) == Some(function_views(calls@)),
                None => json_functions(view) is None,
            }
        }),
{
    let mut calls: Vec<OllamaToolCall> = Vec::new();
    match v {
        None => {
            assert(function_views(calls@) =~= Seq::<FunctionView>::empty());
            Some(calls)
        },
        Some(Json::Array(items)) => {
            let ghost all = json_views(items@);
            assert(v->0@->Array_0 =~= all);
            let mut i: usize = 0;
            while i < items.len()
                invariant
                    i <= items@.len(),
                    all == json_views(items@),
                    v is Some,
                    v->0@ == JsonView::Array(all),
                    calls@.len() == i,
                    forall|j: int|
                        0 <= j < i ==> json_function(all[j]) == Some((#[trigger] calls@[j])@),
                decreases items@.len() - i,
            {
                match read_function(&items[i]) {
                    Some(c) => {
                        calls.push(c);
                    },
                    None => {
                        assert(json_function(all[i as int]) is None);
                        return None;
                    },
                }
                i += 1;
            }
            proof {
                assert forall|j: int| 0 <= j < all.len() implies json_function(
                    #[trigger] all[j],
                ) is Some by {
                    assert(json_function(all[j]) == Some(calls@[j]@));
                }
                assert(json_functions(Some(v->0@))->0 =~= function_views(calls@));
            }
            Some(calls)
        },
        _ => None,
    }
}

fn read_answer(v: &Json) -> (r: Option<OllamaMessage>)
    ensures
        match r {
            Some(m) => json_answer(v@) == Some(m@),
            None => json_answer(v@) is None,
        },
{
    let held = place2(v, "content", "tool_calls", 0);
    let v = match &held {
        Some(p) => p,
        None => v,
    };
    if !is_object(v) {
        return None;
    }
    match (read_opt_text(v, "content"), read_functions(v.get("tool_calls"))) {
        (Some(content), Some(tool_calls)) => Some(OllamaMessage { content, tool_calls }),
        _ => None,
    }
}

fn read_opt_answer(v: &Json) -> (r: Option<Option<OllamaMessage>>)
    ensures
        match r {
            Some(Some(m)) => opt_answer_at(v@) == Some(Some(m@)),
            Some(None) => opt_answer_at(v@) == Some(None::<AnswerView>),
            None => opt_answer_at(v@) is None,
        },
{
    match v.get("message") {
        None => Some(None),
        Some(Json::Null) => Some(None),
        Some(m) => match read_answer(m) {
            Some(m) => Some(Some(m)),
            None => None,
        },
    }
}

/// The answer that a JSON object stands for.
pub fn read_record(v: &Json) -> (r: Option<OllamaResponse>)
    ensures
        match r {
            Some(record) => json_record(v@) == Some(record@),
            None => json_record(v@) is None,
        },
{
    let held = place4(v, "message", "done", "prompt_eval_count", "eval_count", 0);
    let v = match &held {
        Some(p) => p,
        None => v,
    };
    if !is_object(v) {
        return None;
    }
    match (
        read_opt_answer(v),
        read_flag(v, "done"),
        read_opt_u32(v, "prompt_eval_count"),
        read_opt_u32(v, "eval_count"),
    ) {
        (Some(message), Some(done), Some(prompt_eval_count), Some(eval_count)) => Some(
            OllamaResponse { message, done, prompt_eval_count, eval_count },
        ),
        _ => None,
    }
}

/// The answer that a text stands for, or the error in words.
pub open spec fn text_record(text: Seq<char>) -> std::result::Result<RecordView, Seq<char>> {
    match parsed_json(text) {
        Ok(v) => match json_record(v) {
            Some(record) => Ok(record),
            None => Err("not an Ollama response"@),
        },
        Err(e) => Err(e),
    }
}

/// Reads an answer.
pub fn record_from_text(text: &str) -> (r: std::result::Result<OllamaResponse, String>)
    ensures
        match r {
            Ok(record) => text_record(text@) == Ok::<RecordView, Seq<char>>(record@),
            Err(e) => text_record(text@) == Err::<RecordView, Seq<char>>(e@),
        },
{
    match Json::parse(text) {
        Ok(v) => match read_record(&v) {
            Some(record) => Ok(record),
            None => Err(owned("not an Ollama response")),
        },
        Err(e) => Err(e),
    }
}

/// The error for an answer with a bad status.
pub open spec fn api_error(status: Seq<char>, body: Seq<char>) -> ErrorView {
    ErrorView::Model("Ollama "@ + status + ": "@ + body)
}

/// Whether a result is that of the service's answer.
pub open spec fn exchange_ends(
    code: u16,
    status: Seq<char>,
    body: Seq<char>,
    r: Result<ChatResponse>,
) -> bool {
    if 200 <= code < 300 {
        match text_record(body) {
            Ok(record) => answers(record, r),
            Err(e) => r is Err && r->Err_0@ == ErrorView::Model(e),
        }
    } else {
        r is Err && r->Err_0@ == api_error(status, body)
    }
}

/// The result of a request by the service's answer. `status` is the status in
/// words.
pub fn response_from_answer(code: u16, status: &str, body: &str) -> (r: Result<ChatResponse>)
    ensures
        exchange_ends(code, status@, body@, r),
{
    if 200 <= code && code < 300 {
        match record_from_text(body) {
            Ok(record) => parse_response(record),
            Err(e) => Err(DaimonError::Model(e)),
        }
    } else {
        Err(DaimonError::Model(cat4("Ollama ", status, ": ", body)))
    }
}

// ---------------------------------------------------------------------
// Streams
// ---------------------------------------------------------------------

/// What tool calls become, numbered from `seq` on, and the number after them.
pub open spec fn call_events(seq: u64, calls: Seq<FunctionView>) -> (u64, Seq<EventView>)
    decreases calls.len(),
{
    if calls.len() == 0 {
        (seq, Seq::empty())
    } else {
        let (n, before) = call_events(seq, calls.drop_last());
        let id = call_id(n as nat);
        (
            n.wrapping_add(1),
            before + seq![
                EventView::ToolCallStart { id, name: calls.last().name },
                EventView::ToolCallDelta { id, arguments_delta: json_text(calls.last().arguments) },
                EventView::ToolCallEnd { id },
            ],
        )
    }
}

/// What a record becomes, and the number of the next tool call: its tool calls,
/// then its text, then the end.
pub open spec fn record_events(seq: u64, r: RecordView) -> (u64, Seq<EventView>) {
    let (n, calls) = match r.message {
        Some(m) => call_events(seq, m.tool_calls),
        None => (seq, Seq::empty()),
    };
    let text = match r.message {
        Some(m) => match m.content {
            Some(t) => if t.len() > 0 {
                seq![EventView::TextDelta(t)]
            } else {
                Seq::empty()
            },
            None => Seq::empty(),
        },
        None => Seq::empty(),
    };
    let end = if r.done {
        seq![EventView::Done]
    } else {
        Seq::empty()
    };
    (n, calls + text + end)
}

/// How far a stream has been read.
pub struct Progress {
    /// The number of the next tool call.
    pub seq: u64,
    pub events: Seq<EventView>,
    /// The error at which the stream broke off.
    pub failure: Option<ErrorView>,
    /// Whether the stream broke off; nothing behind counts.
    pub over: bool,
}

/// How far a stream has been read after one more line.
pub open spec fn after_line(p: Progress, line: Seq<char>) -> Progress {
    if p.over || line.len() == 0 {
        p
    } else {
        match text_record(line) {
            Ok(record) => {
                let (seq, more) = record_events(p.seq, record);
                Progress { seq, events: p.events + more, ..p }
            },
            Err(e) => Progress {
                failure: Some(ErrorView::Model("invalid JSON: "@ + e)),
                over: true,
                ..p
            },
        }
    }
}

/// How far a stream has been read after some lines.
pub open spec fn after_lines(p: Progress, lines: Seq<Seq<u8>>) -> Progress
    decreases lines.len(),
{
    if lines.len() == 0 {
        p
    } else {
        after_line(after_lines(p, lines.drop_last()), trimmed(line_text(lines.last())))
    }
}

/// What is known of a stream between two pieces.
pub struct StreamView {
    /// The bytes behind the last complete line.
    pub pending: Seq<u8>,
    pub seq: u64,
    pub over: bool,
}

impl StreamView {
    /// Nothing new has been read.
    pub open spec fn start(self) -> Progress {
        Progress { seq: self.seq, events: Seq::empty(), failure: None, over: self.over }
    }
}

/// A stream after a piece, and what the piece becomes.
pub open spec fn received(s: StreamView, chunk: Seq<u8>) -> (StreamView, Progress) {
    let (lines, pending) = split(s.pending + chunk, NEWLINE);
    let p = after_lines(s.start(), lines);
    (StreamView { pending, seq: p.seq, over: p.over }, p)
}

/// What is left to give when a stream ends: its last line may lack its end.
pub open spec fn last_progress(s: StreamView) -> Progress {
    if s.pending.len() == 0 {
        s.start()
    } else {
        after_line(s.start(), trimmed(line_text(s.pending)))
    }
}

/// The events that a piece of a stream completes, and the error at which the
/// stream breaks off behind them, if it does.
#[derive(Debug, PartialEq)]
pub struct StreamStep {
    pub events: Vec<StreamEvent>,
    pub failure: Option<DaimonError>,
}

/// Whether a step gives what was read.
pub open spec fn gives(step: StreamStep, p: Progress) -> bool {
    &&& event_views(step.events@) == p.events
    &&& step.failure is Some == p.failure is Some
    &&& step.failure matches Some(e) ==> e@ == p.failure->0
}

/// The service's stream, read in pieces as they arrive.
pub struct OllamaStream {
    buffer: LineBuffer,
    tool_call_seq: u64,
    over: bool,
}

impl View for OllamaStream {
    type V = StreamView;

    closed spec fn view(&self) -> StreamView {
        StreamView { pending: self.buffer@, seq: self.tool_call_seq, over: self.over }
    }
}

fn push_call_events(seq: u64, calls: &Vec<OllamaToolCall>, events: &mut Vec<StreamEvent>) -> (r:
    u64)
    ensures
        (r, event_views(final(events)@)) == (
            call_events(seq, function_views(calls@)).0,
            event_views(old(events)@) + call_events(seq, function_views(calls@)).1,
        ),
{
    let ghost all = function_views(calls@);
    let ghost start = event_views(events@);
    let mut n: u64 = seq;
    let mut i: usize = 0;
    assert(all.take(0) =~= Seq::<FunctionView>::empty());
    assert(start + Seq::<EventView>::empty() =~= start);
    while i < calls.len()
        invariant
            i <= calls@.len(),
            all == function_views(calls@),
            n == call_events(seq, all.take(i as int)).0,
            event_views(events@) == start + call_events(seq, all.take(i as int)).1,
        decreases calls@.len() - i,
    {
        let ghost before = event_views(events@);
        let ghost earlier = call_events(seq, all.take(i as int)).1;
        assert(all.take(i + 1).drop_last() =~= all.take(i as int));
        assert(all.take(i + 1).last() == calls@[i as int]@);
        let call = &calls[i];
        let id = make_call_id(n);
        events.push(
            StreamEvent::ToolCallStart { id: id.clone(), name: call.function.name.clone() },
        );
        events.push(
            StreamEvent::ToolCallDelta {
                id: id.clone(),
                arguments_delta: call.function.arguments.to_text(),
            },
        );
        events.push(StreamEvent::ToolCallEnd { id });
        let ghost three = seq![
            EventView::ToolCallStart { id: call_id(n as nat), name: call@.name },
            EventView::ToolCallDelta {
                id: call_id(n as nat),
                arguments_delta: json_text(call@.arguments),
            },
            EventView::ToolCallEnd { id: call_id(n as nat) },
        ];
        assert(event_views(events@) =~= before + three);
        assert(start + earlier + three =~= start + (earlier + three));
        n = n.wrapping_add(1);
        i += 1;
    }
    assert(all.take(i as int) =~= all);
    n
}

impl OllamaStream {
    /// A stream of which nothing has arrived.
    pub fn new() -> (r: Self)
        ensures
            r@ == (StreamView { pending: Seq::empty(), seq: 0, over: false }),
    {
        OllamaStream { buffer: LineBuffer::new(), tool_call_seq: 0, over: false }
    }

    fn take_record(&mut self, record: OllamaResponse, events: &mut Vec<StreamEvent>)
        ensures
            final(self)@ == (StreamView {
                seq: record_events(old(self)@.seq, record@).0,
                ..old(self)@
            }),
            event_views(final(events)@) == event_views(old(events)@) + record_events(
                old(self)@.seq,
                record@,
            ).1,
    {
        let ghost start = event_views(events@);
        let ghost seq = self@.seq;
        let ghost view = record@;
        let ghost (n, calls) = match view.message {
            Some(m) => call_events(seq, m.tool_calls),
            None => (seq, Seq::empty()),
        };
        let ghost text = match view.message {
            Some(m) => match m.content {
                Some(t) => if t.len() > 0 {
                    seq![EventView::TextDelta(t)]
                } else {
                    Seq::empty()
                },
                None => Seq::empty(),
            },
            None => Seq::empty(),
        };
        assert(start + Seq::<EventView>::empty() =~= start);
        if let Some(msg) = &record.message {
            self.tool_call_seq = push_call_events(self.tool_call_seq, &msg.tool_calls, events);
            assert(event_views(events@) == start + calls);
            if let Some(content) = &msg.content {
                if content.as_str().unicode_len() > 0 {
                    let ghost before = event_views(events@);
                    let piece = StreamEvent::TextDelta(content.clone());
                    let ghost seen = piece@;
                    events.push(piece);
                    assert(event_views(events@) =~= before.push(seen));
                }
            }
        }
        assert(event_views(events@) =~= start + (calls + text));
        if record.done {
            let ghost before = event_views(events@);
            events.push(StreamEvent::Done);
            assert(event_views(events@) =~= before.push(EventView::Done));
        }
        assert(event_views(events@) =~= start + record_events(seq, view).1);
    }

    fn take_line(
        &mut self,
        line: &str,
        events: &mut Vec<StreamEvent>,
        failure: &mut Option<DaimonError>,
    )
        ensures
            final(self)@.pending == old(self)@.pending,
            ({
                let before = Progress {
                    seq: old(self)@.seq,
                    events: event_views(old(events)@),
                    failure: match *old(failure) {
                        Some(e) => Some(e@),
                        None => None,
                    },
                    over: old(self)@.over,
                };
                let after = Progress {
                    seq: final(self)@.seq,
                    events: event_views(final(events)@),
                    failure: match *final(failure) {
                        Some(e) => Some(e@),
                        None => None,
                    },
                    over: final(self)@.over,
                };
                after == after_line(before, line@)
            }),
    {
        if self.over || line.unicode_len() == 0 {
            return;
        }
        match record_from_text(line) {
            Ok(record) => {
                self.take_record(record, events);
            },
            Err(e) => {
                *failure = Some(DaimonError::Model(cat2("invalid JSON: ", &e)));
                self.over = true;
            },
        }
    }

    /// Takes a piece of the stream and gives what is complete with it.
    pub fn push(&mut self, chunk: &[u8]) -> (r: StreamStep)
        ensures
            final(self)@ == received(old(self)@, chunk@).0,
            gives(r, received(old(self)@, chunk@).1),
    {
        let ghost start = self@.start();
        self.buffer.push(chunk);
        let ghost (all, rest) = split(self.buffer@, NEWLINE);
        let ghost mut done: Seq<Seq<u8>> = Seq::empty();
        let mut events: Vec<StreamEvent> = Vec::new();
        let mut failure: Option<DaimonError> = None;
        assert(event_views(events@) =~= Seq::<EventView>::empty());
        assert(done + all =~= all);
        loop
            invariant
                done + split(self.buffer@, NEWLINE).0 == all,
                split(self.buffer@, NEWLINE).1 == rest,
                (Progress {
                    seq: self@.seq,
                    events: event_views(events@),
                    failure: match failure {
                        Some(e) => Some(e@),
                        None => None,
                    },
                    over: self@.over,
                }) == after_lines(start, done),
            ensures
                self.buffer@ == rest,
                (Progress {
                    seq: self@.seq,
                    events: event_views(events@),
                    failure: match failure {
                        Some(e) => Some(e@),
                        None => None,
                    },
                    over: self@.over,
                }) == after_lines(start, all),
            decreases self.buffer@.len(),
        {
            let ghost lines = split(self.buffer@, NEWLINE).0;
            match self.buffer.next_line() {
                Some(line) => {
                    let line = trim_text(&line);
                    proof {
                        let grown = done.push(lines[0]);
                        assert(grown.drop_last() =~= done);
                        assert(grown + lines.skip(1) =~= done + lines);
                        done = grown;
                    }
                    self.take_line(&line, &mut events, &mut failure);
                },
                None => {
                    assert(done + Seq::<Seq<u8>>::empty() =~= done);
                    break;
                },
            }
        }
        StreamStep { events, failure }
    }

    /// Gives what is left when the stream has ended.
    pub fn finish(&mut self) -> (r: StreamStep)
        ensures
            gives(r, last_progress(old(self)@)),
            final(self)@ == (StreamView {
                pending: Seq::empty(),
                seq: last_progress(old(self)@).seq,
                over: last_progress(old(self)@).over,
            }),
    {
        let mut events: Vec<StreamEvent> = Vec::new();
        let mut failure: Option<DaimonError> = None;
        assert(event_views(events@) =~= Seq::<EventView>::empty());
        match self.buffer.take_remaining() {
            Some(line) => {
                let line = trim_text(&line);
                self.take_line(&line, &mut events, &mut failure);
            },
            None => {},
        }
        StreamStep { events, failure }
    }
}

proof fn lemma_line_behind(p: Progress, earlier: Seq<EventView>, line: Seq<char>)
    requires
        p.failure is None || p.over,
    ensures
        after_line(Progress { events: earlier + p.events, ..p }, line) == (Progress {
            events: earlier + after_line(p, line).events,
            ..after_line(p, line)
        }),
{
    if !p.over && line.len() > 0 {
        if let Ok(record) = text_record(line) {
            let more = record_events(p.seq, record).1;
            assert((earlier + p.events) + more =~= earlier + (p.events + more));
        }
    }
}

proof fn lemma_lines_in_two_parts(p: Progress, a: Seq<Seq<u8>>, b: Seq<Seq<u8>>)
    ensures
        after_lines(p, a + b) == after_lines(after_lines(p, a), b),
    decreases b.len(),
{
    if b.len() == 0 {
        assert(a + b =~= a);
    } else {
        lemma_lines_in_two_parts(p, a, b.drop_last());
        assert((a + b).drop_last() =~= a + b.drop_last());
    }
}

proof fn lemma_lines_behind(p: Progress, earlier: Seq<EventView>, lines: Seq<Seq<u8>>)
    requires
        p.failure is None,
    ensures
        after_lines(Progress { events: earlier + p.events, ..p }, lines) == (Progress {
            events: earlier + after_lines(p, lines).events,
            ..after_lines(p, lines)
        }),
        after_lines(p, lines).failure is None || after_lines(p, lines).over,
    decreases lines.len(),
{
    if lines.len() > 0 {
        lemma_lines_behind(p, earlier, lines.drop_last());
        lemma_line_behind(
            after_lines(p, lines.drop_last()),
            earlier,
            trimmed(line_text(lines.last())),
        );
    }
}

proof fn lemma_nothing_behind_the_end(p: Progress, lines: Seq<Seq<u8>>)
    requires
        p.over,
    ensures
        after_lines(p, lines) == p,
    decreases lines.len(),
{
    if lines.len() > 0 {
        lemma_nothing_behind_the_end(p, lines.drop_last());
    }
}

/// How a stream is cut into pieces does not matter, not even inside a character:
/// the events are the same, the stream breaks off at the same error, and nothing
/// comes behind it.
pub proof fn pieces_do_not_matter(s: StreamView, a: Seq<u8>, b: Seq<u8>)
    ensures
        ({
            let (mid, first) = received(s, a);
            let (end, second) = received(mid, b);
            let (whole, all) = received(s, a + b);
            &&& whole == end
            &&& all.events == first.events + second.events
            &&& all.failure == if first.failure is Some {
                first.failure
            } else {
                second.failure
            }
        }),
{
    assert(s.pending + (a + b) =~= (s.pending + a) + b);
    cuts_do_not_matter(s.pending + a, b, NEWLINE);
    let (lines, pending) = split(s.pending + a, NEWLINE);
    let more = split(pending + b, NEWLINE).0;
    lemma_lines_in_two_parts(s.start(), lines, more);
    let (mid, first) = received(s, a);
    let (end, second) = received(mid, b);
    lemma_lines_behind(s.start(), Seq::empty(), lines);
    if first.over {
        lemma_nothing_behind_the_end(first, more);
        lemma_nothing_behind_the_end(mid.start(), more);
        assert(first.events + second.events =~= first.events);
    } else {
        lemma_lines_behind(mid.start(), first.events, more);
        assert(first.events + mid.start().events =~= first.events);
        assert((Progress { events: first.events + mid.start().events, ..mid.start() }) == first);
    }
}

/// Two tool calls of a stream have different identifiers as long as numbers
/// last.
pub proof fn call_ids_differ(a: nat, b: nat)
    requires
        a != b,
    ensures
        call_id(a) != call_id(b),
{
    if call_id(a) == call_id(b) {
        let head = "ollama_tc_"@;
        assert(call_id(a).skip(head.len() as int) =~= decimal(a));
        assert(call_id(b).skip(head.len() as int) =~= decimal(b));
        lemma_decimal_injective(a, b);
    }
}

/// Within a record the numbers of tool calls go up, and each call gives its start,
/// the text of its arguments and its end, one right behind the other.
pub proof fn numbers_go_up(seq: u64, calls: Seq<FunctionView>)
    requires
        seq + calls.len() <= u64::MAX,
    ensures
        call_events(seq, calls).0 == seq + calls.len(),
        call_events(seq, calls).1.len() == 3 * calls.len(),
        forall|i: int|
            0 <= i < calls.len() ==> call_at(
                call_events(seq, calls).1,
                3 * i,
                (seq + i) as nat,
                #[trigger] calls[i],
            ),
    decreases calls.len(),
{
    if calls.len() > 0 {
        let init = calls.drop_last();
        numbers_go_up(seq, init);
        let before = call_events(seq, init).1;
        let events = call_events(seq, calls).1;
        assert(forall|j: int| 0 <= j < before.len() ==> before[j] == events[j]);
        assert forall|i: int| 0 <= i < calls.len() implies call_at(
            events,
            3 * i,
            (seq + i) as nat,
            #[trigger] calls[i],
        ) by {
            if i < init.len() {
                assert(init[i] == calls[i]);
                assert(call_at(before, 3 * i, (seq + i) as nat, init[i]));
            }
        }
    }
}

/// Whether a tool call with a number stands at a position of events: its start, the
/// text of its arguments and its end.
pub open spec fn call_at(events: Seq<EventView>, at: int, n: nat, call: FunctionView) -> bool {
    let id = call_id(n);
    &&& 0 <= at
    &&& at + 2 < events.len()
    &&& events[at] == (EventView::ToolCallStart { id, name: call.name })
    &&& events[at + 1] == (EventView::ToolCallDelta {
        id,
        arguments_delta: json_text(call.arguments),
    })
    &&& events[at + 2] == (EventView::ToolCallEnd { id })
}

/// Whether an event belongs to a tool call.
pub open spec fn of_a_call(e: EventView) -> bool {
    e is ToolCallStart || e is ToolCallDelta || e is ToolCallEnd
}

/// Whether events hold these tool calls and no others, the first numbered zero and
/// each of the rest by one more, at these positions.
pub open spec fn numbered(events: Seq<EventView>, calls: Seq<FunctionView>, at: Seq<int>) -> bool {
    &&& at.len() == calls.len()
    &&& forall|i: int|
        0 <= i < calls.len() ==> call_at(events, #[trigger] at[i], i as nat, calls[i])
    &&& forall|i: int, j: int| 0 <= i < j < at.len() ==> #[trigger] at[i] + 3 <= #[trigger] at[j]
    &&& forall|j: int|
        0 <= j < events.len() && of_a_call(#[trigger] events[j]) ==> exists|i: int|
            0 <= i < at.len() && #[trigger] at[i] <= j < at[i] + 3
}

/// The tool calls of a line.
pub open spec fn line_calls(line: Seq<char>) -> Seq<FunctionView> {
    if line.len() == 0 {
        Seq::empty()
    } else {
        match text_record(line) {
            Ok(record) => match record.message {
                Some(m) => m.tool_calls,
                None => Seq::empty(),
            },
            Err(_) => Seq::empty(),
        }
    }
}

/// A stream of which nothing has arrived.
pub open spec fn fresh() -> StreamView {
    StreamView { pending: Seq::empty(), seq: 0, over: false }
}

/// The tool calls of the lines of a stream, up to the one at which it breaks off.
pub open spec fn calls_read(lines: Seq<Seq<u8>>) -> Seq<FunctionView>
    decreases lines.len(),
{
    if lines.len() == 0 {
        Seq::empty()
    } else {
        let before = calls_read(lines.drop_last());
        if after_lines(fresh().start(), lines.drop_last()).over {
            before
        } else {
            before + line_calls(trimmed(line_text(lines.last())))
        }
    }
}

/// The lines of a body. The last may lack its end.
pub open spec fn body_lines(body: Seq<u8>) -> Seq<Seq<u8>> {
    let (lines, pending) = split(body, NEWLINE);
    if pending.len() == 0 {
        lines
    } else {
        lines.push(pending)
    }
}

/// What a whole body becomes: what its pieces complete, and what is left at its
/// end.
pub open spec fn body_read(body: Seq<u8>) -> Progress {
    let (s, first) = received(fresh(), body);
    let last = last_progress(s);
    Progress {
        seq: last.seq,
        events: first.events + last.events,
        failure: if first.failure is Some {
            first.failure
        } else {
            last.failure
        },
        over: last.over,
    }
}

/// Reads the whole body of a stream at once.
pub fn read_body(body: &[u8]) -> (r: StreamStep)
    ensures
        gives(r, body_read(body@)),
{
    let mut stream = OllamaStream::new();
    let StreamStep { mut events, failure } = stream.push(body);
    let StreamStep { events: rest, failure: late } = stream.finish();
    let ghost first = event_views(events@);
    let ghost last = event_views(rest@);
    let ghost all = rest@;
    for event in it: rest
        invariant
            it.seq() == all,
            last == event_views(all),
            event_views(events@) == first + last.take(it.index()),
    {
        let ghost before = event_views(events@);
        let ghost i = it.index();
        assert(event == all[i]);
        events.push(event);
        proof {
            assert(event_views(events@) =~= before.push(event@));
            assert(first + last.take(i + 1) =~= (first + last.take(i)).push(last[i]));
        }
    }
    assert(last.take(last.len() as int) =~= last);
    let failure = match failure {
        Some(e) => Some(e),
        None => late,
    };
    StreamStep { events, failure }
}

/// A body is read line by line.
pub proof fn bodies_are_read_by_lines(body: Seq<u8>)
    ensures
        body_read(body) == after_lines(fresh().start(), body_lines(body)),
{
    assert(fresh().pending + body =~= body);
    let (lines, pending) = split(body, NEWLINE);
    let (s, first) = received(fresh(), body);
    lemma_lines_behind(fresh().start(), Seq::empty(), lines);
    if pending.len() == 0 {
        assert(first.events + s.start().events =~= first.events);
    } else {
        assert(lines.push(pending).drop_last() =~= lines);
        let line = trimmed(line_text(pending));
        if first.over {
            assert(first.events + last_progress(s).events =~= first.events);
        } else {
            lemma_line_behind(s.start(), first.events, line);
            assert(first.events + s.start().events =~= first.events);
            assert((Progress { events: first.events + s.start().events, ..s.start() }) == first);
        }
    }
}

/// A body without its last line end gives the same events and the same failure.
pub proof fn the_last_line_end_does_not_matter(body: Seq<u8>)
    ensures
        body_read(body.push(NEWLINE)) == body_read(body),
{
    bodies_are_read_by_lines(body);
    bodies_are_read_by_lines(body.push(NEWLINE));
    let (lines, pending) = split(body, NEWLINE);
    assert(body.push(NEWLINE).drop_last() =~= body);
    if pending.len() == 0 {
        assert(lines.push(pending).drop_last() =~= lines);
        let line = trimmed(line_text(pending));
        assert(line.len() == 0);
    }
}

proof fn lemma_line_numbered(
    p: Progress,
    calls: Seq<FunctionView>,
    at: Seq<int>,
    line: Seq<char>,
) -> (grown: Seq<int>)
    requires
        !p.over,
        p.seq == calls.len(),
        numbered(p.events, calls, at),
        calls.len() + line_calls(line).len() <= u64::MAX,
    ensures
        numbered(after_line(p, line).events, calls + line_calls(line), grown),
        after_line(p, line).seq == calls.len() + line_calls(line).len(),
{
    let more = line_calls(line);
    let all = calls + more;
    let n = p.events.len();
    let after = after_line(p, line);
    if line.len() == 0 || text_record(line) is Err {
        assert(all =~= calls);
        at
    } else {
        let record = text_record(line)->Ok_0;
        numbers_go_up(p.seq, more);
        let new = call_events(p.seq, more).1;
        assert(record.message is None ==> new =~= Seq::<EventView>::empty());
        let events = record_events(p.seq, record).1;
        assert(forall|j: int| 0 <= j < new.len() ==> events[j] == new[j]);
        assert(after.events == p.events + events);
        let grown = at + Seq::new(more.len(), |i: int| n + 3 * i);
        assert forall|i: int| 0 <= i < all.len() implies call_at(
            after.events,
            #[trigger] grown[i],
            i as nat,
            all[i],
        ) by {
            if i < calls.len() {
                assert(call_at(p.events, at[i], i as nat, calls[i]));
            } else {
                let k = i - calls.len();
                assert(call_at(new, 3 * k, (p.seq + k) as nat, more[k]));
            }
        }
        assert forall|i: int, j: int| 0 <= i < j < grown.len() implies #[trigger] grown[i] + 3
            <= #[trigger] grown[j] by {
            if j < calls.len() {
                assert(at[i] + 3 <= at[j]);
            } else if i < calls.len() {
                assert(call_at(p.events, at[i], i as nat, calls[i]));
            }
        }
        assert forall|j: int|
            0 <= j < after.events.len() && of_a_call(#[trigger] after.events[j]) implies exists|
            i: int,
        |
            0 <= i < grown.len() && #[trigger] grown[i] <= j < grown[i] + 3 by {
            if j < n {
                assert(p.events[j] == after.events[j]);
                let i = choose|i: int| 0 <= i < at.len() && #[trigger] at[i] <= j < at[i] + 3;
                assert(grown[i] == at[i]);
            } else {
                assert(events[j - n] == after.events[j]);
                assert(j - n < new.len());
                let k = (j - n) / 3;
                assert(grown[calls.len() + k] == n + 3 * k);
            }
        }
        grown
    }
}

/// The i-th tool call of a whole stream, whatever record it stands in, is numbered
/// i. Its start, the text of its arguments and its end carry that identifier, one
/// right behind the other, and nothing else belongs to a tool call.
pub proof fn calls_are_numbered_over_the_stream(lines: Seq<Seq<u8>>) -> (at: Seq<int>)
    requires
        calls_read(lines).len() <= u64::MAX,
    ensures
        numbered(after_lines(fresh().start(), lines).events, calls_read(lines), at),
        after_lines(fresh().start(), lines).seq == calls_read(lines).len(),
    decreases lines.len(),
{
    if lines.len() == 0 {
        Seq::empty()
    } else {
        let init = lines.drop_last();
        let at = calls_are_numbered_over_the_stream(init);
        let p = after_lines(fresh().start(), init);
        if p.over {
            at
        } else {
            lemma_line_numbered(p, calls_read(init), at, trimmed(line_text(lines.last())))
        }
    }
}

/// The i-th tool call of a whole body is numbered i, and no two calls have the same
/// identifier.
pub proof fn calls_are_numbered_over_the_body(body: Seq<u8>) -> (at: Seq<int>)
    requires
        calls_read(body_lines(body)).len() <= u64::MAX,
    ensures
        numbered(body_read(body).events, calls_read(body_lines(body)), at),
        forall|i: int, j: int|
            0 <= i < j < at.len() ==> body_read(body).events[#[trigger] at[i]]->ToolCallStart_id
                != body_read(body).events[#[trigger] at[j]]->ToolCallStart_id,
{
    bodies_are_read_by_lines(body);
    let at = calls_are_numbered_over_the_stream(body_lines(body));
    let events = body_read(body).events;
    let calls = calls_read(body_lines(body));
    assert forall|i: int, j: int|
        0 <= i < j < at.len() implies events[#[trigger] at[i]]->ToolCallStart_id
        != events[#[trigger] at[j]]->ToolCallStart_id by {
        assert(call_at(events, at[i], i as nat, calls[i]));
        assert(call_at(events, at[j], j as nat, calls[j]));
        call_ids_differ(i as nat, j as nat);
    }
    at
}

} // verus!
