//! The Anthropic messages API: requests, responses and streams.

use crate::decode::{
    is_object, opt_text_at, opt_u64_at, place2, place3, place4, placed, read_opt_text,
    read_opt_u64, read_text, read_u32, read_u32_or_zero, text_at, u32_at, u32_or_zero_at,
};
use crate::error::{DaimonError, ErrorView, Result};
use crate::json::{
    json_views, make_object1, make_object2, make_object3, object1, object2, object3, parsed_json,
    Json, JsonMap, JsonView, NumberView,
};
use crate::model::line_buffer::{line_text, LineBuffer, NEWLINE};
use crate::model::types::{
    message_views, spec_views, ChatRequest, ChatResponse, Message, MessageView, RequestView, Role,
    StopReason, ToolSpec, ToolSpecView, Usage,
};
use crate::split::{cuts_do_not_matter, split};
use crate::stream::{event_views, EventView, StreamEvent};
use crate::text::{after_prefix, cat2, cat4, opt_text, owned, same, strip_prefix, trim_text, trimmed};
use crate::tool::{call_views, ToolCall, ToolCallView};
use std::collections::HashMap;
use std::time::Duration;
use vstd::prelude::*;

verus! {

/// Where the service is, unless told otherwise.
pub const DEFAULT_BASE_URL: &'static str = "https://api.anthropic.com";

/// The version of the service's interface, sent with each request.
pub const API_VERSION: &'static str = "2023-06-01";

/// Sent with each request while prompt caching is on.
pub const PROMPT_CACHING_BETA: &'static str = "prompt-caching-2024-07-31";

/// How many tokens an answer may have, unless the request says.
pub const DEFAULT_MAX_TOKENS: u32 = 4096;

/// A model behind the messages API.
#[derive(Debug)]
pub struct Anthropic {
    pub api_key: String,
    pub model_id: String,
    pub base_url: String,
    pub timeout: Option<Duration>,
    pub max_retries: u32,
    pub use_prompt_caching: bool,
}

/// A model's settings, as contracts speak of them.
pub struct AnthropicView {
    pub api_key: Seq<char>,
    pub model_id: Seq<char>,
    pub base_url: Seq<char>,
    pub timeout: Option<Duration>,
    pub max_retries: u32,
    pub use_prompt_caching: bool,
}

impl View for Anthropic {
    type V = AnthropicView;

    open spec fn view(&self) -> AnthropicView {
        AnthropicView {
            api_key: self.api_key@,
            model_id: self.model_id@,
            base_url: self.base_url@,
            timeout: self.timeout,
            max_retries: self.max_retries,
            use_prompt_caching: self.use_prompt_caching,
        }
    }
}

impl Anthropic {
    /// A model with an API key.
    pub fn with_api_key(model_id: &str, api_key: &str) -> (r: Self)
        ensures
            r@ == (AnthropicView {
                api_key: api_key@,
                model_id: model_id@,
                base_url: DEFAULT_BASE_URL@,
                timeout: None,
                max_retries: 3,
                use_prompt_caching: false,
            }),
    {
        Anthropic {
            api_key: owned(api_key),
            model_id: owned(model_id),
            base_url: owned(DEFAULT_BASE_URL),
            timeout: None,
            max_retries: 3,
            use_prompt_caching: false,
        }
    }

    /// Sets where the service is.
    pub fn with_base_url(self, base_url: &str) -> (r: Self)
        ensures
            r@ == (AnthropicView { base_url: base_url@, ..self@ }),
    {
        Anthropic { base_url: owned(base_url), ..self }
    }

    /// Sets how long a request may take.
    pub fn with_timeout(self, timeout: Duration) -> (r: Self)
        ensures
            r@ == (AnthropicView { timeout: Some(timeout), ..self@ }),
    {
        Anthropic { timeout: Some(timeout), ..self }
    }

    /// Sets how often a request is tried again.
    pub fn with_max_retries(self, retries: u32) -> (r: Self)
        ensures
            r@ == (AnthropicView { max_retries: retries, ..self@ }),
    {
        Anthropic { max_retries: retries, ..self }
    }

    /// Turns prompt caching on.
    pub fn with_prompt_caching(self) -> (r: Self)
        ensures
            r@ == (AnthropicView { use_prompt_caching: true, ..self@ }),
    {
        Anthropic { use_prompt_caching: true, ..self }
    }

    /// The name of the model.
    pub fn model_id(&self) -> (r: &String)
        ensures
            r@ == self@.model_id,
    {
        &self.model_id
    }

    /// Where requests go.
    pub fn messages_url(&self) -> (r: String)
        ensures
            r@ == self@.base_url + "/v1/messages"@,
    {
        cat2(&self.base_url, "/v1/messages")
    }
}

// ---------------------------------------------------------------------
// Requests
// ---------------------------------------------------------------------

/// The mark of a part that is to be cached.
pub open spec fn ephemeral() -> JsonView {
    object1("type"@, JsonView::Str("ephemeral"@))
}

/// The system prompt.
pub open spec fn system_json(text: Seq<char>, caching: bool) -> JsonView {
    if caching {
        JsonView::Array(
            seq![
                object3(
                    "type"@,
                    JsonView::Str("text"@),
                    "text"@,
                    JsonView::Str(text),
                    "cache_control"@,
                    ephemeral(),
                ),
            ],
        )
    } else {
        JsonView::Str(text)
    }
}

/// The system prompt of a conversation: that of the last system message that has
/// text.
pub open spec fn system_of(messages: Seq<MessageView>, caching: bool) -> Option<JsonView>
    decreases messages.len(),
{
    if messages.len() == 0 {
        None
    } else {
        match (messages.last().role, messages.last().content) {
            (Role::System, Some(text)) => Some(system_json(text, caching)),
            _ => system_of(messages.drop_last(), caching),
        }
    }
}

/// A text or nothing.
pub open spec fn text_or_empty(t: Option<Seq<char>>) -> Seq<char> {
    match t {
        Some(s) => s,
        None => Seq::empty(),
    }
}

/// The block of a tool call.
pub open spec fn tool_use_json(c: ToolCallView) -> JsonView {
    JsonView::Object(
        Map::<Seq<char>, JsonView>::empty().insert("type"@, JsonView::Str("tool_use"@)).insert(
            "id"@,
            JsonView::Str(c.id),
        ).insert("name"@, JsonView::Str(c.name)).insert("input"@, c.arguments),
    )
}

/// The blocks of an answer with tool calls: its text, if it has any, and then
/// the calls.
pub open spec fn answer_blocks(m: MessageView) -> Seq<JsonView> {
    let text = match m.content {
        Some(t) => if t.len() > 0 {
            seq![object2("type"@, JsonView::Str("text"@), "text"@, JsonView::Str(t))]
        } else {
            Seq::empty()
        },
        None => Seq::empty(),
    };
    text + Seq::new(m.tool_calls.len(), |i: int| tool_use_json(m.tool_calls[i]))
}

/// A message of a role.
pub open spec fn turn(role: Seq<char>, content: JsonView) -> JsonView {
    object2("role"@, JsonView::Str(role), "content"@, content)
}

/// What a message becomes in a request. System messages have their own place.
pub open spec fn message_turn(m: MessageView) -> Option<JsonView> {
    match m.role {
        Role::System => None,
        Role::User => Some(turn("user"@, JsonView::Str(text_or_empty(m.content)))),
        Role::Assistant => if m.tool_calls.len() > 0 {
            Some(turn("assistant"@, JsonView::Array(answer_blocks(m))))
        } else {
            Some(turn("assistant"@, JsonView::Str(text_or_empty(m.content))))
        },
        Role::Tool => Some(
            turn(
                "user"@,
                JsonView::Array(
                    seq![
                        object3(
                            "type"@,
                            JsonView::Str("tool_result"@),
                            "tool_use_id"@,
                            JsonView::Str(text_or_empty(m.tool_call_id)),
                            "content"@,
                            JsonView::Str(text_or_empty(m.content)),
                        ),
                    ],
                ),
            ),
        ),
    }
}

/// What messages become in a request, in order.
pub open spec fn turns(messages: Seq<MessageView>) -> Seq<JsonView>
    decreases messages.len(),
{
    if messages.len() == 0 {
        Seq::empty()
    } else {
        let before = turns(messages.drop_last());
        match message_turn(messages.last()) {
            Some(t) => before.push(t),
            None => before,
        }
    }
}

/// A tool in a request.
pub open spec fn tool_json(t: ToolSpecView, cached: bool) -> JsonView {
    let plain = Map::<Seq<char>, JsonView>::empty().insert("name"@, JsonView::Str(t.name)).insert(
        "description"@,
        JsonView::Str(t.description),
    ).insert("input_schema"@, t.parameters);
    JsonView::Object(
        if cached {
            plain.insert("cache_control"@, ephemeral())
        } else {
            plain
        },
    )
}

/// The tools of a request. With caching on, the last one carries the mark, which
/// then covers all before it.
pub open spec fn tools_json(tools: Seq<ToolSpecView>, caching: bool) -> Seq<JsonView> {
    Seq::new(tools.len(), |i: int| tool_json(tools[i], caching && i == tools.len() - 1))
}

/// The body of a request.
pub open spec fn request_json(model: AnthropicView, q: RequestView, stream: bool) -> JsonView {
    let a = Map::<Seq<char>, JsonView>::empty().insert("model"@, JsonView::Str(model.model_id));
    let b = match system_of(q.messages, model.use_prompt_caching) {
        Some(s) => a.insert("system"@, s),
        None => a,
    };
    let c = b.insert("messages"@, JsonView::Array(turns(q.messages)));
    let d = if q.tools.len() > 0 {
        c.insert("tools"@, JsonView::Array(tools_json(q.tools, model.use_prompt_caching)))
    } else {
        c
    };
    let max_tokens = match q.max_tokens {
        Some(n) => n,
        None => DEFAULT_MAX_TOKENS,
    };
    let e = d.insert("max_tokens"@, JsonView::Number(NumberView::PosInt(max_tokens as u64)));
    let f = match q.temperature {
        Some(t) => e.insert("temperature"@, t),
        None => e,
    };
    JsonView::Object(f.insert("stream"@, JsonView::Bool(stream)))
}

fn make_ephemeral() -> (r: Json)
    ensures
        r@ == ephemeral(),
{
    make_object1("type", Json::text("ephemeral"))
}

fn one_item(item: Json) -> (r: Json)
    ensures
        r@ == JsonView::Array(seq![item@]),
{
    let mut items: Vec<Json> = Vec::new();
    items.push(item);
    let r = Json::array(items);
    assert(r@->Array_0 =~= seq![item@]);
    r
}

fn make_system(text: &str, caching: bool) -> (r: Json)
    ensures
        r@ == system_json(text@, caching),
{
    if caching {
        one_item(
            make_object3(
                "type",
                Json::text("text"),
                "text",
                Json::text(text),
                "cache_control",
                make_ephemeral(),
            ),
        )
    } else {
        Json::text(text)
    }
}

fn text_json(t: &Option<String>) -> (r: Json)
    ensures
        r@ == JsonView::Str(text_or_empty(opt_text(*t))),
{
    match t {
        Some(s) => Json::text(s),
        None => {
            let r = Json::Str(String::new());
            assert(r@->Str_0 =~= Seq::<char>::empty());
            r
        },
    }
}

fn make_turn(role: &str, content: Json) -> (r: Json)
    ensures
        r@ == turn(role@, content@),
{
    make_object2("role", Json::text(role), "content", content)
}

fn make_answer_blocks(m: &Message) -> (r: Json)
    ensures
        r@ == JsonView::Array(answer_blocks(m@)),
{
    let mut blocks: Vec<Json> = Vec::new();
    if let Some(t) = &m.content {
        if t.as_str().unicode_len() > 0 {
            blocks.push(make_object2("type", Json::text("text"), "text", Json::text(t)));
        }
    }
    let ghost head = json_views(blocks@);
    let ghost calls = m@.tool_calls;
    let mut i: usize = 0;
    assert(json_views(blocks@) =~= head + Seq::new(0, |j: int| tool_use_json(calls[j])));
    while i < m.tool_calls.len()
        invariant
            i <= m.tool_calls@.len(),
            calls == m@.tool_calls,
            json_views(blocks@) == head + Seq::new(i as nat, |j: int| tool_use_json(calls[j])),
        decreases m.tool_calls@.len() - i,
    {
        let ghost before = json_views(blocks@);
        let call = &m.tool_calls[i];
        assert(calls[i as int] == call@);
        let block = Json::object(
            JsonMap::new().with("type", Json::text("tool_use")).with(
                "id",
                Json::text(&call.id),
            ).with("name", Json::text(&call.name)).with("input", call.arguments.duplicate()),
        );
        let ghost seen = block@;
        blocks.push(block);
        i += 1;
        assert(json_views(blocks@) =~= before.push(seen));
        assert(json_views(blocks@) =~= head + Seq::new(i as nat, |j: int| tool_use_json(calls[j])));
    }
    assert(head + Seq::new(i as nat, |j: int| tool_use_json(calls[j])) =~= answer_blocks(m@));
    Json::array(blocks)
}

fn make_message_turn(m: &Message) -> (r: Option<Json>)
    ensures
        match r {
            Some(t) => message_turn(m@) == Some(t@),
            None => message_turn(m@) is None,
        },
{
    match m.role {
        Role::System => None,
        Role::User => Some(make_turn("user", text_json(&m.content))),
        Role::Assistant => if m.tool_calls.len() > 0 {
            Some(make_turn("assistant", make_answer_blocks(m)))
        } else {
            Some(make_turn("assistant", text_json(&m.content)))
        },
        Role::Tool => Some(
            make_turn(
                "user",
                one_item(
                    make_object3(
                        "type",
                        Json::text("tool_result"),
                        "tool_use_id",
                        text_json(&m.tool_call_id),
                        "content",
                        text_json(&m.content),
                    ),
                ),
            ),
        ),
    }
}

/// A tool in a request.
pub fn make_tool(spec: &ToolSpec, cached: bool) -> (r: Json)
    ensures
        r@ == tool_json(spec@, cached),
{
    let plain = JsonMap::new().with("name", Json::text(&spec.name)).with(
        "description",
        Json::text(&spec.description),
    ).with("input_schema", spec.parameters.duplicate());
    Json::object(
        if cached {
            plain.with("cache_control", make_ephemeral())
        } else {
            plain
        },
    )
}

fn make_tools(tools: &Vec<ToolSpec>, caching: bool) -> (r: Json)
    ensures
        r@ == JsonView::Array(tools_json(spec_views(tools@), caching)),
{
    let mut items: Vec<Json> = Vec::new();
    let n: usize = tools.len();
    let ghost all = tools_json(spec_views(tools@), caching);
    let mut i: usize = 0;
    while i < n
        invariant
            i <= n == tools@.len(),
            all == tools_json(spec_views(tools@), caching),
            items@.len() == i,
            forall|j: int| 0 <= j < i ==> (#[trigger] items@[j])@ == all[j],
        decreases n - i,
    {
        items.push(make_tool(&tools[i], caching && i == n - 1));
        i += 1;
    }
    assert(json_views(items@) =~= all);
    Json::array(items)
}

impl Anthropic {
    /// The body of a request.
    pub fn build_request_body(&self, request: &ChatRequest, stream: bool) -> (r: Json)
        ensures
            r@ == request_json(self@, request@, stream),
    {
        let ghost messages = request@.messages;
        let caching = self.use_prompt_caching;
        let mut system: Option<Json> = None;
        let mut items: Vec<Json> = Vec::new();
        let mut i: usize = 0;
        assert(messages.take(0) =~= Seq::<MessageView>::empty());
        assert(json_views(items@) =~= turns(messages.take(0)));
        while i < request.messages.len()
            invariant
                i <= request.messages@.len(),
                messages == message_views(request.messages@),
                json_views(items@) == turns(messages.take(i as int)),
                match system {
                    Some(s) => system_of(messages.take(i as int), caching) == Some(s@),
                    None => system_of(messages.take(i as int), caching) is None,
                },
            decreases request.messages@.len() - i,
        {
            let m = &request.messages[i];
            assert(messages.take(i + 1).drop_last() =~= messages.take(i as int));
            assert(messages.take(i + 1).last() == m@);
            if let (Role::System, Some(text)) = (m.role, &m.content) {
                system = Some(make_system(text, caching));
            }
            let ghost before = json_views(items@);
            match make_message_turn(m) {
                Some(t) => {
                    let ghost seen = t@;
                    items.push(t);
                    assert(json_views(items@) =~= before.push(seen));
                },
                None => {},
            }
            i += 1;
        }
        assert(messages.take(i as int) =~= messages);
        let a = JsonMap::new().with("model", Json::text(&self.model_id));
        let b = match system {
            Some(s) => a.with("system", s),
            None => a,
        };
        let c = b.with("messages", Json::array(items));
        let d = if request.tools.len() > 0 {
            c.with("tools", make_tools(&request.tools, caching))
        } else {
            c
        };
        let max_tokens: u32 = match request.max_tokens {
            Some(n) => n,
            None => DEFAULT_MAX_TOKENS,
        };
        let e = d.with("max_tokens", Json::uint(max_tokens as u64));
        let f = match &request.temperature {
            Some(t) => e.with("temperature", t.duplicate()),
            None => e,
        };
        Json::object(f.with("stream", Json::Bool(stream)))
    }
}

// ---------------------------------------------------------------------
// Responses
// ---------------------------------------------------------------------

/// A block of an answer.
#[derive(Debug, PartialEq)]
pub enum AnthropicResponseBlock {
    Text { text: String },
    ToolUse { id: String, name: String, input: Json },
}

/// A block, as contracts speak of it.
pub enum BlockView {
    Text(Seq<char>),
    ToolUse(ToolCallView),
}

impl View for AnthropicResponseBlock {
    type V = BlockView;

    open spec fn view(&self) -> BlockView {
        match *self {
            AnthropicResponseBlock::Text { text } => BlockView::Text(text@),
            AnthropicResponseBlock::ToolUse { id, name, input } => BlockView::ToolUse(
                ToolCallView { id: id@, name: name@, arguments: input@ },
            ),
        }
    }
}

/// The models of a list of blocks.
pub open spec fn block_views(s: Seq<AnthropicResponseBlock>) -> Seq<BlockView> {
    Seq::new(s.len(), |i: int| s[i]@)
}

/// How many tokens an answer took.
#[derive(Debug, Clone, Copy, PartialEq, Eq, Structural)]
pub struct AnthropicUsage {
    pub input_tokens: u32,
    pub output_tokens: u32,
    pub cache_creation_input_tokens: u32,
    pub cache_read_input_tokens: u32,
}

/// An answer in one piece.
#[derive(Debug, PartialEq)]
pub struct AnthropicResponse {
    pub content: Vec<AnthropicResponseBlock>,
    pub stop_reason: Option<String>,
    pub usage: Option<AnthropicUsage>,
}

/// An answer, as contracts speak of it.
pub struct ResponseView {
    pub content: Seq<BlockView>,
    pub stop_reason: Option<Seq<char>>,
    pub usage: Option<AnthropicUsage>,
}

impl View for AnthropicResponse {
    type V = ResponseView;

    open spec fn view(&self) -> ResponseView {
        ResponseView {
            content: block_views(self.content@),
            stop_reason: opt_text(self.stop_reason),
            usage: self.usage,
        }
    }
}

/// All text of an answer.
pub open spec fn answer_text(blocks: Seq<BlockView>) -> Seq<char>
    decreases blocks.len(),
{
    if blocks.len() == 0 {
        Seq::empty()
    } else {
        let before = answer_text(blocks.drop_last());
        match blocks.last() {
            BlockView::Text(t) => before + t,
            BlockView::ToolUse(_) => before,
        }
    }
}

/// All tool calls of an answer.
pub open spec fn answer_calls(blocks: Seq<BlockView>) -> Seq<ToolCallView>
    decreases blocks.len(),
{
    if blocks.len() == 0 {
        Seq::empty()
    } else {
        let before = answer_calls(blocks.drop_last());
        match blocks.last() {
            BlockView::Text(_) => before,
            BlockView::ToolUse(c) => before.push(c),
        }
    }
}

/// The message of an answer. One with tool calls has text only if it is not
/// empty.
pub open spec fn answer_message(blocks: Seq<BlockView>) -> MessageView {
    let text = answer_text(blocks);
    let calls = answer_calls(blocks);
    MessageView {
        role: Role::Assistant,
        content: if calls.len() > 0 && text.len() == 0 {
            None
        } else {
            Some(text)
        },
        tool_calls: calls,
        tool_call_id: None,
    }
}

/// Why an answer stopped.
pub open spec fn stop_reason_of(name: Option<Seq<char>>) -> StopReason {
    match name {
        Some(s) => if s == "tool_use"@ {
            StopReason::ToolUse
        } else if s == "max_tokens"@ {
            StopReason::MaxTokens
        } else {
            StopReason::EndTurn
        },
        None => StopReason::EndTurn,
    }
}

/// The token counts of an answer.
pub open spec fn usage_of(u: Option<AnthropicUsage>) -> Option<Usage> {
    match u {
        Some(u) => Some(
            Usage {
                input_tokens: u.input_tokens,
                output_tokens: u.output_tokens,
                cached_tokens: u.cache_read_input_tokens,
            },
        ),
        None => None,
    }
}

/// Whether a response is that of an answer.
pub open spec fn answers(response: ResponseView, r: ChatResponse) -> bool {
    &&& r.message@ == answer_message(response.content)
    &&& r.stop_reason == stop_reason_of(response.stop_reason)
    &&& r.usage == usage_of(response.usage)
}

/// Turns an answer into a response.
pub fn parse_response(response: AnthropicResponse) -> (r: Result<ChatResponse>)
    ensures
        r is Ok && answers(response@, r->Ok_0),
{
    let ghost blocks = response@.content;
    let mut text = String::new();
    let mut calls: Vec<ToolCall> = Vec::new();
    let mut i: usize = 0;
    assert(blocks.take(0) =~= Seq::<BlockView>::empty());
    assert(text@ =~= answer_text(blocks.take(0)));
    assert(call_views(calls@) =~= answer_calls(blocks.take(0)));
    while i < response.content.len()
        invariant
            i <= response.content@.len(),
            blocks == block_views(response.content@),
            text@ == answer_text(blocks.take(i as int)),
            call_views(calls@) == answer_calls(blocks.take(i as int)),
        decreases response.content@.len() - i,
    {
        assert(blocks.take(i + 1).drop_last() =~= blocks.take(i as int));
        assert(blocks.take(i + 1).last() == response.content@[i as int]@);
        match &response.content[i] {
            AnthropicResponseBlock::Text { text: t } => {
                text.push_str(t);
            },
            AnthropicResponseBlock::ToolUse { id, name, input } => {
                let ghost before = call_views(calls@);
                let call = ToolCall {
                    id: id.clone(),
                    name: name.clone(),
                    arguments: input.duplicate(),
                };
                let ghost seen = call@;
                calls.push(call);
                assert(call_views(calls@) =~= before.push(seen));
            },
        }
        i += 1;
    }
    assert(blocks.take(i as int) =~= blocks);
    let stop_reason = match &response.stop_reason {
        Some(s) => if same(s, "tool_use") {
            StopReason::ToolUse
        } else if same(s, "max_tokens") {
            StopReason::MaxTokens
        } else {
            StopReason::EndTurn
        },
        None => StopReason::EndTurn,
    };
    let content = if calls.len() > 0 && text.as_str().unicode_len() == 0 {
        None
    } else {
        Some(text)
    };
    let usage = match response.usage {
        Some(u) => Some(
            Usage {
                input_tokens: u.input_tokens,
                output_tokens: u.output_tokens,
                cached_tokens: u.cache_read_input_tokens,
            },
        ),
        None => None,
    };
    Ok(
        ChatResponse {
            message: Message {
                role: Role::Assistant,
                content,
                tool_calls: calls,
                tool_call_id: None,
            },
            stop_reason,
            usage,
        },
    )
}

/// The block that a JSON object stands for. In an array the kind comes first.
pub open spec fn json_block(v: JsonView) -> Option<BlockView> {
    let v = placed(v, seq!["type"@, "text"@], 2);
    let v = placed(v, seq!["type"@, "id"@, "name"@, "input"@], 4);
    match text_at(v, "type"@) {
        Some(t) => if t == "text"@ {
            match text_at(v, "text"@) {
                Some(text) => Some(BlockView::Text(text)),
                None => None,
            }
        } else if t == "tool_use"@ {
            match (text_at(v, "id"@), text_at(v, "name"@), v.field("input"@)) {
                (Some(id), Some(name), Some(arguments)) => Some(
                    BlockView::ToolUse(ToolCallView { id, name, arguments }),
                ),
                _ => None,
            }
        } else {
            None
        },
        None => None,
    }
}

/// The blocks that a JSON array stands for.
pub open spec fn json_blocks(v: Option<JsonView>) -> Option<Seq<BlockView>> {
    match v {
        Some(JsonView::Array(items)) => if forall|i: int|
            0 <= i < items.len() ==> json_block(#[trigger] items[i]) is Some {
            Some(Seq::new(items.len(), |i: int| json_block(items[i])->0))
        } else {
            None
        },
        _ => None,
    }
}

/// The token counts that a JSON object stands for.
pub open spec fn json_usage(v: JsonView) -> Option<AnthropicUsage> {
    let v = placed(
        v,
        seq![
            "input_tokens"@,
            "output_tokens"@,
            "cache_creation_input_tokens"@,
            "cache_read_input_tokens"@,
        ],
        2,
    );
    match (
        u32_at(v, "input_tokens"@),
        u32_at(v, "output_tokens"@),
        u32_or_zero_at(v, "cache_creation_input_tokens"@),
        u32_or_zero_at(v, "cache_read_input_tokens"@),
    ) {
        (Some(i), Some(o), Some(c), Some(r)) => Some(
            AnthropicUsage {
                input_tokens: i,
                output_tokens: o,
                cache_creation_input_tokens: c,
                cache_read_input_tokens: r,
            },
        ),
        _ => None,
    }
}

/// A member that may be missing or `null`, and stands for token counts
/// otherwise.
pub open spec fn opt_usage_at(v: JsonView) -> Option<Option<AnthropicUsage>> {
    match v.field("usage"@) {
        None => Some(None),
        Some(JsonView::Null) => Some(None),
        Some(u) => match json_usage(u) {
            Some(u) => Some(Some(u)),
            None => None,
        },
    }
}

/// The answer that a JSON object stands for.
pub open spec fn json_response(v: JsonView) -> Option<ResponseView> {
    let v = placed(v, seq!["content"@, "stop_reason"@, "usage"@], 3);
    match (json_blocks(v.field("content"@)), opt_text_at(v, "stop_reason"@), opt_usage_at(v)) {
        (Some(content), Some(stop_reason), Some(usage)) => Some(
            ResponseView { content, stop_reason, usage },
        ),
        _ => None,
    }
}

fn read_block(v: &Json) -> (r: Option<AnthropicResponseBlock>)
    ensures
        match r {
            Some(b) => json_block(v@) == Some(b@),
            None => json_block(v@) is None,
        },
{
    let two = place2(v, "type", "text", 2);
    let v = match &two {
        Some(p) => p,
        None => v,
    };
    let four = place4(v, "type", "id", "name", "input", 4);
    let v = match &four {
        Some(p) => p,
        None => v,
    };
    match read_text(v, "type") {
        Some(t) => if same(&t, "text") {
            match read_text(v, "text") {
                Some(text) => Some(AnthropicResponseBlock::Text { text }),
                None => None,
            }
        } else if same(&t, "tool_use") {
            match (read_text(v, "id"), read_text(v, "name"), v.get("input")) {
                (Some(id), Some(name), Some(input)) => Some(
                    AnthropicResponseBlock::ToolUse { id, name, input: input.duplicate() },
                ),
                _ => None,
            }
        } else {
            None
        },
        None => None,
    }
}

fn read_blocks(v: Option<&Json>) -> (r: Option<Vec<AnthropicResponseBlock>>)
    ensures
        ({
            let view = match v {
                Some(j) => Some(j@),
                None => None,
            };
            match r {
                Some(blocks) => json_blocks(view) == Some(block_views(blocks@)),
                None => json_blocks(view) is None,
            }
        }),
{
    match v {
        Some(Json::Array(items)) => {
            let ghost all = json_views(items@);
            assert(v->0@->Array_0 =~= all);
            let mut blocks: Vec<AnthropicResponseBlock> = Vec::new();
            let mut i: usize = 0;
            while i < items.len()
                invariant
                    i <= items@.len(),
                    all == json_views(items@),
                    v->0@ == JsonView::Array(all),
                    blocks@.len() == i,
                    forall|j: int|
                        0 <= j < i ==> json_block(all[j]) == Some((#[trigger] blocks@[j])@),
                decreases items@.len() - i,
            {
                match read_block(&items[i]) {
                    Some(b) => {
                        blocks.push(b);
                    },
                    None => {
                        assert(json_block(all[i as int]) is None);
                        return None;
                    },
                }
                i += 1;
            }
            proof {
                assert forall|j: int| 0 <= j < all.len() implies json_block(
                    #[trigger] all[j],
                ) is Some by {
                    assert(json_block(all[j]) == Some(blocks@[j]@));
                }
                assert(json_blocks(Some(v->0@))->0 =~= block_views(blocks@));
            }
            Some(blocks)
        },
        _ => None,
    }
}

fn read_usage(v: &Json) -> (r: Option<AnthropicUsage>)
    ensures
        r == json_usage(v@),
{
    let held = place4(
        v,
        "input_tokens",
        "output_tokens",
        "cache_creation_input_tokens",
        "cache_read_input_tokens",
        2,
    );
    let v = match &held {
        Some(p) => p,
        None => v,
    };
    match (
        read_u32(v, "input_tokens"),
        read_u32(v, "output_tokens"),
        read_u32_or_zero(v, "cache_creation_input_tokens"),
        read_u32_or_zero(v, "cache_read_input_tokens"),
    ) {
        (Some(i), Some(o), Some(c), Some(r)) => Some(
            AnthropicUsage {
                input_tokens: i,
                output_tokens: o,
                cache_creation_input_tokens: c,
                cache_read_input_tokens: r,
            },
        ),
        _ => None,
    }
}

fn read_opt_usage(v: &Json) -> (r: Option<Option<AnthropicUsage>>)
    ensures
        r == opt_usage_at(v@),
{
    match v.get("usage") {
        None => Some(None),
        Some(Json::Null) => Some(None),
        Some(u) => match read_usage(u) {
            Some(u) => Some(Some(u)),
            None => None,
        },
    }
}

/// The answer that a JSON object stands for.
pub fn read_response(v: &Json) -> (r: Option<AnthropicResponse>)
    ensures
        match r {
            Some(response) => json_response(v@) == Some(response@),
            None => json_response(v@) is None,
        },
{
    let held = place3(v, "content", "stop_reason", "usage", 3);
    let v = match &held {
        Some(p) => p,
        None => v,
    };
    match (read_blocks(v.get("content")), read_opt_text(v, "stop_reason"), read_opt_usage(v)) {
        (Some(content), Some(stop_reason), Some(usage)) => Some(
            AnthropicResponse { content, stop_reason, usage },
        ),
        _ => None,
    }
}

// ---------------------------------------------------------------------
// The exchange
// ---------------------------------------------------------------------

/// Whether a status says that trying again may help.
pub open spec fn retriable(code: u16) -> bool {
    code == 429 || code == 529 || 500 <= code < 600
}

/// Whether the answer to the request that was sent for the `attempt`-th time,
/// counted from zero, ends the exchange.
pub open spec fn ends(model: AnthropicView, attempt: u32, code: u16) -> bool {
    200 <= code < 300 || !retriable(code) || attempt >= model.max_retries
}

/// What to do after the service has answered.
#[derive(Debug, PartialEq)]
pub enum Exchange {
    /// Wait, then send the request again.
    Retry,
    /// Give this to the caller.
    Finished(Result<ChatResponse>),
}

/// What an answer with a good status stands for.
pub open spec fn body_response(body: Seq<char>, r: Result<ChatResponse>) -> bool {
    match parsed_json(body) {
        Err(e) => r is Err && r->Err_0@ == ErrorView::Serialization(e),
        Ok(v) => match json_response(v) {
            Some(response) => r is Ok && answers(response, r->Ok_0),
            None => r is Err && r->Err_0@ == ErrorView::Serialization(
                "not an Anthropic response"@,
            ),
        },
    }
}

/// The error for an answer with a bad status.
pub open spec fn api_error(status: Seq<char>, body: Seq<char>) -> ErrorView {
    ErrorView::Model("Anthropic API error ("@ + status + "): "@ + body)
}

fn make_api_error(status: &str, body: &str) -> (r: DaimonError)
    ensures
        r@ == api_error(status@, body@),
{
    DaimonError::Model(cat4("Anthropic API error (", status, "): ", body))
}

/// Reads the body of an answer with a good status.
pub fn response_from_body(body: &str) -> (r: Result<ChatResponse>)
    ensures
        body_response(body@, r),
{
    match Json::parse(body) {
        Err(e) => Err(DaimonError::Serialization(e)),
        Ok(v) => match read_response(&v) {
            Some(response) => parse_response(response),
            None => Err(DaimonError::Serialization(owned("not an Anthropic response"))),
        },
    }
}

impl Anthropic {
    /// Decides what to do after the answer to the request that was sent for the
    /// `attempt`-th time, counted from zero. `status` is the status in words.
    pub fn after_answer(&self, attempt: u32, code: u16, status: &str, body: &str) -> (r: Exchange)
        ensures
            match r {
                Exchange::Retry => !ends(self@, attempt, code),
                Exchange::Finished(result) => ends(self@, attempt, code) && if 200 <= code < 300 {
                    body_response(body@, result)
                } else {
                    result is Err && result->Err_0@ == api_error(status@, body@)
                },
            },
    {
        if 200 <= code && code < 300 {
            return Exchange::Finished(response_from_body(body));
        }
        let again = code == 429 || code == 529 || (500 <= code && code < 600);
        if again && attempt < self.max_retries {
            Exchange::Retry
        } else {
            Exchange::Finished(Err(make_api_error(status, body)))
        }
    }

    /// The error of a stream that the service refused, if it did.
    pub fn stream_refused(&self, code: u16, status: &str, body: &str) -> (r: Option<DaimonError>)
        ensures
            match r {
                Some(e) => !(200 <= code < 300) && e@ == api_error(status@, body@),
                None => 200 <= code < 300,
            },
    {
        if 200 <= code && code < 300 {
            None
        } else {
            Some(make_api_error(status, body))
        }
    }
}

/// However the service answers, a request is sent at most once more than the
/// retries allow.
pub proof fn retries_are_bounded(model: AnthropicView, codes: Seq<u16>)
    requires
        codes.len() > model.max_retries,
    ensures
        exists|i: int|
            0 <= i <= model.max_retries && ends(model, i as u32, #[trigger] codes[i]),
{
    let i = model.max_retries as int;
    assert(ends(model, i as u32, codes[i]));
}

// ---------------------------------------------------------------------
// Streams
// ---------------------------------------------------------------------

/// The block that a stream event opens.
#[derive(Debug, PartialEq)]
pub struct AnthropicStreamBlock {
    pub kind: String,
    pub id: Option<String>,
    pub name: Option<String>,
}

/// The piece that a stream event carries.
#[derive(Debug, PartialEq)]
pub struct AnthropicStreamDelta {
    pub text: Option<String>,
    pub partial_json: Option<String>,
}

/// An event of the service's stream.
#[derive(Debug, PartialEq)]
pub struct AnthropicStreamEvent {
    pub kind: String,
    /// The number of the block that the event is about. A tool call's identifier
    /// comes only with the event that opens its block.
    pub index: Option<u64>,
    pub content_block: Option<AnthropicStreamBlock>,
    pub delta: Option<AnthropicStreamDelta>,
}

/// A stream event's block, as contracts speak of it.
pub struct StreamBlockView {
    pub kind: Seq<char>,
    pub id: Option<Seq<char>>,
    pub name: Option<Seq<char>>,
}

/// A stream event's piece, as contracts speak of it.
pub struct StreamDeltaView {
    pub text: Option<Seq<char>>,
    pub partial_json: Option<Seq<char>>,
}

/// A stream event, as contracts speak of it.
pub struct SourceEventView {
    pub kind: Seq<char>,
    pub index: Option<u64>,
    pub content_block: Option<StreamBlockView>,
    pub delta: Option<StreamDeltaView>,
}

impl View for AnthropicStreamBlock {
    type V = StreamBlockView;

    open spec fn view(&self) -> StreamBlockView {
        StreamBlockView { kind: self.kind@, id: opt_text(self.id), name: opt_text(self.name) }
    }
}

impl View for AnthropicStreamDelta {
    type V = StreamDeltaView;

    open spec fn view(&self) -> StreamDeltaView {
        StreamDeltaView { text: opt_text(self.text), partial_json: opt_text(self.partial_json) }
    }
}

impl View for AnthropicStreamEvent {
    type V = SourceEventView;

    open spec fn view(&self) -> SourceEventView {
        SourceEventView {
            kind: self.kind@,
            index: self.index,
            content_block: match self.content_block {
                Some(b) => Some(b@),
                None => None,
            },
            delta: match self.delta {
                Some(d) => Some(d@),
                None => None,
            },
        }
    }
}

/// The identifiers of the tool calls whose blocks are open.
pub type OpenCalls = Map<u64, Seq<char>>;

/// The identifiers that a map holds.
pub open spec fn open_calls(m: Map<u64, String>) -> OpenCalls {
    m.map_values(|s: String| s@)
}

/// The open blocks after an event.
pub open spec fn calls_after(ids: OpenCalls, e: SourceEventView) -> OpenCalls {
    if e.kind == "content_block_start"@ {
        match (e.content_block, e.index) {
            (Some(b), Some(i)) => if b.kind == "tool_use"@ {
                ids.insert(i, text_or_empty(b.id))
            } else {
                ids
            },
            _ => ids,
        }
    } else if e.kind == "content_block_stop"@ {
        match e.index {
            Some(i) => ids.remove(i),
            None => ids,
        }
    } else {
        ids
    }
}

/// The identifier of the tool call that is open at a number.
pub open spec fn call_at(ids: OpenCalls, index: Option<u64>) -> Seq<char> {
    match index {
        Some(i) => if ids.contains_key(i) {
            ids[i]
        } else {
            Seq::empty()
        },
        None => Seq::empty(),
    }
}

/// What an event becomes.
pub open spec fn events_for(ids: OpenCalls, e: SourceEventView) -> Seq<EventView> {
    if e.kind == "content_block_start"@ {
        match e.content_block {
            Some(b) => if b.kind == "tool_use"@ {
                seq![
                    EventView::ToolCallStart { id: text_or_empty(b.id), name: text_or_empty(b.name) },
                ]
            } else {
                Seq::empty()
            },
            None => Seq::empty(),
        }
    } else if e.kind == "content_block_delta"@ {
        match e.delta {
            Some(d) => {
                let text = match d.text {
                    Some(t) => seq![EventView::TextDelta(t)],
                    None => Seq::empty(),
                };
                let json = match d.partial_json {
                    Some(j) => seq![
                        EventView::ToolCallDelta { id: call_at(ids, e.index), arguments_delta: j },
                    ],
                    None => Seq::empty(),
                };
                text + json
            },
            None => Seq::empty(),
        }
    } else if e.kind == "content_block_stop"@ {
        match e.index {
            Some(i) => if ids.contains_key(i) {
                seq![EventView::ToolCallEnd { id: ids[i] }]
            } else {
                Seq::empty()
            },
            None => Seq::empty(),
        }
    } else if e.kind == "message_stop"@ {
        seq![EventView::Done]
    } else {
        Seq::empty()
    }
}

proof fn lemma_event_kinds()
    ensures
        "content_block_start"@ != "content_block_stop"@,
        "content_block_start"@ != "content_block_delta"@,
        "content_block_delta"@ != "content_block_stop"@,
        "message_stop"@ != "content_block_start"@,
        "message_stop"@ != "content_block_stop"@,
        "message_stop"@ != "content_block_delta"@,
{
    reveal_strlit("content_block_start");
    reveal_strlit("content_block_stop");
    reveal_strlit("content_block_delta");
    reveal_strlit("message_stop");
    assert("content_block_start"@[14] == 's' && "content_block_delta"@[14] == 'd');
    assert("content_block_start"@.len() == 19);
    assert("content_block_stop"@.len() == 18);
    assert("content_block_delta"@.len() == 19);
    assert("message_stop"@.len() == 12);
}

fn owned_or_empty(s: Option<String>) -> (r: String)
    ensures
        r@ == text_or_empty(opt_text(s)),
{
    match s {
        Some(t) => t,
        None => {
            let r = String::new();
            assert(r@ =~= Seq::<char>::empty());
            r
        },
    }
}

/// Takes one event of the service's stream: notes which tool call is open at
/// which number, and appends what the event becomes.
pub fn handle_anthropic_stream_event_into(
    index_to_id: &mut HashMap<u64, String>,
    event: AnthropicStreamEvent,
    events: &mut Vec<StreamEvent>,
)
    ensures
        open_calls(final(index_to_id)@) == calls_after(open_calls(old(index_to_id)@), event@),
        event_views(final(events)@) == event_views(old(events)@) + events_for(
            open_calls(old(index_to_id)@),
            event@,
        ),
{
    broadcast use vstd::std_specs::hash::group_hash_axioms;

    proof {
        lemma_event_kinds();
    }
    let ghost ids = open_calls(index_to_id@);
    let ghost before = event_views(events@);
    let ghost view = event@;
    assert(before + Seq::<EventView>::empty() =~= before);
    let AnthropicStreamEvent { kind, index, content_block, delta } = event;
    if same(&kind, "content_block_start") {
        if let Some(block) = content_block {
            if same(&block.kind, "tool_use") {
                let id = owned_or_empty(block.id);
                let name = owned_or_empty(block.name);
                if let Some(i) = index {
                    index_to_id.insert(i, id.clone());
                    assert(open_calls(index_to_id@) =~= ids.insert(i, id@));
                }
                let started = StreamEvent::ToolCallStart { id, name };
                let ghost seen = started@;
                events.push(started);
                assert(event_views(events@) =~= before + seq![seen]);
            }
        }
    } else if same(&kind, "content_block_delta") {
        if let Some(d) = delta {
            let ghost text = match view.delta->0.text {
                Some(t) => seq![EventView::TextDelta(t)],
                None => Seq::empty(),
            };
            if let Some(t) = d.text {
                events.push(StreamEvent::TextDelta(t));
            }
            assert(event_views(events@) =~= before + text);
            if let Some(json) = d.partial_json {
                let id = match index {
                    Some(i) => match index_to_id.get(&i) {
                        Some(s) => s.clone(),
                        None => String::new(),
                    },
                    None => String::new(),
                };
                assert(id@ =~= call_at(ids, view.index));
                let piece = StreamEvent::ToolCallDelta { id, arguments_delta: json };
                let ghost seen = piece@;
                let ghost so_far = event_views(events@);
                events.push(piece);
                assert(event_views(events@) =~= so_far.push(seen));
                assert(event_views(events@) =~= before + (text + seq![seen]));
            } else {
                assert(text + Seq::<EventView>::empty() =~= text);
            }
        }
    } else if same(&kind, "content_block_stop") {
        if let Some(i) = index {
            match index_to_id.remove(&i) {
                Some(id) => {
                    let end = StreamEvent::ToolCallEnd { id };
                    let ghost seen = end@;
                    events.push(end);
                    assert(event_views(events@) =~= before + seq![seen]);
                },
                None => {},
            }
            assert(open_calls(index_to_id@) =~= ids.remove(i));
        }
    } else if same(&kind, "message_stop") {
        events.push(StreamEvent::Done);
        assert(event_views(events@) =~= before + seq![EventView::Done]);
    }
}

/// Takes one event of the service's stream and gives what it becomes.
pub fn handle_anthropic_stream_event(
    index_to_id: &mut HashMap<u64, String>,
    event: AnthropicStreamEvent,
) -> (r: Vec<StreamEvent>)
    ensures
        open_calls(final(index_to_id)@) == calls_after(open_calls(old(index_to_id)@), event@),
        event_views(r@) == events_for(open_calls(old(index_to_id)@), event@),
{
    let mut events: Vec<StreamEvent> = Vec::new();
    let ghost none = event_views(events@);
    handle_anthropic_stream_event_into(index_to_id, event, &mut events);
    assert(none + events_for(open_calls(old(index_to_id)@), event@) =~= events_for(
        open_calls(old(index_to_id)@),
        event@,
    ));
    events
}

/// The block that a JSON object stands for.
pub open spec fn json_stream_block(v: JsonView) -> Option<StreamBlockView> {
    let v = placed(v, seq!["type"@, "id"@, "name"@], 3);
    match (text_at(v, "type"@), opt_text_at(v, "id"@), opt_text_at(v, "name"@)) {
        (Some(kind), Some(id), Some(name)) => Some(StreamBlockView { kind, id, name }),
        _ => None,
    }
}

/// The piece that a JSON object stands for.
pub open spec fn json_stream_delta(v: JsonView) -> Option<StreamDeltaView> {
    let v = placed(v, seq!["text"@, "partial_json"@], 2);
    if v is Object {
        match (opt_text_at(v, "text"@), opt_text_at(v, "partial_json"@)) {
            (Some(text), Some(partial_json)) => Some(StreamDeltaView { text, partial_json }),
            _ => None,
        }
    } else {
        None
    }
}

/// A block that may be missing or `null`.
pub open spec fn opt_stream_block(v: JsonView) -> Option<Option<StreamBlockView>> {
    match v.field("content_block"@) {
        None => Some(None),
        Some(JsonView::Null) => Some(None),
        Some(b) => match json_stream_block(b) {
            Some(b) => Some(Some(b)),
            None => None,
        },
    }
}

/// A piece that may be missing or `null`.
pub open spec fn opt_stream_delta(v: JsonView) -> Option<Option<StreamDeltaView>> {
    match v.field("delta"@) {
        None => Some(None),
        Some(JsonView::Null) => Some(None),
        Some(d) => match json_stream_delta(d) {
            Some(d) => Some(Some(d)),
            None => None,
        },
    }
}

/// The stream event that a JSON object stands for.
pub open spec fn json_stream_event(v: JsonView) -> Option<SourceEventView> {
    let v = placed(v, seq!["type"@, "index"@, "content_block"@, "delta"@], 4);
    match (text_at(v, "type"@), opt_u64_at(v, "index"@), opt_stream_block(v), opt_stream_delta(v)) {
        (Some(kind), Some(index), Some(content_block), Some(delta)) => Some(
            SourceEventView { kind, index, content_block, delta },
        ),
        _ => None,
    }
}

fn read_stream_block(v: &Json) -> (r: Option<AnthropicStreamBlock>)
    ensures
        match r {
            Some(b) => json_stream_block(v@) == Some(b@),
            None => json_stream_block(v@) is None,
        },
{
    let held = place3(v, "type", "id", "name", 3);
    let v = match &held {
        Some(p) => p,
        None => v,
    };
    match (read_text(v, "type"), read_opt_text(v, "id"), read_opt_text(v, "name")) {
        (Some(kind), Some(id), Some(name)) => Some(AnthropicStreamBlock { kind, id, name }),
        _ => None,
    }
}

fn read_stream_delta(v: &Json) -> (r: Option<AnthropicStreamDelta>)
    ensures
        match r {
            Some(d) => json_stream_delta(v@) == Some(d@),
            None => json_stream_delta(v@) is None,
        },
{
    let held = place2(v, "text", "partial_json", 2);
    let v = match &held {
        Some(p) => p,
        None => v,
    };
    if !is_object(v) {
        return None;
    }
    match (read_opt_text(v, "text"), read_opt_text(v, "partial_json")) {
        (Some(text), Some(partial_json)) => Some(AnthropicStreamDelta { text, partial_json }),
        _ => None,
    }
}

fn read_opt_stream_block(v: &Json) -> (r: Option<Option<AnthropicStreamBlock>>)
    ensures
        match r {
            Some(Some(b)) => opt_stream_block(v@) == Some(Some(b@)),
            Some(None) => opt_stream_block(v@) == Some(None::<StreamBlockView>),
            None => opt_stream_block(v@) is None,
        },
{
    match v.get("content_block") {
        None => Some(None),
        Some(Json::Null) => Some(None),
        Some(b) => match read_stream_block(b) {
            Some(b) => Some(Some(b)),
            None => None,
        },
    }
}

fn read_opt_stream_delta(v: &Json) -> (r: Option<Option<AnthropicStreamDelta>>)
    ensures
        match r {
            Some(Some(d)) => opt_stream_delta(v@) == Some(Some(d@)),
            Some(None) => opt_stream_delta(v@) == Some(None::<StreamDeltaView>),
            None => opt_stream_delta(v@) is None,
        },
{
    match v.get("delta") {
        None => Some(None),
        Some(Json::Null) => Some(None),
        Some(d) => match read_stream_delta(d) {
            Some(d) => Some(Some(d)),
            None => None,
        },
    }
}

/// The stream event that a JSON object stands for.
pub fn read_stream_event(v: &Json) -> (r: Option<AnthropicStreamEvent>)
    ensures
        match r {
            Some(e) => json_stream_event(v@) == Some(e@),
            None => json_stream_event(v@) is None,
        },
{
    let held = place4(v, "type", "index", "content_block", "delta", 4);
    let v = match &held {
        Some(p) => p,
        None => v,
    };
    match (
        read_text(v, "type"),
        read_opt_u64(v, "index"),
        read_opt_stream_block(v),
        read_opt_stream_delta(v),
    ) {
        (Some(kind), Some(index), Some(content_block), Some(delta)) => Some(
            AnthropicStreamEvent { kind, index, content_block, delta },
        ),
        _ => None,
    }
}

/// The stream event that a line carries, if it carries one.
pub open spec fn line_event(line: Seq<char>) -> Option<SourceEventView> {
    match after_prefix(line, "data: "@) {
        Some(data) => match parsed_json(data) {
            Ok(v) => json_stream_event(v),
            Err(_) => None,
        },
        None => None,
    }
}

fn read_line(line: &str) -> (r: Option<AnthropicStreamEvent>)
    ensures
        match r {
            Some(e) => line_event(line@) == Some(e@),
            None => line_event(line@) is None,
        },
{
    match strip_prefix(line, "data: ") {
        Some(data) => match Json::parse(&data) {
            Ok(v) => read_stream_event(&v),
            Err(_) => None,
        },
        None => None,
    }
}

/// The open blocks after a line, and what the line becomes.
pub open spec fn after_line(ids: OpenCalls, line: Seq<char>) -> (OpenCalls, Seq<EventView>) {
    match line_event(line) {
        Some(e) => (calls_after(ids, e), events_for(ids, e)),
        None => (ids, Seq::empty()),
    }
}

/// The open blocks after complete lines, and what the lines become.
pub open spec fn after_lines(ids: OpenCalls, lines: Seq<Seq<u8>>) -> (OpenCalls, Seq<EventView>)
    decreases lines.len(),
{
    if lines.len() == 0 {
        (ids, Seq::empty())
    } else {
        let (before, events) = after_lines(ids, lines.drop_last());
        let (after, more) = after_line(before, trimmed(line_text(lines.last())));
        (after, events + more)
    }
}

/// What is known of a stream between two pieces.
pub struct StreamView {
    /// The bytes behind the last complete line.
    pub pending: Seq<u8>,
    pub calls: OpenCalls,
}

/// A stream after a piece, and what the piece becomes.
pub open spec fn received(s: StreamView, chunk: Seq<u8>) -> (StreamView, Seq<EventView>) {
    let (lines, pending) = split(s.pending + chunk, NEWLINE);
    let (calls, events) = after_lines(s.calls, lines);
    (StreamView { pending, calls }, events)
}

/// A stream after its end, and what is left to give: its last line may lack its
/// end.
pub open spec fn ended(s: StreamView) -> (StreamView, Seq<EventView>) {
    if s.pending.len() == 0 {
        (s, Seq::empty())
    } else {
        let (calls, events) = after_line(s.calls, line_text(s.pending));
        (StreamView { pending: Seq::empty(), calls }, events)
    }
}

/// The service's stream, read in pieces as they arrive.
pub struct AnthropicStream {
    buffer: LineBuffer,
    index_to_id: HashMap<u64, String>,
}

impl View for AnthropicStream {
    type V = StreamView;

    closed spec fn view(&self) -> StreamView {
        StreamView { pending: self.buffer@, calls: open_calls(self.index_to_id@) }
    }
}

impl AnthropicStream {
    /// A stream of which nothing has arrived.
    pub fn new() -> (r: Self)
        ensures
            r@ == (StreamView { pending: Seq::empty(), calls: Map::empty() }),
    {
        broadcast use vstd::std_specs::hash::group_hash_axioms;

        let r = AnthropicStream { buffer: LineBuffer::new(), index_to_id: HashMap::new() };
        assert(r@.calls =~= Map::<u64, Seq<char>>::empty());
        r
    }

    /// Takes a piece of the stream and gives the events that are complete with
    /// it.
    pub fn push(&mut self, chunk: &[u8]) -> (r: Vec<StreamEvent>)
        ensures
            (final(self)@, event_views(r@)) == received(old(self)@, chunk@),
    {
        let ghost start = self@.calls;
        self.buffer.push(chunk);
        let ghost (all, rest) = split(self.buffer@, NEWLINE);
        let ghost mut done: Seq<Seq<u8>> = Seq::empty();
        let mut events: Vec<StreamEvent> = Vec::new();
        assert(event_views(events@) =~= Seq::<EventView>::empty());
        assert(done + all =~= all);
        loop
            invariant
                done + split(self.buffer@, NEWLINE).0 == all,
                split(self.buffer@, NEWLINE).1 == rest,
                (self@.calls, event_views(events@)) == after_lines(start, done),
            ensures
                self.buffer@ == rest,
                (self@.calls, event_views(events@)) == after_lines(start, all),
            decreases self.buffer@.len(),
        {
            let ghost lines = split(self.buffer@, NEWLINE).0;
            match self.buffer.next_line() {
                Some(line) => {
                    let line = trim_text(&line);
                    let ghost ids = self@.calls;
                    let ghost before = event_views(events@);
                    proof {
                        let grown = done.push(lines[0]);
                        assert(grown.drop_last() =~= done);
                        assert(grown + lines.skip(1) =~= done + lines);
                        done = grown;
                    }
                    match read_line(&line) {
                        Some(event) => {
                            handle_anthropic_stream_event_into(
                                &mut self.index_to_id,
                                event,
                                &mut events,
                            );
                        },
                        None => {
                            assert(before + Seq::<EventView>::empty() =~= before);
                        },
                    }
                },
                None => {
                    assert(done + Seq::<Seq<u8>>::empty() =~= done);
                    break;
                },
            }
        }
        events
    }

    /// Gives what is left when the stream has ended.
    pub fn finish(&mut self) -> (r: Vec<StreamEvent>)
        ensures
            (final(self)@, event_views(r@)) == ended(old(self)@),
    {
        let mut events: Vec<StreamEvent> = Vec::new();
        assert(event_views(events@) =~= Seq::<EventView>::empty());
        match self.buffer.take_remaining() {
            Some(line) => match read_line(&line) {
                Some(event) => handle_anthropic_stream_event(&mut self.index_to_id, event),
                None => events,
            },
            None => {
                assert(old(self)@.pending =~= Seq::<u8>::empty());
                events
            },
        }
    }
}

proof fn lemma_lines_in_two_parts(ids: OpenCalls, a: Seq<Seq<u8>>, b: Seq<Seq<u8>>)
    ensures
        ({
            let (mid, first) = after_lines(ids, a);
            let (end, second) = after_lines(mid, b);
            after_lines(ids, a + b) == (end, first + second)
        }),
    decreases b.len(),
{
    let (mid, first) = after_lines(ids, a);
    if b.len() == 0 {
        assert(a + b =~= a);
        assert(first + Seq::<EventView>::empty() =~= first);
    } else {
        lemma_lines_in_two_parts(ids, a, b.drop_last());
        assert((a + b).drop_last() =~= a + b.drop_last());
        let (before, events) = after_lines(mid, b.drop_last());
        let more = after_line(before, trimmed(line_text(b.last()))).1;
        assert(first + events + more =~= first + (events + more));
    }
}

/// How a stream is cut into pieces does not matter, not even inside a character.
pub proof fn pieces_do_not_matter(s: StreamView, a: Seq<u8>, b: Seq<u8>)
    ensures
        ({
            let (mid, first) = received(s, a);
            let (end, second) = received(mid, b);
            received(s, a + b) == (end, first + second)
        }),
{
    assert(s.pending + (a + b) =~= (s.pending + a) + b);
    cuts_do_not_matter(s.pending + a, b, NEWLINE);
    let (lines, pending) = split(s.pending + a, NEWLINE);
    lemma_lines_in_two_parts(s.calls, lines, split(pending + b, NEWLINE).0);
}

/// The open blocks after some events.
pub open spec fn calls_after_all(ids: OpenCalls, events: Seq<SourceEventView>) -> OpenCalls
    decreases events.len(),
{
    if events.len() == 0 {
        ids
    } else {
        calls_after(calls_after_all(ids, events.drop_last()), events.last())
    }
}

/// Whether an event opens or closes the block with a number.
pub open spec fn touches(e: SourceEventView, index: u64) -> bool {
    e.index == Some(index) && (e.kind == "content_block_start"@ || e.kind
        == "content_block_stop"@)
}

/// Every piece of a tool call carries the identifier with which its block was
/// opened, whatever other blocks do meanwhile.
pub proof fn pieces_carry_the_opening_id(
    ids: OpenCalls,
    start: SourceEventView,
    between: Seq<SourceEventView>,
    piece: SourceEventView,
)
    requires
        start.kind == "content_block_start"@,
        start.index is Some,
        start.content_block matches Some(b) && b.kind == "tool_use"@,
        forall|i: int| 0 <= i < between.len() ==> !touches(#[trigger] between[i], start.index->0),
        piece.kind == "content_block_delta"@,
        piece.index == start.index,
        piece.delta matches Some(d) && d.text is None && d.partial_json is Some,
    ensures
        events_for(calls_after_all(calls_after(ids, start), between), piece) == seq![
            EventView::ToolCallDelta {
                id: text_or_empty(start.content_block->0.id),
                arguments_delta: piece.delta->0.partial_json->0,
            },
        ],
    decreases between.len(),
{
    lemma_event_kinds();
    let open = calls_after_all(calls_after(ids, start), between);
    lemma_block_stays_open(ids, start, between);
    assert(Seq::<EventView>::empty() + seq![
        EventView::ToolCallDelta {
            id: text_or_empty(start.content_block->0.id),
            arguments_delta: piece.delta->0.partial_json->0,
        },
    ] =~= events_for(open, piece));
}

proof fn lemma_block_stays_open(
    ids: OpenCalls,
    start: SourceEventView,
    between: Seq<SourceEventView>,
)
    requires
        start.kind == "content_block_start"@,
        start.index is Some,
        start.content_block matches Some(b) && b.kind == "tool_use"@,
        forall|i: int| 0 <= i < between.len() ==> !touches(#[trigger] between[i], start.index->0),
    ensures
        call_at(calls_after_all(calls_after(ids, start), between), start.index) == text_or_empty(
            start.content_block->0.id,
        ),
        calls_after_all(calls_after(ids, start), between).contains_key(start.index->0),
    decreases between.len(),
{
    lemma_event_kinds();
    if between.len() > 0 {
        let init = between.drop_last();
        assert forall|i: int| 0 <= i < init.len() implies !touches(
            #[trigger] init[i],
            start.index->0,
        ) by {
            assert(init[i] == between[i]);
        }
        lemma_block_stays_open(ids, start, init);
        assert(!touches(between[between.len() - 1], start.index->0));
    }
}

/// Closing a block frees its number, so that a later block of the same number
/// is not taken for it.
pub proof fn closing_frees_the_number(ids: OpenCalls, stop: SourceEventView)
    requires
        stop.kind == "content_block_stop"@,
        stop.index is Some,
    ensures
        !calls_after(ids, stop).contains_key(stop.index->0),
{
    lemma_event_kinds();
}

/// An answer with text and tool calls is sent back with its text before the
/// calls, and with nothing left out.
pub proof fn answers_are_sent_back_whole(m: MessageView, text: Seq<char>)
    requires
        m.role == Role::Assistant,
        m.tool_calls.len() > 0,
        m.content == Some(text),
        text.len() > 0,
    ensures
        answer_blocks(m).len() == 1 + m.tool_calls.len(),
        answer_blocks(m)[0] == object2("type"@, JsonView::Str("text"@), "text"@, JsonView::Str(text)),
        forall|i: int|
            0 <= i < m.tool_calls.len() ==> answer_blocks(m)[i + 1] == tool_use_json(
                #[trigger] m.tool_calls[i],
            ),
{
}

/// With caching on only the last tool carries the mark, and with caching off
/// none does.
pub proof fn only_the_last_tool_is_marked(tools: Seq<ToolSpecView>, caching: bool, i: int)
    requires
        0 <= i < tools.len(),
    ensures
        tools_json(tools, caching)[i].field("cache_control"@) is Some <==> caching && i
            == tools.len() - 1,
{
    reveal_strlit("name");
    reveal_strlit("description");
    reveal_strlit("input_schema");
    reveal_strlit("cache_control");
    assert("cache_control"@.len() == 13);
    assert("name"@.len() == 4);
    assert("description"@.len() == 11);
    assert("input_schema"@.len() == 12);
}

} // verus!
