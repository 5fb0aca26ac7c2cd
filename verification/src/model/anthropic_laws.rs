//! What the requests, answers and streams of the messages API are good for.

use crate::contained::{holds, lemma_holds_within};
use crate::error::{ErrorView, Result};
use crate::json::{parsed_json, JsonView};
use crate::members::{affirms, counts, item, lacks, lists, may_say, only, says};
use crate::model::anthropic::{
    after_line, after_lines, answer_blocks, answer_calls, answer_text, api_error, body_response, calls_after,
    ended, ends, events_for, json_block, json_blocks, json_stream_event, line_event, message_turn,
    received, request_json, system_json, system_of, tool_json, tool_use_json, turns,
    AnthropicUsage, AnthropicView, BlockView, OpenCalls, SourceEventView, StreamView,
};
use crate::model::line_buffer::{line_text, NEWLINE};
use crate::model::types::{ChatResponse, MessageView, RequestView, Role, ToolSpecView};
use crate::stream::{
    arguments_told, dones_told, ends_told, events_add_up, names_told, single_events, spoken,
    EventView,
};
use crate::split::{lemma_no_end, split};
use crate::text::{after_prefix, trimmed};
use crate::tool::ToolCallView;
use vstd::prelude::*;

verus! {

// ---------------------------------------------------------------------
// Requests
// ---------------------------------------------------------------------

proof fn lemma_names()
    ensures
        "model"@ != "tools"@,
        "model"@.len() == 5,
        "system"@.len() == 6,
        "stream"@.len() == 6,
        "system"@ != "stream"@,
        "messages"@.len() == 8,
        "tools"@.len() == 5,
        "max_tokens"@.len() == 10,
        "temperature"@.len() == 11,
        "role"@.len() == 4,
        "content"@.len() == 7,
        "type"@.len() == 4,
        "text"@.len() == 4,
        "name"@.len() == 4,
        "type"@ != "text"@,
        "type"@ != "name"@,
        "id"@.len() == 2,
        "input"@.len() == 5,
        "tool_use_id"@.len() == 11,
        "cache_control"@.len() == 13,
        "description"@.len() == 11,
        "input_schema"@.len() == 12,
        "text"@ != "tool_use"@,
{
    reveal_strlit("model");
    reveal_strlit("system");
    reveal_strlit("stream");
    reveal_strlit("messages");
    reveal_strlit("tools");
    reveal_strlit("max_tokens");
    reveal_strlit("temperature");
    reveal_strlit("role");
    reveal_strlit("content");
    reveal_strlit("type");
    reveal_strlit("text");
    reveal_strlit("name");
    reveal_strlit("id");
    reveal_strlit("input");
    reveal_strlit("tool_use_id");
    reveal_strlit("tool_use");
    reveal_strlit("cache_control");
    reveal_strlit("description");
    reveal_strlit("input_schema");
    assert("model"@[0] == 'm' && "tools"@[0] == 't');
    assert("system"@[1] == 'y' && "stream"@[1] == 't');
    assert("type"@[1] == 'y' && "text"@[1] == 'e');
    assert("name"@[0] == 'n' && "type"@[0] == 't');
    assert("text"@.len() != "tool_use"@.len());
}

/// The messages that are not the system's, in order.
pub open spec fn talk(messages: Seq<MessageView>) -> Seq<MessageView>
    decreases messages.len(),
{
    if messages.len() == 0 {
        Seq::empty()
    } else if messages.last().role == Role::System {
        talk(messages.drop_last())
    } else {
        talk(messages.drop_last()).push(messages.last())
    }
}

/// Whether a block carries a tool call to the service.
pub open spec fn sends_use(v: JsonView, c: ToolCallView) -> bool {
    &&& says(v, "type"@, "tool_use"@)
    &&& says(v, "id"@, c.id)
    &&& says(v, "name"@, c.name)
    &&& v.field("input"@) == Some(c.arguments)
}

/// Whether blocks carry an answer that calls tools: its text, if there is any, and
/// then each call.
pub open spec fn sends_uses(blocks: Seq<JsonView>, m: MessageView) -> bool {
    let text = match m.content {
        Some(t) => t,
        None => Seq::empty(),
    };
    let head = if text.len() > 0 {
        1nat
    } else {
        0
    };
    &&& blocks.len() == head + m.tool_calls.len()
    &&& head == 1 ==> says(blocks[0], "type"@, "text"@) && says(blocks[0], "text"@, text)
    &&& forall|i: int|
        0 <= i < m.tool_calls.len() ==> sends_use(blocks[head + i], #[trigger] m.tool_calls[i])
}

/// Whether a JSON object carries a message to the service: the words of a user, the
/// words and tool calls of the assistant, or what a tool call came to, which a user
/// says.
pub open spec fn sends_turn(v: JsonView, m: MessageView) -> bool {
    let text = match m.content {
        Some(t) => t,
        None => Seq::empty(),
    };
    &&& only(v, set!["role"@, "content"@])
    &&& says(
        v,
        "role"@,
        if m.role == Role::Assistant {
            "assistant"@
        } else {
            "user"@
        },
    )
    &&& match m.role {
        Role::Assistant => if m.tool_calls.len() == 0 {
            says(v, "content"@, text)
        } else {
            v.field("content"@) matches Some(JsonView::Array(blocks)) && sends_uses(blocks, m)
        },
        Role::Tool => lists(v, "content"@, 1) && says(
            item(v, "content"@, 0),
            "type"@,
            "tool_result"@,
        ) && says(
            item(v, "content"@, 0),
            "tool_use_id"@,
            match m.tool_call_id {
                Some(id) => id,
                None => Seq::empty(),
            },
        ) && says(item(v, "content"@, 0), "content"@, text),
        _ => says(v, "content"@, text),
    }
}

/// Whether a JSON object offers a tool, marked for the cache or not.
pub open spec fn offers_tool(v: JsonView, t: ToolSpecView, marked: bool) -> bool {
    &&& says(v, "name"@, t.name)
    &&& says(v, "description"@, t.description)
    &&& v.field("input_schema"@) == Some(t.parameters)
    &&& if marked {
        v.field("cache_control"@) matches Some(c) && says(c, "type"@, "ephemeral"@)
    } else {
        lacks(v, "cache_control"@)
    }
}

/// Whether a message is the system's and has text.
pub open spec fn instructs(m: MessageView) -> bool {
    m.role == Role::System && m.content is Some
}

/// Whether the k-th message is the last of the system's that has text.
pub open spec fn last_instruction(messages: Seq<MessageView>, k: int) -> bool {
    &&& 0 <= k < messages.len()
    &&& instructs(messages[k])
    &&& forall|j: int| k < j < messages.len() ==> !instructs(#[trigger] messages[j])
}

/// Whether a value carries the system's text, marked for the cache or not.
pub open spec fn sends_system(v: JsonView, text: Seq<char>, marked: bool) -> bool {
    if marked {
        v matches JsonView::Array(items) && items.len() == 1 && says(items[0], "type"@, "text"@)
            && says(items[0], "text"@, text) && (items[0].field("cache_control"@) matches Some(c)
            && says(c, "type"@, "ephemeral"@))
    } else {
        v == JsonView::Str(text)
    }
}

proof fn lemma_system(messages: Seq<MessageView>, caching: bool)
    ensures
        (forall|k: int| 0 <= k < messages.len() ==> !instructs(#[trigger] messages[k]))
            <==> system_of(messages, caching) is None,
        forall|k: int| #[trigger]
            last_instruction(messages, k) ==> system_of(messages, caching) == Some(
                system_json(messages[k].content->0, caching),
            ),
    decreases messages.len(),
{
    if messages.len() > 0 {
        let init = messages.drop_last();
        lemma_system(init, caching);
        assert forall|k: int| #[trigger] last_instruction(messages, k) implies system_of(
            messages,
            caching,
        ) == Some(system_json(messages[k].content->0, caching)) by {
            if k < messages.len() - 1 {
                assert(!instructs(messages[messages.len() - 1]));
                assert(forall|j: int| k < j < init.len() ==> init[j] == messages[j]);
                assert(last_instruction(init, k));
            }
        }
        if forall|k: int| 0 <= k < messages.len() ==> !instructs(#[trigger] messages[k]) {
            assert(!instructs(messages[messages.len() - 1]));
            assert(forall|k: int| 0 <= k < init.len() ==> init[k] == messages[k]);
        } else if !instructs(messages.last()) {
            let k = choose|k: int| 0 <= k < messages.len() && instructs(#[trigger] messages[k]);
            assert(init[k] == messages[k]);
        }
    }
}

/// A message reaches the service whole, unless it is the system's, which has its own
/// place.
pub proof fn messages_are_sent_whole(m: MessageView)
    ensures
        m.role == Role::System ==> message_turn(m) is None,
        m.role != Role::System ==> message_turn(m) is Some && sends_turn(message_turn(m)->0, m),
{
    lemma_names();
    if m.role != Role::System {
        let v = message_turn(m)->0;
        assert forall|key: Seq<char>| (#[trigger] v.field(key)) is Some implies set![
            "role"@,
            "content"@,
        ].contains(key) by {}
        if m.role == Role::Assistant && m.tool_calls.len() > 0 {
            let blocks = answer_blocks(m);
            let head = blocks.len() - m.tool_calls.len();
            assert forall|i: int| 0 <= i < m.tool_calls.len() implies sends_use(
                blocks[head + i],
                #[trigger] m.tool_calls[i],
            ) by {
                assert(blocks[head + i] == tool_use_json(m.tool_calls[i]));
            }
            assert(sends_uses(blocks, m));
        }
    }
}

proof fn lemma_turns(messages: Seq<MessageView>)
    ensures
        turns(messages).len() == talk(messages).len(),
        forall|i: int|
            0 <= i < talk(messages).len() ==> sends_turn(
                turns(messages)[i],
                #[trigger] talk(messages)[i],
            ),
    decreases messages.len(),
{
    if messages.len() > 0 {
        let init = messages.drop_last();
        lemma_turns(init);
        messages_are_sent_whole(messages.last());
        assert forall|i: int| 0 <= i < talk(messages).len() implies sends_turn(
            turns(messages)[i],
            #[trigger] talk(messages)[i],
        ) by {
            if i < talk(init).len() {
                assert(talk(messages)[i] == talk(init)[i]);
            }
        }
    }
}

/// A request reaches the service whole: it names the model, carries the last text of
/// the system and each other message, in order, each tool, and every setting. The
/// answer is limited in any case. With caching on, the system's text and the last
/// tool are marked, and otherwise nothing is.
pub proof fn requests_are_sent_whole(model: AnthropicView, q: RequestView, stream: bool)
    ensures
        ({
            let v = request_json(model, q, stream);
            let caching = model.use_prompt_caching;
            &&& only(
                v,
                set![
                    "model"@,
                    "system"@,
                    "messages"@,
                    "tools"@,
                    "max_tokens"@,
                    "temperature"@,
                    "stream"@,
                ],
            )
            &&& says(v, "model"@, model.model_id)
            &&& affirms(v, "stream"@, stream)
            &&& lacks(v, "system"@) <==> forall|k: int|
                0 <= k < q.messages.len() ==> !instructs(#[trigger] q.messages[k])
            &&& forall|k: int| #[trigger]
                last_instruction(q.messages, k) ==> v.field("system"@) is Some && sends_system(
                    v.field("system"@)->0,
                    q.messages[k].content->0,
                    caching,
                )
            &&& lists(v, "messages"@, talk(q.messages).len())
            &&& forall|i: int|
                0 <= i < talk(q.messages).len() ==> sends_turn(
                    item(v, "messages"@, i),
                    #[trigger] talk(q.messages)[i],
                )
            &&& lacks(v, "tools"@) <==> q.tools.len() == 0
            &&& q.tools.len() > 0 ==> lists(v, "tools"@, q.tools.len())
            &&& forall|i: int|
                0 <= i < q.tools.len() ==> offers_tool(
                    item(v, "tools"@, i),
                    #[trigger] q.tools[i],
                    caching && i == q.tools.len() - 1,
                )
            &&& v.field("temperature"@) == q.temperature
            &&& match q.max_tokens {
                Some(n) => counts(v, "max_tokens"@, n as nat),
                None => counts(v, "max_tokens"@, 4096),
            }
        }),
{
    lemma_names();
    let v = request_json(model, q, stream);
    let caching = model.use_prompt_caching;
    lemma_system(q.messages, caching);
    lemma_turns(q.messages);
    assert forall|i: int| 0 <= i < q.tools.len() implies offers_tool(
        item(v, "tools"@, i),
        #[trigger] q.tools[i],
        caching && i == q.tools.len() - 1,
    ) by {
        assert(item(v, "tools"@, i) == tool_json(q.tools[i], caching && i == q.tools.len() - 1));
    }
    assert forall|i: int| 0 <= i < talk(q.messages).len() implies sends_turn(
        item(v, "messages"@, i),
        #[trigger] talk(q.messages)[i],
    ) by {
        assert(item(v, "messages"@, i) == turns(q.messages)[i]);
    }
}

// ---------------------------------------------------------------------
// Answers
// ---------------------------------------------------------------------

/// All text of some blocks, joined in order.
pub open spec fn said(blocks: Seq<BlockView>) -> Seq<char>
    decreases blocks.len(),
{
    if blocks.len() == 0 {
        Seq::empty()
    } else {
        (match blocks[0] {
            BlockView::Text(t) => t,
            BlockView::ToolUse(_) => Seq::empty(),
        }) + said(blocks.skip(1))
    }
}

/// All tool calls of some blocks, in order.
pub open spec fn called(blocks: Seq<BlockView>) -> Seq<ToolCallView>
    decreases blocks.len(),
{
    if blocks.len() == 0 {
        Seq::empty()
    } else {
        (match blocks[0] {
            BlockView::Text(_) => Seq::empty(),
            BlockView::ToolUse(c) => seq![c],
        }) + called(blocks.skip(1))
    }
}

proof fn lemma_said_behind(blocks: Seq<BlockView>, b: BlockView)
    ensures
        said(blocks.push(b)) == said(blocks) + said(seq![b]),
        called(blocks.push(b)) == called(blocks) + called(seq![b]),
    decreases blocks.len(),
{
    let all = blocks.push(b);
    if blocks.len() == 0 {
        assert(all =~= seq![b]);
        assert(said(blocks) + said(seq![b]) =~= said(seq![b]));
        assert(called(blocks) + called(seq![b]) =~= called(seq![b]));
    } else {
        lemma_said_behind(blocks.skip(1), b);
        assert(all.skip(1) =~= blocks.skip(1).push(b));
        assert(all[0] == blocks[0]);
        let t = match blocks[0] {
            BlockView::Text(t) => t,
            BlockView::ToolUse(_) => Seq::empty(),
        };
        assert(t + (said(blocks.skip(1)) + said(seq![b])) =~= (t + said(blocks.skip(1))) + said(
            seq![b],
        ));
        let c = match blocks[0] {
            BlockView::Text(_) => Seq::empty(),
            BlockView::ToolUse(c) => seq![c],
        };
        assert(c + (called(blocks.skip(1)) + called(seq![b])) =~= (c + called(blocks.skip(1)))
            + called(seq![b]));
    }
}

proof fn lemma_said(blocks: Seq<BlockView>)
    ensures
        answer_text(blocks) == said(blocks),
        answer_calls(blocks) == called(blocks),
    decreases blocks.len(),
{
    if blocks.len() > 0 {
        let b = blocks.last();
        lemma_said(blocks.drop_last());
        lemma_said_behind(blocks.drop_last(), b);
        assert(blocks.drop_last().push(b) =~= blocks);
        assert(seq![b].skip(1) =~= Seq::<BlockView>::empty());
        reveal_with_fuel(said, 2);
        reveal_with_fuel(called, 2);
        assert(answer_text(blocks) =~= said(blocks));
        assert(answer_calls(blocks) =~= called(blocks));
    }
}

/// Whether a JSON object says a block.
pub open spec fn tells_block(v: JsonView, b: BlockView) -> bool {
    v is Object && match b {
        BlockView::Text(t) => says(v, "type"@, "text"@) && says(v, "text"@, t),
        BlockView::ToolUse(c) => says(v, "type"@, "tool_use"@) && says(v, "id"@, c.id) && says(
            v,
            "name"@,
            c.name,
        ) && v.field("input"@) == Some(c.arguments),
    }
}

/// Whether a JSON object says what an answer took.
pub open spec fn tells_usage(v: JsonView, usage: Option<AnthropicUsage>) -> bool {
    match usage {
        Some(u) => v.field("usage"@) matches Some(o) && o is Object && counts(
            o,
            "input_tokens"@,
            u.input_tokens as nat,
        ) && counts(o, "output_tokens"@, u.output_tokens as nat) && counts(
            o,
            "cache_creation_input_tokens"@,
            u.cache_creation_input_tokens as nat,
        ) && counts(o, "cache_read_input_tokens"@, u.cache_read_input_tokens as nat),
        None => lacks(v, "usage"@) || v.field("usage"@) == Some(JsonView::Null),
    }
}

/// An answer of the service is handed on whole: all its text joined, all its tool
/// calls, the reason why it stopped, and what it took.
pub proof fn answers_are_handed_on_whole(
    body: Seq<char>,
    v: JsonView,
    blocks: Seq<BlockView>,
    stop_reason: Option<Seq<char>>,
    usage: Option<AnthropicUsage>,
    r: Result<ChatResponse>,
)
    requires
        parsed_json(body) == Ok::<JsonView, Seq<char>>(v),
        v is Object,
        lists(v, "content"@, blocks.len()),
        forall|i: int|
            0 <= i < blocks.len() ==> tells_block(item(v, "content"@, i), #[trigger] blocks[i]),
        may_say(v, "stop_reason"@, stop_reason),
        tells_usage(v, usage),
        body_response(body, r),
    ensures
        r is Ok,
        r->Ok_0.message@.role == Role::Assistant,
        r->Ok_0.message@.tool_calls == called(blocks),
        r->Ok_0.message@.content matches Some(t) ==> t == said(blocks),
        r->Ok_0.message@.content is None ==> said(blocks).len() == 0 && called(blocks).len() > 0,
        r->Ok_0.message@.tool_call_id is None,
        r->Ok_0.stop_reason is ToolUse <==> stop_reason == Some("tool_use"@),
        r->Ok_0.stop_reason is MaxTokens <==> stop_reason == Some("max_tokens"@),
        usage is None <==> r->Ok_0.usage is None,
        usage matches Some(u) ==> r->Ok_0.usage->0.input_tokens == u.input_tokens
            && r->Ok_0.usage->0.output_tokens == u.output_tokens && r->Ok_0.usage->0.cached_tokens
            == u.cache_read_input_tokens,
{
    lemma_names();
    let items = v.field("content"@)->0->Array_0;
    assert forall|i: int| 0 <= i < items.len() implies json_block(#[trigger] items[i]) == Some(
        blocks[i],
    ) by {
        assert(tells_block(item(v, "content"@, i), blocks[i]));
    }
    assert(Seq::new(items.len(), |i: int| json_block(items[i])->0) =~= blocks);
    assert(json_blocks(v.field("content"@)) == Some(blocks));
    lemma_said(blocks);
    assert("tool_use"@ != "max_tokens"@) by {
        reveal_strlit("tool_use");
        reveal_strlit("max_tokens");
        assert("tool_use"@.len() != "max_tokens"@.len());
    }
}

// ---------------------------------------------------------------------
// Streams
// ---------------------------------------------------------------------

/// Whether a JSON object says an event of a stream.
pub open spec fn tells_event(v: JsonView, e: SourceEventView) -> bool {
    &&& v is Object
    &&& says(v, "type"@, e.kind)
    &&& match e.index {
        Some(i) => counts(v, "index"@, i as nat),
        None => lacks(v, "index"@),
    }
    &&& match e.content_block {
        Some(b) => v.field("content_block"@) matches Some(o) && o is Object && says(
            o,
            "type"@,
            b.kind,
        ) && may_say(o, "id"@, b.id) && may_say(o, "name"@, b.name),
        None => lacks(v, "content_block"@),
    }
    &&& match e.delta {
        Some(d) => v.field("delta"@) matches Some(o) && o is Object && may_say(o, "text"@, d.text)
            && may_say(o, "partial_json"@, d.partial_json),
        None => lacks(v, "delta"@),
    }
}

/// An event of a stream is read whole.
pub proof fn events_are_read_whole(v: JsonView, e: SourceEventView)
    requires
        tells_event(v, e),
    ensures
        json_stream_event(v) == Some(e),
{
}

/// The events that the lines of a stream carry, in order. A line that cannot be
/// read carries none.
pub open spec fn events_in(lines: Seq<Seq<u8>>) -> Seq<SourceEventView>
    decreases lines.len(),
{
    if lines.len() == 0 {
        Seq::empty()
    } else {
        let before = events_in(lines.drop_last());
        match after_prefix(trimmed(line_text(lines.last())), "data: "@) {
            Some(data) => match parsed_json(data) {
                Ok(v) => match json_stream_event(v) {
                    Some(e) => before.push(e),
                    None => before,
                },
                Err(_) => before,
            },
            None => before,
        }
    }
}

/// Whether an event begins a tool call.
pub open spec fn begins_call(e: SourceEventView) -> bool {
    e.kind == "content_block_start"@ && (e.content_block matches Some(b) && b.kind == "tool_use"@)
}

/// Whether an event opens or closes the block with a number.
pub open spec fn turns_over(e: SourceEventView, index: u64) -> bool {
    e.index == Some(index) && (begins_call(e) || e.kind == "content_block_stop"@)
}

/// Whether an event opened the block with a number, which then is still open.
pub open spec fn opened(es: Seq<SourceEventView>, o: int, index: u64) -> bool {
    &&& 0 <= o < es.len()
    &&& begins_call(es[o])
    &&& es[o].index == Some(index)
    &&& forall|k: int| o < k < es.len() ==> !turns_over(#[trigger] es[k], index)
}

/// The event that opened the block with a number, if it is open.
pub open spec fn opener(es: Seq<SourceEventView>, index: Option<u64>) -> Option<SourceEventView> {
    match index {
        Some(i) => if exists|o: int| #[trigger] opened(es, o, i) {
            Some(es[choose|o: int| #[trigger] opened(es, o, i)])
        } else {
            None
        },
        None => None,
    }
}

/// The identifier of the tool call that an event begins.
pub open spec fn id_of(e: SourceEventView) -> Seq<char> {
    match e.content_block->0.id {
        Some(id) => id,
        None => Seq::empty(),
    }
}

/// All text of some events, joined in order.
pub open spec fn words_in(es: Seq<SourceEventView>) -> Seq<char>
    decreases es.len(),
{
    if es.len() == 0 {
        Seq::empty()
    } else {
        let e = es.last();
        words_in(es.drop_last()) + match e.delta {
            Some(d) => if e.kind == "content_block_delta"@ && d.text is Some {
                d.text->0
            } else {
                Seq::empty()
            },
            None => Seq::empty(),
        }
    }
}

/// All arguments in some events for the tool calls with an identifier: those in a
/// block that a call with that identifier opened. Arguments in no such block belong
/// to the call without an identifier.
pub open spec fn arguments_in(es: Seq<SourceEventView>, id: Seq<char>) -> Seq<char>
    decreases es.len(),
{
    if es.len() == 0 {
        Seq::empty()
    } else {
        let e = es.last();
        let owner = match opener(es.drop_last(), e.index) {
            Some(o) => id_of(o),
            None => Seq::empty(),
        };
        arguments_in(es.drop_last(), id) + match e.delta {
            Some(d) => if e.kind == "content_block_delta"@ && d.partial_json is Some && owner
                == id {
                d.partial_json->0
            } else {
                Seq::empty()
            },
            None => Seq::empty(),
        }
    }
}

/// The names with which tool calls with an identifier begin, in order.
pub open spec fn names_in(es: Seq<SourceEventView>, id: Seq<char>) -> Seq<Seq<char>>
    decreases es.len(),
{
    if es.len() == 0 {
        Seq::empty()
    } else {
        let e = es.last();
        names_in(es.drop_last(), id) + if begins_call(e) && id_of(e) == id {
            seq![
                match e.content_block->0.name {
                    Some(n) => n,
                    None => Seq::empty(),
                },
            ]
        } else {
            Seq::empty()
        }
    }
}

/// How often a block that a tool call with an identifier opened is closed.
pub open spec fn ends_in(es: Seq<SourceEventView>, id: Seq<char>) -> nat
    decreases es.len(),
{
    if es.len() == 0 {
        0
    } else {
        let e = es.last();
        let owner = opener(es.drop_last(), e.index);
        ends_in(es.drop_last(), id) + if e.kind == "content_block_stop"@ && owner is Some && id_of(
            owner->0,
        ) == id {
            1nat
        } else {
            0
        }
    }
}

/// How many events say that the stream is complete.
pub open spec fn dones_in(es: Seq<SourceEventView>) -> nat
    decreases es.len(),
{
    if es.len() == 0 {
        0
    } else {
        dones_in(es.drop_last()) + if es.last().kind == "message_stop"@ {
            1nat
        } else {
            0
        }
    }
}

/// Whether a block is open exactly if some events have opened and not closed it.
spec fn kept_at(ids: OpenCalls, es: Seq<SourceEventView>, i: u64) -> bool {
    match opener(es, Some(i)) {
        Some(o) => ids.contains_key(i) && ids[i] == id_of(o),
        None => !ids.contains_key(i),
    }
}

/// Whether the open blocks are those that some events have opened and not closed.
spec fn keeps(ids: OpenCalls, es: Seq<SourceEventView>) -> bool {
    forall|i: u64| #[trigger] kept_at(ids, es, i)
}

proof fn lemma_opener_found(es: Seq<SourceEventView>, o: int, i: u64)
    requires
        opened(es, o, i),
    ensures
        opener(es, Some(i)) == Some(es[o]),
{
    let c = choose|o: int| #[trigger] opened(es, o, i);
    assert(opened(es, c, i));
    if c < o {
        assert(turns_over(es[o], i));
    } else if o < c {
        assert(turns_over(es[c], i));
    }
}

proof fn lemma_kinds()
    ensures
        "content_block_start"@ != "content_block_stop"@,
        "content_block_start"@ != "content_block_delta"@,
        "content_block_delta"@ != "content_block_stop"@,
        "message_stop"@ != "content_block_start"@,
        "message_stop"@ != "content_block_stop"@,
        "message_stop"@ != "content_block_delta"@,
{
    reveal_strlit("content_block_start");
    reveal_strlit("content_block_stop");
    reveal_strlit("content_block_delta");
    reveal_strlit("message_stop");
    assert("content_block_start"@[14] == 's' && "content_block_delta"@[14] == 'd');
    assert("content_block_start"@.len() == 19);
    assert("content_block_stop"@.len() == 18);
    assert("content_block_delta"@.len() == 19);
    assert("message_stop"@.len() == 12);
}

proof fn lemma_keeps(ids: OpenCalls, es: Seq<SourceEventView>, e: SourceEventView)
    requires
        keeps(ids, es),
    ensures
        keeps(calls_after(ids, e), es.push(e)),
{
    lemma_kinds();
    let all = es.push(e);
    let after = calls_after(ids, e);
    assert forall|i: u64| #[trigger] kept_at(after, all, i) by {
        let n = es.len() as int;
        assert(kept_at(ids, es, i));
        if turns_over(e, i) {
            if begins_call(e) {
                assert(opened(all, n, i));
                lemma_opener_found(all, n, i);
            } else {
                assert forall|o: int| !#[trigger] opened(all, o, i) by {
                    if o < n {
                        assert(turns_over(all[n], i));
                    }
                }
            }
        } else {
            assert(ids.contains_key(i) == after.contains_key(i));
            if exists|o: int| #[trigger] opened(es, o, i) {
                let o = choose|o: int| #[trigger] opened(es, o, i);
                lemma_opener_found(es, o, i);
                assert forall|k: int| o < k < all.len() implies !turns_over(
                    #[trigger] all[k],
                    i,
                ) by {
                    if k < n {
                        assert(all[k] == es[k]);
                    }
                }
                assert(opened(all, o, i));
                lemma_opener_found(all, o, i);
            } else {
                assert forall|o: int| !#[trigger] opened(all, o, i) by {
                    if opened(all, o, i) {
                        assert(o < n);
                        assert(forall|k: int| o < k < es.len() ==> es[k] == all[k]);
                        assert(opened(es, o, i));
                    }
                }
                assert(opener(es, Some(i)) is None);
            }
        }
    }
}

proof fn lemma_event_told(
    ids: OpenCalls,
    es: Seq<SourceEventView>,
    e: SourceEventView,
    id: Seq<char>,
)
    requires
        keeps(ids, es),
    ensures
        ({
            let all = es.push(e);
            let events = events_for(ids, e);
            &&& words_in(all) == words_in(es) + spoken(events)
            &&& arguments_in(all, id) == arguments_in(es, id) + arguments_told(events, id)
            &&& names_in(all, id) == names_in(es, id) + names_told(events, id)
            &&& ends_in(all, id) == ends_in(es, id) + ends_told(events, id)
            &&& dones_in(all) == dones_in(es) + dones_told(events)
        }),
{
    lemma_kinds();
    let all = es.push(e);
    assert(all.drop_last() =~= es);
    let events = events_for(ids, e);
    let nothing = Seq::<EventView>::empty();
    if let Some(i) = e.index {
        assert(kept_at(ids, es, i));
    }
    if e.kind == "content_block_delta"@ && e.delta is Some {
        let d = e.delta->0;
        let owner = match opener(es, e.index) {
            Some(o) => id_of(o),
            None => Seq::empty(),
        };
        let text = match d.text {
            Some(t) => seq![EventView::TextDelta(t)],
            None => Seq::empty(),
        };
        let json = match d.partial_json {
            Some(j) => seq![EventView::ToolCallDelta { id: owner, arguments_delta: j }],
            None => Seq::empty(),
        };
        assert(events =~= text + json);
        events_add_up(text, json, id);
        if let Some(t) = d.text {
            single_events(EventView::TextDelta(t), id);
        }
        if let Some(j) = d.partial_json {
            single_events(EventView::ToolCallDelta { id: owner, arguments_delta: j }, id);
        }
    } else if events.len() == 1 {
        single_events(events[0], id);
        assert(events =~= seq![events[0]]);
    } else {
        assert(events =~= nothing);
    }
    assert(words_in(all) =~= words_in(es) + spoken(events));
    assert(arguments_in(all, id) =~= arguments_in(es, id) + arguments_told(events, id));
    assert(names_in(all, id) =~= names_in(es, id) + names_told(events, id));
}

proof fn lemma_lines_told(lines: Seq<Seq<u8>>, id: Seq<char>)
    ensures
        ({
            let (ids, events) = after_lines(Map::empty(), lines);
            let es = events_in(lines);
            &&& keeps(ids, es)
            &&& spoken(events) == words_in(es)
            &&& arguments_told(events, id) == arguments_in(es, id)
            &&& names_told(events, id) == names_in(es, id)
            &&& ends_told(events, id) == ends_in(es, id)
            &&& dones_told(events) == dones_in(es)
        }),
    decreases lines.len(),
{
    if lines.len() > 0 {
        let init = lines.drop_last();
        lemma_lines_told(init, id);
        let (ids, events) = after_lines(Map::empty(), init);
        let line = trimmed(line_text(lines.last()));
        let more = after_line(ids, line).1;
        events_add_up(events, more, id);
        match line_event(line) {
            Some(e) => {
                lemma_keeps(ids, events_in(init), e);
                lemma_event_told(ids, events_in(init), e, id);
            },
            None => {
                assert(more =~= Seq::<EventView>::empty());
                assert(events + more =~= events);
            },
        }
    }
}

/// The events of a stream say all that its lines carry: all text joined in order is
/// the text of all pieces joined in order, and so are the arguments of each tool
/// call, whatever other calls are open meanwhile. Each call begins under its name
/// and ends when its block is closed, and the stream is complete as often as the
/// service says so.
pub proof fn streams_are_told_whole(lines: Seq<Seq<u8>>)
    ensures
        ({
            let events = after_lines(Map::empty(), lines).1;
            let es = events_in(lines);
            &&& spoken(events) == words_in(es)
            &&& forall|id: Seq<char>| #[trigger] arguments_told(events, id) == arguments_in(es, id)
            &&& forall|id: Seq<char>| #[trigger] names_told(events, id) == names_in(es, id)
            &&& forall|id: Seq<char>| #[trigger] ends_told(events, id) == ends_in(es, id)
            &&& dones_told(events) == dones_in(es)
        }),
{
    let events = after_lines(Map::empty(), lines).1;
    let es = events_in(lines);
    lemma_lines_told(lines, Seq::empty());
    assert forall|id: Seq<char>| #[trigger] arguments_told(events, id) == arguments_in(es, id) by {
        lemma_lines_told(lines, id);
    }
    assert forall|id: Seq<char>| #[trigger] names_told(events, id) == names_in(es, id) by {
        lemma_lines_told(lines, id);
    }
    assert forall|id: Seq<char>| #[trigger] ends_told(events, id) == ends_in(es, id) by {
        lemma_lines_told(lines, id);
    }
}

// ---------------------------------------------------------------------
// The exchange
// ---------------------------------------------------------------------

/// A request is sent again only if the service is busy or at fault, and only as often
/// as allowed. Whatever else comes back ends the exchange.
pub proof fn only_passing_faults_are_retried(model: AnthropicView, attempt: u32, code: u16)
    ensures
        code < 429 || 430 <= code < 500 || code >= 600 ==> ends(model, attempt, code),
        code == 429 || 500 <= code < 600 ==> (ends(model, attempt, code) <==> attempt
            >= model.max_retries),
{
}

/// The error for a bad status says which it was and what the service said.
pub proof fn errors_say_what_went_wrong(status: Seq<char>, body: Seq<char>)
    ensures
        api_error(status, body) matches ErrorView::Model(words) && holds(words, status) && holds(
            words,
            body,
        ),
{
    let head = "Anthropic API error ("@;
    let mid = "): "@;
    lemma_holds_within(head, status, mid + body);
    assert(head + status + (mid + body) =~= head + status + mid + body);
    lemma_holds_within(head + status + mid, body, Seq::empty());
    assert(head + status + mid + body + Seq::<char>::empty() =~= head + status + mid + body);
}

/// A last line that lacks its end is read as it would be with it.
pub proof fn the_last_line_end_does_not_matter(s: StreamView)
    requires
        !s.pending.contains(NEWLINE),
        trimmed(line_text(s.pending)) == line_text(s.pending),
        s.pending.len() > 0,
    ensures
        ended(s).1 == received(s, seq![NEWLINE]).1,
        ended(s).0 == received(s, seq![NEWLINE]).0,
{
    let whole = s.pending + seq![NEWLINE];
    assert(whole.drop_last() =~= s.pending);
    lemma_no_end(s.pending, NEWLINE);
    let lines = split(whole, NEWLINE).0;
    assert(lines =~= seq![s.pending]);
    assert(lines.drop_last() =~= Seq::<Seq<u8>>::empty());
    reveal_with_fuel(after_lines, 2);
    assert(Seq::<EventView>::empty() + after_line(s.calls, line_text(s.pending)).1 =~= after_line(
        s.calls,
        line_text(s.pending),
    ).1);
}

/// What comes earlier is told earlier: lines in their order, and the text of an event
/// before its arguments.
pub proof fn events_keep_the_order_of_lines(
    ids: OpenCalls,
    a: Seq<Seq<u8>>,
    b: Seq<Seq<u8>>,
    e: SourceEventView,
)
    ensures
        after_lines(ids, a + b).1 == after_lines(ids, a).1 + after_lines(
            after_lines(ids, a).0,
            b,
        ).1,
        forall|i: int, j: int|
            0 <= i < j < events_for(ids, e).len() ==> #[trigger] events_for(ids, e)[i] is TextDelta
                && #[trigger] events_for(ids, e)[j] is ToolCallDelta,
{
    lemma_lines_in_two_parts(ids, a, b);
}

proof fn lemma_lines_in_two_parts(ids: OpenCalls, a: Seq<Seq<u8>>, b: Seq<Seq<u8>>)
    ensures
        after_lines(ids, a + b).0 == after_lines(after_lines(ids, a).0, b).0,
        after_lines(ids, a + b).1 == after_lines(ids, a).1 + after_lines(
            after_lines(ids, a).0,
            b,
        ).1,
    decreases b.len(),
{
    let mid = after_lines(ids, a);
    if b.len() == 0 {
        assert(a + b =~= a);
        assert(mid.1 + after_lines(mid.0, b).1 =~= mid.1);
    } else {
        let init = b.drop_last();
        lemma_lines_in_two_parts(ids, a, init);
        assert((a + b).drop_last() =~= a + init);
        let before = after_lines(mid.0, init);
        let more = after_line(before.0, trimmed(line_text(b.last()))).1;
        assert(mid.1 + before.1 + more =~= mid.1 + (before.1 + more));
    }
}

/// A line is read once it is complete, and is kept until then.
pub proof fn complete_lines_are_read(calls: OpenCalls, line: Seq<u8>)
    requires
        !line.contains(NEWLINE),
    ensures
        received(StreamView { pending: Seq::empty(), calls }, line) == (
            StreamView { pending: line, calls },
            Seq::<EventView>::empty(),
        ),
        received(StreamView { pending: Seq::empty(), calls }, line.push(NEWLINE)) == (
            StreamView { pending: Seq::empty(), calls: after_lines(calls, seq![line]).0 },
            after_lines(calls, seq![line]).1,
        ),
{
    lemma_no_end(line, NEWLINE);
    assert(Seq::<u8>::empty() + line =~= line);
    let whole = line.push(NEWLINE);
    assert(Seq::<u8>::empty() + whole =~= whole);
    assert(whole.drop_last() =~= line);
    assert(split(whole, NEWLINE).0 =~= seq![line]);
}

} // verus!
