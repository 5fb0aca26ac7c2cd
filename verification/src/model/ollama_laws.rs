//! What the requests, answers and streams of the chat API of Ollama are good for.

use crate::contained::{holds, lemma_holds_within};
use crate::error::{ErrorView, Result};
use crate::json::{parsed_json, JsonView};
use crate::members::{
    affirms, counts, item, lacks, lists, may_say, only, role_word, says, says_if_any,
};
use crate::model::line_buffer::{line_text, NEWLINE};
use crate::model::ollama::{
    after_line, after_lines, call_entry, call_events, call_id, calls_read, exchange_ends, fresh,
    json_function, json_functions, json_record, message_entry, opt_answer_at, received,
    record_events, request_json, slash_run, tool_entry, without_slashes, AnswerView, FunctionView,
    OllamaView, Progress, RecordView, StreamView,
};
use crate::model::types::{ChatResponse, MessageView, RequestView, Role, ToolSpecView};
use crate::split::{lemma_no_end, split};
use crate::stream::{dones_told, events_add_up, single_events, spoken, EventView};
use crate::text::trimmed;
use crate::tool::ToolCallView;
use vstd::prelude::*;

verus! {

// ---------------------------------------------------------------------
// Requests
// ---------------------------------------------------------------------

proof fn lemma_names()
    ensures
        "model"@ != "tools"@,
        "model"@.len() == 5,
        "messages"@.len() == 8,
        "stream"@.len() == 6,
        "tools"@.len() == 5,
        "options"@.len() == 7,
        "keep_alive"@.len() == 10,
        "temperature"@ != "num_predict"@,
        "role"@.len() == 4,
        "content"@.len() == 7,
        "tool_calls"@.len() == 10,
        "function"@.len() == 8,
        "name"@.len() == 4,
        "type"@.len() == 4,
        "arguments"@.len() == 9,
        "description"@.len() == 11,
        "parameters"@.len() == 10,
{
    reveal_strlit("model");
    reveal_strlit("messages");
    reveal_strlit("stream");
    reveal_strlit("tools");
    reveal_strlit("options");
    reveal_strlit("keep_alive");
    reveal_strlit("temperature");
    reveal_strlit("num_predict");
    reveal_strlit("role");
    reveal_strlit("content");
    reveal_strlit("tool_calls");
    reveal_strlit("function");
    reveal_strlit("name");
    reveal_strlit("type");
    reveal_strlit("arguments");
    reveal_strlit("description");
    reveal_strlit("parameters");
    assert("model"@[0] == 'm' && "tools"@[0] == 't');
    assert("temperature"@[0] == 't' && "num_predict"@[0] == 'n');
}

/// Whether a JSON object carries a tool call to the service.
pub open spec fn sends_call(v: JsonView, c: ToolCallView) -> bool {
    v.field("function"@) matches Some(f) && says(f, "name"@, c.name) && f.field("arguments"@)
        == Some(c.arguments)
}

/// Whether a JSON object carries a message to the service: whose it is, its text and
/// all its tool calls. What is missing has no member.
pub open spec fn sends_message(v: JsonView, m: MessageView) -> bool {
    &&& only(v, set!["role"@, "content"@, "tool_calls"@])
    &&& says(v, "role"@, role_word(m.role))
    &&& says_if_any(v, "content"@, m.content)
    &&& if m.tool_calls.len() == 0 {
        lacks(v, "tool_calls"@)
    } else {
        &&& lists(v, "tool_calls"@, m.tool_calls.len())
        &&& forall|i: int|
            0 <= i < m.tool_calls.len() ==> sends_call(
                item(v, "tool_calls"@, i),
                #[trigger] m.tool_calls[i],
            )
    }
}

/// Whether a JSON object offers a tool to the service.
pub open spec fn offers_tool(v: JsonView, t: ToolSpecView) -> bool {
    &&& says(v, "type"@, "function"@)
    &&& v.field("function"@) matches Some(f) && says(f, "name"@, t.name) && says(
        f,
        "description"@,
        t.description,
    ) && f.field("parameters"@) == Some(t.parameters)
}

/// A message reaches the service whole.
pub proof fn messages_are_sent_whole(m: MessageView)
    ensures
        sends_message(message_entry(m), m),
{
    lemma_names();
    let v = message_entry(m);
    assert forall|i: int| 0 <= i < m.tool_calls.len() implies sends_call(
        item(v, "tool_calls"@, i),
        #[trigger] m.tool_calls[i],
    ) by {
        assert(item(v, "tool_calls"@, i) == call_entry(m.tool_calls[i]));
    }
}

/// A request reaches the service whole: it names the model and carries each message
/// and each tool, in order, and every setting. There are tools and options exactly
/// if some were given.
pub proof fn requests_are_sent_whole(model: OllamaView, q: RequestView, stream: bool)
    ensures
        ({
            let v = request_json(model, q, stream);
            &&& only(
                v,
                set!["model"@, "messages"@, "stream"@, "tools"@, "options"@, "keep_alive"@],
            )
            &&& says(v, "model"@, model.model)
            &&& affirms(v, "stream"@, stream)
            &&& says_if_any(v, "keep_alive"@, model.keep_alive)
            &&& lists(v, "messages"@, q.messages.len())
            &&& forall|i: int|
                0 <= i < q.messages.len() ==> sends_message(
                    item(v, "messages"@, i),
                    #[trigger] q.messages[i],
                )
            &&& lacks(v, "tools"@) <==> q.tools.len() == 0
            &&& q.tools.len() > 0 ==> lists(v, "tools"@, q.tools.len())
            &&& forall|i: int|
                0 <= i < q.tools.len() ==> offers_tool(item(v, "tools"@, i), #[trigger] q.tools[i])
            &&& lacks(v, "options"@) <==> q.temperature is None && q.max_tokens is None
            &&& q.temperature is Some ==> v.field("options"@)->0.field("temperature"@)
                == q.temperature
            &&& q.temperature is None && q.max_tokens is Some ==> lacks(
                v.field("options"@)->0,
                "temperature"@,
            )
            &&& q.max_tokens matches Some(n) ==> counts(
                v.field("options"@)->0,
                "num_predict"@,
                n as nat,
            )
            &&& q.max_tokens is None && q.temperature is Some ==> lacks(
                v.field("options"@)->0,
                "num_predict"@,
            )
        }),
{
    lemma_names();
    let v = request_json(model, q, stream);
    assert forall|i: int| 0 <= i < q.messages.len() implies sends_message(
        item(v, "messages"@, i),
        #[trigger] q.messages[i],
    ) by {
        messages_are_sent_whole(q.messages[i]);
        assert(item(v, "messages"@, i) == message_entry(q.messages[i]));
    }
    assert forall|i: int| 0 <= i < q.tools.len() implies offers_tool(
        item(v, "tools"@, i),
        #[trigger] q.tools[i],
    ) by {
        assert(item(v, "tools"@, i) == tool_entry(q.tools[i]));
    }
}

// ---------------------------------------------------------------------
// Answers
// ---------------------------------------------------------------------

/// Whether a JSON object says a tool call.
pub open spec fn tells_call(v: JsonView, c: FunctionView) -> bool {
    v is Object && (v.field("function"@) matches Some(f) && f is Object && says(
        f,
        "name"@,
        c.name,
    ) && f.field("arguments"@) == Some(c.arguments))
}

/// Whether a JSON object says the message of an answer.
pub open spec fn tells_answer(v: JsonView, a: AnswerView) -> bool {
    &&& v is Object
    &&& may_say(v, "content"@, a.content)
    &&& (lacks(v, "tool_calls"@) && a.tool_calls.len() == 0) || (lists(
        v,
        "tool_calls"@,
        a.tool_calls.len(),
    ) && forall|i: int|
        0 <= i < a.tool_calls.len() ==> tells_call(
            item(v, "tool_calls"@, i),
            #[trigger] a.tool_calls[i],
        ))
}

/// Whether a JSON object says a record.
pub open spec fn tells_record(v: JsonView, r: RecordView) -> bool {
    &&& v is Object
    &&& match r.message {
        Some(a) => v.field("message"@) matches Some(m) && tells_answer(m, a),
        None => lacks(v, "message"@) || v.field("message"@) == Some(JsonView::Null),
    }
    &&& affirms(v, "done"@, r.done) || (!r.done && lacks(v, "done"@))
    &&& match r.prompt_eval_count {
        Some(n) => counts(v, "prompt_eval_count"@, n as nat),
        None => lacks(v, "prompt_eval_count"@),
    }
    &&& match r.eval_count {
        Some(n) => counts(v, "eval_count"@, n as nat),
        None => lacks(v, "eval_count"@),
    }
}

/// A record is read whole.
pub proof fn records_are_read_whole(v: JsonView, r: RecordView)
    requires
        tells_record(v, r),
    ensures
        json_record(v) == Some(r),
{
    if let Some(a) = r.message {
        let m = v.field("message"@)->0;
        if lacks(m, "tool_calls"@) {
            assert(a.tool_calls =~= Seq::<FunctionView>::empty());
        } else {
            let items = m.field("tool_calls"@)->0->Array_0;
            assert forall|i: int| 0 <= i < items.len() implies json_function(#[trigger] items[i])
                == Some(a.tool_calls[i]) by {
                assert(tells_call(item(m, "tool_calls"@, i), a.tool_calls[i]));
            }
            assert(Seq::new(items.len(), |i: int| json_function(items[i])->0) =~= a.tool_calls);
        }
        assert(json_functions(m.field("tool_calls"@)) == Some(a.tool_calls));
        assert(opt_answer_at(v) == Some(Some(a)));
    }
}

/// An answer of the service is handed on whole: its text, one for one its tool calls,
/// each under an identifier of its own, and what it took. A status that is not good
/// and an answer without a message are errors.
pub proof fn answers_are_handed_on_whole(
    code: u16,
    status: Seq<char>,
    body: Seq<char>,
    v: JsonView,
    record: RecordView,
    r: Result<ChatResponse>,
)
    requires
        parsed_json(body) == Ok::<JsonView, Seq<char>>(v),
        tells_record(v, record),
        exchange_ends(code, status, body, r),
    ensures
        r is Ok <==> 200 <= code < 300 && record.message is Some,
        r is Ok ==> {
            let a = record.message->0;
            let m = r->Ok_0.message@;
            &&& m.role == Role::Assistant
            &&& m.tool_call_id is None
            &&& a.content is Some ==> m.content == a.content
            &&& a.content is None ==> (m.content matches Some(t) ==> t.len() == 0)
            &&& m.content is None ==> m.tool_calls.len() > 0
            &&& m.tool_calls.len() == a.tool_calls.len()
            &&& forall|i: int|
                0 <= i < a.tool_calls.len() ==> (#[trigger] m.tool_calls[i]).name
                    == a.tool_calls[i].name && m.tool_calls[i].arguments
                    == a.tool_calls[i].arguments && m.tool_calls[i].id == call_id(i as nat)
            &&& r->Ok_0.stop_reason is ToolUse <==> a.tool_calls.len() > 0
            &&& !(r->Ok_0.stop_reason is MaxTokens)
            &&& r->Ok_0.usage is Some <==> record.prompt_eval_count is Some
            &&& r->Ok_0.usage matches Some(u) ==> u.input_tokens == record.prompt_eval_count->0
                && u.output_tokens == (match record.eval_count {
                Some(n) => n,
                None => 0,
            })
        },
{
    records_are_read_whole(v, record);
}

// ---------------------------------------------------------------------
// Streams
// ---------------------------------------------------------------------

/// The record that a line carries. A blank line carries none.
pub open spec fn record_in(line: Seq<char>) -> Option<RecordView> {
    match parsed_json(line) {
        Ok(v) => json_record(v),
        Err(_) => None,
    }
}

/// Whether a stream breaks off at a line: it is not blank and cannot be read.
pub open spec fn breaks(bytes: Seq<u8>) -> bool {
    let line = trimmed(line_text(bytes));
    line.len() > 0 && record_in(line) is None
}

/// Whether a stream breaks off somewhere.
pub open spec fn broken(lines: Seq<Seq<u8>>) -> bool {
    exists|k: int| 0 <= k < lines.len() && breaks(#[trigger] lines[k])
}

/// The records of a stream, in order, up to where it breaks off.
pub open spec fn records_in(lines: Seq<Seq<u8>>) -> Seq<RecordView>
    decreases lines.len(),
{
    if lines.len() == 0 {
        Seq::empty()
    } else {
        let before = records_in(lines.drop_last());
        let line = trimmed(line_text(lines.last()));
        if broken(lines.drop_last()) || line.len() == 0 || record_in(line) is None {
            before
        } else {
            before.push(record_in(line)->0)
        }
    }
}

/// All text of some records, joined in order.
pub open spec fn words_in(s: Seq<RecordView>) -> Seq<char>
    decreases s.len(),
{
    if s.len() == 0 {
        Seq::empty()
    } else {
        words_in(s.drop_last()) + match s.last().message {
            Some(m) => match m.content {
                Some(t) => t,
                None => Seq::empty(),
            },
            None => Seq::empty(),
        }
    }
}

/// All tool calls of some records, in order.
pub open spec fn calls_in(s: Seq<RecordView>) -> Seq<FunctionView>
    decreases s.len(),
{
    if s.len() == 0 {
        Seq::empty()
    } else {
        calls_in(s.drop_last()) + match s.last().message {
            Some(m) => m.tool_calls,
            None => Seq::empty(),
        }
    }
}

/// How many records say that the stream is complete.
pub open spec fn dones_in(s: Seq<RecordView>) -> nat
    decreases s.len(),
{
    if s.len() == 0 {
        0
    } else {
        dones_in(s.drop_last()) + if s.last().done {
            1nat
        } else {
            0
        }
    }
}

proof fn lemma_calls_say_nothing(n: u64, calls: Seq<FunctionView>)
    ensures
        spoken(call_events(n, calls).1) == Seq::<char>::empty(),
        dones_told(call_events(n, calls).1) == 0,
    decreases calls.len(),
{
    if calls.len() > 0 {
        lemma_calls_say_nothing(n, calls.drop_last());
        let before = call_events(n, calls.drop_last()).1;
        let events = call_events(n, calls).1;
        let more = events.skip(before.len() as int);
        assert(events =~= before + more);
        events_add_up(before, more, Seq::empty());
        assert(more.len() == 3);
        single_events(more[0], Seq::empty());
        single_events(more[1], Seq::empty());
        single_events(more[2], Seq::empty());
        events_add_up(seq![more[0]], seq![more[1]], Seq::empty());
        events_add_up(seq![more[0]] + seq![more[1]], seq![more[2]], Seq::empty());
        assert(more =~= seq![more[0]] + seq![more[1]] + seq![more[2]]);
        assert(spoken(events) =~= Seq::<char>::empty());
    }
}

proof fn lemma_record_said(n: u64, r: RecordView)
    ensures
        spoken(record_events(n, r).1) == words_in(seq![r]),
        dones_told(record_events(n, r).1) == dones_in(seq![r]),
{
    let calls = match r.message {
        Some(m) => call_events(n, m.tool_calls).1,
        None => Seq::empty(),
    };
    if let Some(m) = r.message {
        lemma_calls_say_nothing(n, m.tool_calls);
    }
    let text = match r.message {
        Some(m) => match m.content {
            Some(t) => if t.len() > 0 {
                seq![EventView::TextDelta(t)]
            } else {
                Seq::empty()
            },
            None => Seq::empty(),
        },
        None => Seq::empty(),
    };
    let end = if r.done {
        seq![EventView::Done]
    } else {
        Seq::empty()
    };
    let id = Seq::<char>::empty();
    events_add_up(calls, text, id);
    events_add_up(calls + text, end, id);
    single_events(EventView::Done, id);
    if text.len() > 0 {
        single_events(text[0], id);
        assert(text =~= seq![text[0]]);
    }
    assert(seq![r].drop_last() =~= Seq::<RecordView>::empty());
    reveal_with_fuel(words_in, 2);
    reveal_with_fuel(dones_in, 2);
    assert(spoken(record_events(n, r).1) =~= words_in(seq![r]));
}

/// The events of a stream say all that its records carry, up to where it breaks off:
/// all text joined in order is the text of all records joined in order, its tool
/// calls are those of all records, and it is complete as often as a record says so.
/// It fails exactly if a line cannot be read.
pub proof fn streams_are_told_whole(lines: Seq<Seq<u8>>)
    ensures
        ({
            let p = after_lines(fresh().start(), lines);
            let s = records_in(lines);
            &&& spoken(p.events) == words_in(s)
            &&& calls_read(lines) == calls_in(s)
            &&& dones_told(p.events) == dones_in(s)
            &&& p.over <==> broken(lines)
            &&& p.failure is Some <==> broken(lines)
        }),
    decreases lines.len(),
{
    if lines.len() > 0 {
        let init = lines.drop_last();
        let line = trimmed(line_text(lines.last()));
        streams_are_told_whole(init);
        let before = after_lines(fresh().start(), init);
        let p = after_line(before, line);
        assert(breaks(lines.last()) ==> broken(lines)) by {
            assert(lines[lines.len() - 1] == lines.last());
        }
        if broken(init) {
            let k = choose|k: int| 0 <= k < init.len() && breaks(#[trigger] init[k]);
            assert(breaks(lines[k]));
        } else if !breaks(lines.last()) {
            assert forall|k: int| 0 <= k < lines.len() implies !breaks(#[trigger] lines[k]) by {
                if k < init.len() {
                    assert(init[k] == lines[k]);
                }
            }
        }
        if !broken(init) && line.len() > 0 && record_in(line) is Some {
            let r = record_in(line)->0;
            let more = record_events(before.seq, r).1;
            lemma_record_said(before.seq, r);
            events_add_up(before.events, more, Seq::empty());
            let s = records_in(lines);
            assert(s.drop_last() =~= records_in(init));
            assert(seq![r].drop_last() =~= Seq::<RecordView>::empty());
            reveal_with_fuel(words_in, 2);
            reveal_with_fuel(dones_in, 2);
            assert(words_in(s) =~= words_in(records_in(init)) + words_in(seq![r]));
        } else {
            assert(p.events == before.events);
            if !broken(init) {
                assert(calls_read(lines) =~= calls_read(init));
            }
        }
    }
}

proof fn lemma_slashes(s: Seq<char>)
    ensures
        slash_run(s) <= s.len(),
    decreases s.len(),
{
    if s.len() > 0 && s.last() == '/' {
        lemma_slashes(s.drop_last());
    }
}

/// An address loses the slashes at its end and nothing else.
pub proof fn only_slashes_at_the_end_go(s: Seq<char>)
    ensures
        without_slashes(s).is_prefix_of(s),
        without_slashes(s).len() > 0 ==> without_slashes(s).last() != '/',
        forall|i: int| without_slashes(s).len() <= i < s.len() ==> #[trigger] s[i] == '/',
    decreases s.len(),
{
    if s.len() > 0 && s.last() == '/' {
        let init = s.drop_last();
        only_slashes_at_the_end_go(init);
        lemma_slashes(init);
        assert(without_slashes(s) =~= without_slashes(init));
        assert(forall|i: int| 0 <= i < init.len() ==> init[i] == s[i]);
    } else {
        assert(without_slashes(s) =~= s);
    }
}

/// The error for a bad status says which it was and what the service said.
pub proof fn errors_say_what_went_wrong(
    code: u16,
    status: Seq<char>,
    body: Seq<char>,
    r: Result<ChatResponse>,
)
    requires
        exchange_ends(code, status, body, r),
        code < 200 || code >= 300,
    ensures
        r matches Err(e) && (e@ matches ErrorView::Model(words) && holds(words, status) && holds(
            words,
            body,
        )),
{
    lemma_holds_within("Ollama "@, status, ": "@ + body);
    assert("Ollama "@ + status + (": "@ + body) =~= "Ollama "@ + status + ": "@ + body);
    lemma_holds_within("Ollama "@ + status + ": "@, body, Seq::empty());
    assert("Ollama "@ + status + ": "@ + body + Seq::<char>::empty() =~= "Ollama "@ + status + ": "@
        + body);
}

/// What comes earlier is told earlier: the tool calls of a record before its text, and
/// its end last. Records are told in their order.
pub proof fn records_are_told_in_order(n: u64, r: RecordView, p: Progress, line: Seq<char>)
    ensures
        ({
            let events = record_events(n, r).1;
            &&& forall|i: int, j: int|
                0 <= i < j < events.len() && (#[trigger] events[j] is ToolCallStart
                    || events[j] is ToolCallDelta || events[j] is ToolCallEnd) ==> !(
                #[trigger] events[i] is TextDelta) && !(events[i] is Done)
            &&& r.done ==> events.len() > 0 && events.last() is Done
            &&& forall|i: int| 0 <= i < events.len() - 1 ==> !(#[trigger] events[i] is Done)
        }),
        p.events.is_prefix_of(after_line(p, line).events),
{
    let calls = match r.message {
        Some(m) => call_events(n, m.tool_calls).1,
        None => Seq::empty(),
    };
    if let Some(m) = r.message {
        lemma_calls_alone(n, m.tool_calls);
    }
    let events = record_events(n, r).1;
    assert(forall|i: int| 0 <= i < calls.len() ==> events[i] == calls[i]);
    assert(forall|i: int|
        calls.len() <= i < events.len() ==> !(#[trigger] events[i] is ToolCallStart)
            && !(events[i] is ToolCallDelta) && !(events[i] is ToolCallEnd));
}

proof fn lemma_calls_alone(n: u64, calls: Seq<FunctionView>)
    ensures
        forall|i: int|
            0 <= i < call_events(n, calls).1.len() ==> {
                let e = #[trigger] call_events(n, calls).1[i];
                e is ToolCallStart || e is ToolCallDelta || e is ToolCallEnd
            },
    decreases calls.len(),
{
    if calls.len() > 0 {
        lemma_calls_alone(n, calls.drop_last());
        let before = call_events(n, calls.drop_last()).1;
        let all = call_events(n, calls).1;
        assert(forall|i: int| 0 <= i < before.len() ==> all[i] == before[i]);
    }
}

/// A line is read once it is complete, and is kept until then.
pub proof fn complete_lines_are_read(s: StreamView, line: Seq<u8>)
    requires
        s.pending.len() == 0,
        !line.contains(NEWLINE),
    ensures
        received(s, line).0 == (StreamView { pending: line, ..s }),
        received(s, line).1 == s.start(),
        received(s, line.push(NEWLINE)).1 == after_lines(s.start(), seq![line]),
        received(s, line.push(NEWLINE)).0.pending.len() == 0,
{
    lemma_no_end(line, NEWLINE);
    assert(s.pending =~= Seq::<u8>::empty());
    assert(s.pending + line =~= line);
    let whole = line.push(NEWLINE);
    assert(s.pending + whole =~= whole);
    assert(whole.drop_last() =~= line);
    assert(split(whole, NEWLINE).0 =~= seq![line]);
}

} // verus!
