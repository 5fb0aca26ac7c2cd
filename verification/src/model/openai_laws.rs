//! What the requests, answers and streams of the chat completions API are good
//! for.

use crate::contained::{holds, lemma_holds_within};
use crate::error::{ErrorView, Result};
use crate::json::{json_text, parsed_json, JsonView};
use crate::members::{
    affirms, counts, item, lacks, lists, may_say, only, role_word, says, says_if_any,
};
use crate::model::openai::{
    api_error, body_response, call_json, delta_events, deltas_events, ends, entry_json, json_call,
    json_choice, json_choices, json_chunk, json_delta, json_piece, line_events, lines_events,
    opt_calls_at, opt_pieces_at, opt_usage_at, piece_events, pieces_events, received, request_json,
    sent_call, sent_message, tool_json, CallPiece, CallView, ChoiceView, DeltaView, OpenAiUsage,
    OpenAiView,
};
use crate::model::types::{ChatResponse, MessageView, RequestView, Role, ToolSpecView};
use crate::split::{lemma_no_end, split};
use crate::stream::{
    arguments_told, dones_told, events_add_up, names_told, single_events, spoken, EventView,
};
use crate::text::{after_prefix, decimal, lemma_decimal_injective, trimmed};
use crate::tool::ToolCallView;
use vstd::prelude::*;

verus! {

// ---------------------------------------------------------------------
// Streams
// ---------------------------------------------------------------------

/// The text of some pieces of answers, in order.
pub open spec fn contents(s: Seq<DeltaView>) -> Seq<char>
    decreases s.len(),
{
    if s.len() == 0 {
        Seq::empty()
    } else {
        contents(s.drop_last()) + match s.last().content {
            Some(t) => t,
            None => Seq::empty(),
        }
    }
}

/// The pieces of tool calls in some pieces of answers, in order.
pub open spec fn pieces_of(s: Seq<DeltaView>) -> Seq<CallPiece>
    decreases s.len(),
{
    if s.len() == 0 {
        Seq::empty()
    } else {
        pieces_of(s.drop_last()) + match s.last().tool_calls {
            Some(calls) => calls,
            None => Seq::empty(),
        }
    }
}

/// The arguments in the pieces of the tool call with a number, in order.
pub open spec fn arguments_at(s: Seq<CallPiece>, index: u64) -> Seq<char>
    decreases s.len(),
{
    if s.len() == 0 {
        Seq::empty()
    } else {
        arguments_at(s.drop_last(), index) + match s.last().function {
            Some((_, Some(a))) => if s.last().index == index {
                a
            } else {
                Seq::empty()
            },
            _ => Seq::empty(),
        }
    }
}

/// The names in the pieces of the tool call with a number, in order.
pub open spec fn names_at(s: Seq<CallPiece>, index: u64) -> Seq<Seq<char>>
    decreases s.len(),
{
    if s.len() == 0 {
        Seq::empty()
    } else {
        names_at(s.drop_last(), index) + match s.last().function {
            Some((Some(name), _)) => if s.last().index == index {
                seq![name]
            } else {
                Seq::empty()
            },
            _ => Seq::empty(),
        }
    }
}

/// The pieces of answers that the lines of a stream carry, in order. A line that
/// cannot be read carries none.
pub open spec fn deltas_in(lines: Seq<Seq<char>>) -> Seq<DeltaView>
    decreases lines.len(),
{
    if lines.len() == 0 {
        Seq::empty()
    } else {
        let line = trimmed(lines.last());
        deltas_in(lines.drop_last()) + if line == "data: [DONE]"@ {
            Seq::empty()
        } else {
            match after_prefix(line, "data: "@) {
                Some(data) => match parsed_json(data) {
                    Ok(v) => match json_chunk(v) {
                        Some(deltas) => deltas,
                        None => Seq::empty(),
                    },
                    Err(_) => Seq::empty(),
                },
                None => Seq::empty(),
            }
        }
    }
}

/// How many lines of a stream say that it is complete.
pub open spec fn dones_in(lines: Seq<Seq<char>>) -> nat
    decreases lines.len(),
{
    if lines.len() == 0 {
        0
    } else {
        dones_in(lines.drop_last()) + if trimmed(lines.last()) == "data: [DONE]"@ {
            1nat
        } else {
            0
        }
    }
}

/// Whether an event belongs in the stream of an answer: it is not empty, and does
/// not end a tool call, which the service never says.
pub open spec fn belongs(e: EventView) -> bool {
    match e {
        EventView::TextDelta(t) => t.len() > 0,
        EventView::ToolCallDelta { arguments_delta, .. } => arguments_delta.len() > 0,
        EventView::ToolCallEnd { .. } => false,
        _ => true,
    }
}

/// Whether events say all that pieces of answers say, and nothing else: all text,
/// and for each tool call, by its number, all names and all arguments, whether or
/// not they came together.
pub open spec fn say_all(events: Seq<EventView>, s: Seq<DeltaView>) -> bool {
    &&& spoken(events) == contents(s)
    &&& forall|i: u64| #[trigger]
        arguments_told(events, decimal(i as nat)) == arguments_at(pieces_of(s), i)
    &&& forall|i: u64| #[trigger]
        names_told(events, decimal(i as nat)) == names_at(pieces_of(s), i)
    &&& forall|j: int| 0 <= j < events.len() ==> belongs(#[trigger] events[j])
}

proof fn lemma_piece(c: CallPiece, i: u64)
    ensures
        spoken(piece_events(c)) == Seq::<char>::empty(),
        arguments_told(piece_events(c), decimal(i as nat)) == arguments_at(seq![c], i),
        names_told(piece_events(c), decimal(i as nat)) == names_at(seq![c], i),
        dones_told(piece_events(c)) == 0,
        forall|j: int| 0 <= j < piece_events(c).len() ==> belongs(#[trigger] piece_events(c)[j]),
{
    let id = decimal(i as nat);
    let own = decimal(c.index as nat);
    if c.index != i {
        if own == id {
            lemma_decimal_injective(c.index as nat, i as nat);
        }
    }
    assert(seq![c].drop_last() =~= Seq::<CallPiece>::empty());
    reveal_with_fuel(arguments_at, 2);
    reveal_with_fuel(names_at, 2);
    assert(arguments_at(seq![c], i) =~= match c.function {
        Some((_, Some(a))) => if c.index == i {
            a
        } else {
            Seq::empty()
        },
        _ => Seq::empty(),
    });
    assert(names_at(seq![c], i) =~= match c.function {
        Some((Some(name), _)) => if c.index == i {
            seq![name]
        } else {
            Seq::empty()
        },
        _ => Seq::empty(),
    });
    match c.function {
        Some((name, arguments)) => {
            let start = match name {
                Some(name) => seq![EventView::ToolCallStart { id: own, name }],
                None => Seq::empty(),
            };
            let more = match arguments {
                Some(a) => if a.len() > 0 {
                    seq![EventView::ToolCallDelta { id: own, arguments_delta: a }]
                } else {
                    Seq::empty()
                },
                None => Seq::empty(),
            };
            events_add_up(start, more, id);
            if let Some(name) = name {
                single_events(EventView::ToolCallStart { id: own, name }, id);
            }
            if let Some(a) = arguments {
                if a.len() > 0 {
                    single_events(EventView::ToolCallDelta { id: own, arguments_delta: a }, id);
                } else {
                    assert(a =~= Seq::<char>::empty());
                }
            }
            assert(arguments_told(start + more, id) =~= arguments_at(seq![c], i));
            assert(names_told(start + more, id) =~= names_at(seq![c], i));
            assert(spoken(start + more) =~= Seq::<char>::empty());
        },
        None => {},
    }
}

proof fn lemma_pieces(s: Seq<CallPiece>, i: u64)
    ensures
        spoken(pieces_events(s)) == Seq::<char>::empty(),
        arguments_told(pieces_events(s), decimal(i as nat)) == arguments_at(s, i),
        names_told(pieces_events(s), decimal(i as nat)) == names_at(s, i),
        dones_told(pieces_events(s)) == 0,
        forall|j: int| 0 <= j < pieces_events(s).len() ==> belongs(#[trigger] pieces_events(s)[j]),
    decreases s.len(),
{
    if s.len() > 0 {
        let init = s.drop_last();
        lemma_pieces(init, i);
        lemma_piece(s.last(), i);
        events_add_up(pieces_events(init), piece_events(s.last()), decimal(i as nat));
        lemma_pieces_add_up(init, seq![s.last()], i);
        assert(init + seq![s.last()] =~= s);
        assert(Seq::<char>::empty() + Seq::<char>::empty() =~= Seq::<char>::empty());
    }
}

proof fn lemma_pieces_add_up(a: Seq<CallPiece>, b: Seq<CallPiece>, i: u64)
    ensures
        arguments_at(a + b, i) == arguments_at(a, i) + arguments_at(b, i),
        names_at(a + b, i) == names_at(a, i) + names_at(b, i),
    decreases b.len(),
{
    if b.len() == 0 {
        assert(a + b =~= a);
        assert(arguments_at(a, i) + arguments_at(b, i) =~= arguments_at(a, i));
        assert(names_at(a, i) + names_at(b, i) =~= names_at(a, i));
    } else {
        let init = b.drop_last();
        lemma_pieces_add_up(a, init, i);
        assert((a + b).drop_last() =~= a + init);
        let g = match b.last().function {
            Some((_, Some(a))) => if b.last().index == i {
                a
            } else {
                Seq::empty()
            },
            _ => Seq::empty(),
        };
        assert(arguments_at(a, i) + arguments_at(init, i) + g =~= arguments_at(a, i) + (
        arguments_at(init, i) + g));
        let n = match b.last().function {
            Some((Some(name), _)) => if b.last().index == i {
                seq![name]
            } else {
                Seq::empty()
            },
            _ => Seq::empty(),
        };
        assert(names_at(a, i) + names_at(init, i) + n =~= names_at(a, i) + (names_at(init, i) + n));
    }
}

proof fn lemma_delta(d: DeltaView, i: u64)
    ensures
        spoken(delta_events(d)) == (match d.content {
            Some(t) => t,
            None => Seq::empty(),
        }),
        arguments_told(delta_events(d), decimal(i as nat)) == (match d.tool_calls {
            Some(calls) => arguments_at(calls, i),
            None => Seq::empty(),
        }),
        names_told(delta_events(d), decimal(i as nat)) == (match d.tool_calls {
            Some(calls) => names_at(calls, i),
            None => Seq::empty(),
        }),
        dones_told(delta_events(d)) == 0,
        forall|j: int| 0 <= j < delta_events(d).len() ==> belongs(#[trigger] delta_events(d)[j]),
{
    let id = decimal(i as nat);
    let text = match d.content {
        Some(t) => if t.len() > 0 {
            seq![EventView::TextDelta(t)]
        } else {
            Seq::empty()
        },
        None => Seq::empty(),
    };
    let calls = match d.tool_calls {
        Some(s) => pieces_events(s),
        None => Seq::empty(),
    };
    events_add_up(text, calls, id);
    if let Some(t) = d.content {
        if t.len() > 0 {
            single_events(EventView::TextDelta(t), id);
        } else {
            assert(t =~= Seq::<char>::empty());
        }
    }
    if let Some(s) = d.tool_calls {
        lemma_pieces(s, i);
    }
    assert(spoken(text + calls) =~= match d.content {
        Some(t) => t,
        None => Seq::empty(),
    });
    assert(Seq::<char>::empty() + arguments_told(calls, id) =~= arguments_told(calls, id));
    assert(Seq::<Seq<char>>::empty() + names_told(calls, id) =~= names_told(calls, id));
}

/// The events of pieces of answers say all that the pieces say, and nothing else.
pub proof fn deltas_are_told_whole(s: Seq<DeltaView>)
    ensures
        say_all(deltas_events(s), s),
        dones_told(deltas_events(s)) == 0,
    decreases s.len(),
{
    let events = deltas_events(s);
    if s.len() > 0 {
        let init = s.drop_last();
        let d = s.last();
        deltas_are_told_whole(init);
        let last = match d.tool_calls {
            Some(calls) => calls,
            None => Seq::empty(),
        };
        assert forall|i: u64| #[trigger]
            arguments_told(events, decimal(i as nat)) == arguments_at(pieces_of(s), i) by {
            lemma_delta(d, i);
            events_add_up(deltas_events(init), delta_events(d), decimal(i as nat));
            lemma_pieces_add_up(pieces_of(init), last, i);
            assert(arguments_told(deltas_events(init), decimal(i as nat)) == arguments_at(
                pieces_of(init),
                i,
            ));
        }
        assert forall|i: u64| #[trigger]
            names_told(events, decimal(i as nat)) == names_at(pieces_of(s), i) by {
            lemma_delta(d, i);
            events_add_up(deltas_events(init), delta_events(d), decimal(i as nat));
            lemma_pieces_add_up(pieces_of(init), last, i);
            assert(names_told(deltas_events(init), decimal(i as nat)) == names_at(
                pieces_of(init),
                i,
            ));
        }
        lemma_delta(d, 0);
        events_add_up(deltas_events(init), delta_events(d), decimal(0));
    }
}

proof fn lemma_deltas_add_up(a: Seq<DeltaView>, b: Seq<DeltaView>)
    ensures
        contents(a + b) == contents(a) + contents(b),
        pieces_of(a + b) == pieces_of(a) + pieces_of(b),
    decreases b.len(),
{
    if b.len() == 0 {
        assert(a + b =~= a);
        assert(contents(a) + contents(b) =~= contents(a));
        assert(pieces_of(a) + pieces_of(b) =~= pieces_of(a));
    } else {
        let init = b.drop_last();
        lemma_deltas_add_up(a, init);
        assert((a + b).drop_last() =~= a + init);
        let t = match b.last().content {
            Some(t) => t,
            None => Seq::empty(),
        };
        assert(contents(a) + contents(init) + t =~= contents(a) + (contents(init) + t));
        let c = match b.last().tool_calls {
            Some(calls) => calls,
            None => Seq::empty(),
        };
        assert(pieces_of(a) + pieces_of(init) + c =~= pieces_of(a) + (pieces_of(init) + c));
    }
}

/// The events of a stream say all that its lines carry, and nothing else: all text
/// joined in order is the text of all pieces joined in order, and so are the
/// arguments of each tool call, however many pieces they came in. The stream is
/// complete as often as a line says so.
pub proof fn streams_are_told_whole(lines: Seq<Seq<char>>)
    ensures
        say_all(lines_events(lines), deltas_in(lines)),
        dones_told(lines_events(lines)) == dones_in(lines),
    decreases lines.len(),
{
    let events = lines_events(lines);
    if lines.len() > 0 {
        let init = lines.drop_last();
        let line = trimmed(lines.last());
        streams_are_told_whole(init);
        let before = lines_events(init);
        let new = line_events(line);
        let more = deltas_in(lines).skip(deltas_in(init).len() as int);
        assert(deltas_in(lines) =~= deltas_in(init) + more);
        assert(say_all(new, more) && dones_told(new) == dones_in(lines) - dones_in(init)) by {
            if line == "data: [DONE]"@ {
                assert(more =~= Seq::<DeltaView>::empty());
                assert forall|i: u64| #[trigger]
                    arguments_told(new, decimal(i as nat)) == arguments_at(pieces_of(more), i) by {
                    single_events(EventView::Done, decimal(i as nat));
                }
                assert forall|i: u64| #[trigger]
                    names_told(new, decimal(i as nat)) == names_at(pieces_of(more), i) by {
                    single_events(EventView::Done, decimal(i as nat));
                }
                single_events(EventView::Done, decimal(0));
            } else {
                let found = match after_prefix(line, "data: "@) {
                    Some(data) => match parsed_json(data) {
                        Ok(v) => match json_chunk(v) {
                            Some(deltas) => deltas,
                            None => Seq::empty(),
                        },
                        Err(_) => Seq::empty(),
                    },
                    None => Seq::empty(),
                };
                assert(more =~= found);
                deltas_are_told_whole(found);
                assert(new =~= deltas_events(found));
            }
        }
        lemma_deltas_add_up(deltas_in(init), more);
        assert forall|i: u64| #[trigger]
            arguments_told(events, decimal(i as nat)) == arguments_at(
            pieces_of(deltas_in(lines)),
            i,
        ) by {
            events_add_up(before, new, decimal(i as nat));
            lemma_pieces_add_up(pieces_of(deltas_in(init)), pieces_of(more), i);
            assert(arguments_told(before, decimal(i as nat)) == arguments_at(
                pieces_of(deltas_in(init)),
                i,
            ));
            assert(arguments_told(new, decimal(i as nat)) == arguments_at(pieces_of(more), i));
        }
        assert forall|i: u64| #[trigger]
            names_told(events, decimal(i as nat)) == names_at(pieces_of(deltas_in(lines)), i) by {
            events_add_up(before, new, decimal(i as nat));
            lemma_pieces_add_up(pieces_of(deltas_in(init)), pieces_of(more), i);
            assert(names_told(before, decimal(i as nat)) == names_at(
                pieces_of(deltas_in(init)),
                i,
            ));
            assert(names_told(new, decimal(i as nat)) == names_at(pieces_of(more), i));
        }
        events_add_up(before, new, decimal(0));
    }
}

/// Lines that come earlier are told earlier.
pub proof fn events_keep_the_order_of_lines(a: Seq<Seq<char>>, b: Seq<Seq<char>>)
    ensures
        lines_events(a + b) == lines_events(a) + lines_events(b),
    decreases b.len(),
{
    if b.len() == 0 {
        assert(a + b =~= a);
        assert(lines_events(a) + lines_events(b) =~= lines_events(a));
    } else {
        let init = b.drop_last();
        events_keep_the_order_of_lines(a, init);
        assert((a + b).drop_last() =~= a + init);
        let last = line_events(trimmed(b.last()));
        assert(lines_events(a) + lines_events(init) + last =~= lines_events(a) + (lines_events(
            init,
        ) + last));
    }
}

// ---------------------------------------------------------------------
// Requests
// ---------------------------------------------------------------------

/// Whether a JSON object carries a tool call to the service.
pub open spec fn sends_call(v: JsonView, c: ToolCallView) -> bool {
    &&& says(v, "id"@, c.id)
    &&& says(v, "type"@, "function"@)
    &&& v.field("function"@) matches Some(f) && says(f, "name"@, c.name) && says(
        f,
        "arguments"@,
        json_text(c.arguments),
    )
}

/// Whether a JSON object carries a message to the service: whose it is, its text,
/// all its tool calls, and which call it answers. What is missing has no member.
pub open spec fn sends_message(v: JsonView, m: MessageView) -> bool {
    &&& only(v, set!["role"@, "content"@, "tool_calls"@, "tool_call_id"@])
    &&& says(v, "role"@, role_word(m.role))
    &&& says_if_any(v, "content"@, m.content)
    &&& says_if_any(v, "tool_call_id"@, m.tool_call_id)
    &&& if m.tool_calls.len() == 0 {
        lacks(v, "tool_calls"@)
    } else {
        &&& lists(v, "tool_calls"@, m.tool_calls.len())
        &&& forall|i: int|
            0 <= i < m.tool_calls.len() ==> sends_call(
                item(v, "tool_calls"@, i),
                #[trigger] m.tool_calls[i],
            )
    }
}

/// Whether a JSON object offers a tool to the service.
pub open spec fn offers_tool(v: JsonView, t: ToolSpecView) -> bool {
    &&& says(v, "type"@, "function"@)
    &&& v.field("function"@) matches Some(f) && says(f, "name"@, t.name) && says(
        f,
        "description"@,
        t.description,
    ) && f.field("parameters"@) == Some(t.parameters)
}

proof fn lemma_request_names()
    ensures
        "model"@ != "tools"@,
        "model"@.len() == 5,
        "messages"@.len() == 8,
        "tools"@.len() == 5,
        "temperature"@.len() == 11,
        "max_tokens"@.len() == 10,
        "stream"@.len() == 6,
        "response_format"@.len() == 15,
        "parallel_tool_calls"@.len() == 19,
{
    reveal_strlit("model");
    reveal_strlit("messages");
    reveal_strlit("tools");
    reveal_strlit("temperature");
    reveal_strlit("max_tokens");
    reveal_strlit("stream");
    reveal_strlit("response_format");
    reveal_strlit("parallel_tool_calls");
    assert("model"@[0] == 'm');
    assert("tools"@[0] == 't');
}

proof fn lemma_member_names()
    ensures
        "role"@.len() == 4,
        "content"@.len() == 7,
        "tool_calls"@.len() == 10,
        "tool_call_id"@.len() == 12,
        "id"@.len() == 2,
        "type"@.len() == 4,
        "function"@.len() == 8,
        "index"@.len() == 5,
        "name"@.len() == 4,
        "arguments"@.len() == 9,
        "description"@.len() == 11,
        "parameters"@.len() == 10,
        "message"@.len() == 7,
        "finish_reason"@.len() == 13,
        "choices"@.len() == 7,
        "usage"@.len() == 5,
{
    reveal_strlit("role");
    reveal_strlit("content");
    reveal_strlit("tool_calls");
    reveal_strlit("tool_call_id");
    reveal_strlit("id");
    reveal_strlit("type");
    reveal_strlit("function");
    reveal_strlit("index");
    reveal_strlit("name");
    reveal_strlit("arguments");
    reveal_strlit("description");
    reveal_strlit("parameters");
    reveal_strlit("message");
    reveal_strlit("finish_reason");
    reveal_strlit("choices");
    reveal_strlit("usage");
}

/// A message reaches the service whole.
pub proof fn messages_are_sent_whole(m: MessageView)
    ensures
        sends_message(entry_json(sent_message(m)), m),
{
    lemma_member_names();
    let v = entry_json(sent_message(m));
    assert forall|i: int| 0 <= i < m.tool_calls.len() implies sends_call(
        item(v, "tool_calls"@, i),
        #[trigger] m.tool_calls[i],
    ) by {
        assert(item(v, "tool_calls"@, i) == call_json(sent_call(m.tool_calls[i])));
    }
    assert forall|key: Seq<char>| (#[trigger] v.field(key)) is Some implies set![
        "role"@,
        "content"@,
        "tool_calls"@,
        "tool_call_id"@,
    ].contains(key) by {}
}

/// A request reaches the service whole: it names the model and carries each message
/// and each tool, in order, and every setting. There is a list of tools exactly if
/// there are tools, and a setting exactly if it was made.
pub proof fn requests_are_sent_whole(model: OpenAiView, q: RequestView, stream: bool)
    ensures
        ({
            let v = request_json(model, q, stream);
            &&& only(
                v,
                set![
                    "model"@,
                    "messages"@,
                    "tools"@,
                    "temperature"@,
                    "max_tokens"@,
                    "stream"@,
                    "response_format"@,
                    "parallel_tool_calls"@,
                ],
            )
            &&& says(v, "model"@, model.model_id)
            &&& affirms(v, "stream"@, stream)
            &&& lists(v, "messages"@, q.messages.len())
            &&& forall|i: int|
                0 <= i < q.messages.len() ==> sends_message(
                    item(v, "messages"@, i),
                    #[trigger] q.messages[i],
                )
            &&& lacks(v, "tools"@) <==> q.tools.len() == 0
            &&& q.tools.len() > 0 ==> lists(v, "tools"@, q.tools.len())
            &&& forall|i: int|
                0 <= i < q.tools.len() ==> offers_tool(item(v, "tools"@, i), #[trigger] q.tools[i])
            &&& v.field("temperature"@) == q.temperature
            &&& match q.max_tokens {
                Some(n) => counts(v, "max_tokens"@, n as nat),
                None => lacks(v, "max_tokens"@),
            }
            &&& match model.response_format {
                Some(t) => v.field("response_format"@) matches Some(f) && says(f, "type"@, t),
                None => lacks(v, "response_format"@),
            }
            &&& match model.parallel_tool_calls {
                Some(p) => affirms(v, "parallel_tool_calls"@, p),
                None => lacks(v, "parallel_tool_calls"@),
            }
        }),
{
    lemma_request_names();
    lemma_member_names();
    let v = request_json(model, q, stream);
    assert forall|i: int| 0 <= i < q.messages.len() implies sends_message(
        item(v, "messages"@, i),
        #[trigger] q.messages[i],
    ) by {
        messages_are_sent_whole(q.messages[i]);
        assert(item(v, "messages"@, i) == entry_json(sent_message(q.messages[i])));
    }
    assert forall|i: int| 0 <= i < q.tools.len() implies offers_tool(
        item(v, "tools"@, i),
        #[trigger] q.tools[i],
    ) by {
        assert(item(v, "tools"@, i) == tool_json(q.tools[i]));
    }
}

// ---------------------------------------------------------------------
// What the service says
// ---------------------------------------------------------------------

/// Whether a JSON object says a piece of a tool call.
pub open spec fn tells_piece(v: JsonView, c: CallPiece) -> bool {
    &&& v is Object
    &&& counts(v, "index"@, c.index as nat)
    &&& match c.function {
        Some((name, arguments)) => v.field("function"@) matches Some(f) && f is Object && may_say(
            f,
            "name"@,
            name,
        ) && may_say(f, "arguments"@, arguments),
        None => lacks(v, "function"@) || v.field("function"@) == Some(JsonView::Null),
    }
}

/// Whether a JSON object says a piece of an answer.
pub open spec fn tells_delta(v: JsonView, d: DeltaView) -> bool {
    &&& v is Object
    &&& v.field("delta"@) matches Some(o) && o is Object && may_say(o, "content"@, d.content)
        && match d.tool_calls {
        Some(calls) => lists(o, "tool_calls"@, calls.len()) && forall|i: int|
            0 <= i < calls.len() ==> tells_piece(item(o, "tool_calls"@, i), #[trigger] calls[i]),
        None => lacks(o, "tool_calls"@) || o.field("tool_calls"@) == Some(JsonView::Null),
    }
}

proof fn lemma_delta_read(v: JsonView, d: DeltaView)
    requires
        tells_delta(v, d),
    ensures
        json_delta(v) == Some(d),
{
    let o = v.field("delta"@)->0;
    if let Some(calls) = d.tool_calls {
        let items = o.field("tool_calls"@)->0->Array_0;
        assert forall|i: int| 0 <= i < items.len() implies json_piece(#[trigger] items[i]) == Some(
            calls[i],
        ) by {
            assert(tells_piece(item(o, "tool_calls"@, i), calls[i]));
        }
        assert(Seq::new(items.len(), |i: int| json_piece(items[i])->0) =~= calls);
        assert(opt_pieces_at(o) == Some(Some(calls)));
    }
}

/// A chunk of a stream is read whole: each piece of an answer, with its text and
/// all its pieces of tool calls.
pub proof fn chunks_are_read_whole(v: JsonView, s: Seq<DeltaView>)
    requires
        v is Object,
        lists(v, "choices"@, s.len()),
        forall|i: int| 0 <= i < s.len() ==> tells_delta(item(v, "choices"@, i), #[trigger] s[i]),
    ensures
        json_chunk(v) == Some(s),
{
    let items = v.field("choices"@)->0->Array_0;
    assert forall|i: int| 0 <= i < items.len() implies json_delta(#[trigger] items[i]) == Some(
        s[i],
    ) by {
        assert(tells_delta(item(v, "choices"@, i), s[i]));
        lemma_delta_read(items[i], s[i]);
    }
    assert(Seq::new(items.len(), |i: int| json_delta(items[i])->0) =~= s);
}

/// Whether a JSON object says a tool call.
pub open spec fn tells_call(v: JsonView, c: CallView) -> bool {
    &&& v is Object
    &&& says(v, "id"@, c.id)
    &&& says(v, "type"@, c.kind)
    &&& counts(v, "index"@, c.index as nat)
    &&& v.field("function"@) matches Some(f) && f is Object && says(f, "name"@, c.name) && says(
        f,
        "arguments"@,
        c.arguments,
    )
}

/// Whether a JSON object says an answer.
pub open spec fn tells_choice(v: JsonView, c: ChoiceView) -> bool {
    &&& v is Object
    &&& may_say(v, "finish_reason"@, c.finish_reason)
    &&& v.field("message"@) matches Some(m) && m is Object && may_say(m, "content"@, c.content)
        && match c.tool_calls {
        Some(calls) => lists(m, "tool_calls"@, calls.len()) && forall|i: int|
            0 <= i < calls.len() ==> tells_call(item(m, "tool_calls"@, i), #[trigger] calls[i]),
        None => lacks(m, "tool_calls"@) || m.field("tool_calls"@) == Some(JsonView::Null),
    }
}

/// Whether a JSON object says what an answer took.
pub open spec fn tells_usage(v: JsonView, usage: Option<OpenAiUsage>) -> bool {
    match usage {
        Some(u) => v.field("usage"@) matches Some(o) && o is Object && counts(
            o,
            "prompt_tokens"@,
            u.prompt_tokens as nat,
        ) && counts(o, "completion_tokens"@, u.completion_tokens as nat)
            && match u.prompt_tokens_details {
            Some(d) => o.field("prompt_tokens_details"@) matches Some(p) && p is Object && counts(
                p,
                "cached_tokens"@,
                d.cached_tokens as nat,
            ),
            None => lacks(o, "prompt_tokens_details"@),
        },
        None => lacks(v, "usage"@) || v.field("usage"@) == Some(JsonView::Null),
    }
}

proof fn lemma_choice_read(v: JsonView, c: ChoiceView)
    requires
        tells_choice(v, c),
    ensures
        json_choice(v) == Some(c),
{
    let m = v.field("message"@)->0;
    if let Some(calls) = c.tool_calls {
        let items = m.field("tool_calls"@)->0->Array_0;
        assert forall|i: int| 0 <= i < items.len() implies json_call(#[trigger] items[i]) == Some(
            calls[i],
        ) by {
            assert(tells_call(item(m, "tool_calls"@, i), calls[i]));
        }
        assert(Seq::new(items.len(), |i: int| json_call(items[i])->0) =~= calls);
        assert(opt_calls_at(m) == Some(Some(calls)));
    }
}

/// Whether a result is that of an answer: an answer of the assistant with the same
/// text and one for one the same tool calls, the reason why it stopped, and what it
/// took.
pub open spec fn hands_on(
    c: ChoiceView,
    usage: Option<OpenAiUsage>,
    r: Result<ChatResponse>,
) -> bool {
    let calls = match c.tool_calls {
        Some(s) => s,
        None => Seq::empty(),
    };
    &&& r is Ok
    &&& r->Ok_0.message@.role == Role::Assistant
    &&& r->Ok_0.message@.content == c.content
    &&& r->Ok_0.message@.tool_call_id is None
    &&& r->Ok_0.message@.tool_calls.len() == calls.len()
    &&& forall|i: int|
        0 <= i < calls.len() ==> (#[trigger] r->Ok_0.message@.tool_calls[i]).id == calls[i].id
            && r->Ok_0.message@.tool_calls[i].name == calls[i].name && (parsed_json(
            calls[i].arguments,
        ) matches Ok(a) ==> r->Ok_0.message@.tool_calls[i].arguments == a) && (parsed_json(
            calls[i].arguments,
        ) is Err ==> r->Ok_0.message@.tool_calls[i].arguments == JsonView::Null)
    &&& r->Ok_0.stop_reason is ToolUse <==> c.finish_reason == Some("tool_calls"@)
    &&& r->Ok_0.stop_reason is MaxTokens <==> c.finish_reason == Some("length"@)
    &&& r->Ok_0.stop_reason is EndTurn || c.finish_reason is Some
    &&& match usage {
        Some(u) => r->Ok_0.usage matches Some(t) && t.input_tokens == u.prompt_tokens
            && t.output_tokens == u.completion_tokens && t.cached_tokens
            == match u.prompt_tokens_details {
            Some(d) => d.cached_tokens,
            None => 0,
        },
        None => r->Ok_0.usage is None,
    }
}

/// An answer of the service is handed on whole. If there is more than one, it is
/// the first.
pub proof fn answers_are_handed_on_whole(
    body: Seq<char>,
    v: JsonView,
    choices: Seq<ChoiceView>,
    usage: Option<OpenAiUsage>,
    r: Result<ChatResponse>,
)
    requires
        parsed_json(body) == Ok::<JsonView, Seq<char>>(v),
        v is Object,
        lists(v, "choices"@, choices.len()),
        forall|i: int|
            0 <= i < choices.len() ==> tells_choice(item(v, "choices"@, i), #[trigger] choices[i]),
        tells_usage(v, usage),
        body_response(body, r),
    ensures
        choices.len() > 0 ==> hands_on(choices[0], usage, r),
        choices.len() == 0 ==> r is Err,
{
    let items = v.field("choices"@)->0->Array_0;
    assert forall|i: int| 0 <= i < items.len() implies json_choice(#[trigger] items[i]) == Some(
        choices[i],
    ) by {
        assert(tells_choice(item(v, "choices"@, i), choices[i]));
        lemma_choice_read(items[i], choices[i]);
    }
    assert(Seq::new(items.len(), |i: int| json_choice(items[i])->0) =~= choices);
    assert(json_choices(v.field("choices"@)) == Some(choices));
    assert(opt_usage_at(v) == Some(usage));
    assert("tool_calls"@ != "length"@) by {
        reveal_strlit("tool_calls");
        reveal_strlit("length");
        assert("tool_calls"@.len() != "length"@.len());
    }
}

// ---------------------------------------------------------------------
// The exchange
// ---------------------------------------------------------------------

/// A request is sent again only if the service is busy or at fault, and only as often
/// as allowed. Whatever else comes back ends the exchange.
pub proof fn only_passing_faults_are_retried(model: OpenAiView, attempt: u32, code: u16)
    ensures
        code < 429 || 430 <= code < 500 || code >= 600 ==> ends(model, attempt, code),
        code == 429 || 500 <= code < 600 ==> (ends(model, attempt, code) <==> attempt
            >= model.max_retries),
{
}

/// The error for a bad status says which it was and what the service said.
pub proof fn errors_say_what_went_wrong(status: Seq<char>, body: Seq<char>)
    ensures
        api_error(status, body) matches ErrorView::Model(words) && holds(words, status) && holds(
            words,
            body,
        ),
{
    let head = "OpenAI API error ("@;
    let mid = "): "@;
    lemma_holds_within(head, status, mid + body);
    assert(head + status + (mid + body) =~= head + status + mid + body);
    lemma_holds_within(head + status + mid, body, Seq::empty());
    assert(head + status + mid + body + Seq::<char>::empty() =~= head + status + mid + body);
}

// ---------------------------------------------------------------------
// Order
// ---------------------------------------------------------------------

/// What comes earlier is told earlier: pieces of answers and pieces of tool calls in
/// their order, the text of a piece before its tool calls, and the name of a tool call
/// before its arguments.
pub proof fn events_keep_the_order_of_pieces(
    a: Seq<DeltaView>,
    b: Seq<DeltaView>,
    x: Seq<CallPiece>,
    y: Seq<CallPiece>,
    index: u64,
    content: Option<Seq<char>>,
    calls: Option<Seq<CallPiece>>,
    name: Option<Seq<char>>,
    arguments: Option<Seq<char>>,
)
    ensures
        deltas_events(a + b) == deltas_events(a) + deltas_events(b),
        pieces_events(x + y) == pieces_events(x) + pieces_events(y),
        delta_events(DeltaView { content, tool_calls: calls }) == delta_events(
            DeltaView { content, tool_calls: None },
        ) + delta_events(DeltaView { content: None, tool_calls: calls }),
        piece_events(CallPiece { index, function: Some((name, arguments)) }) == piece_events(
            CallPiece { index, function: Some((name, None)) },
        ) + piece_events(CallPiece { index, function: Some((None, arguments)) }),
{
    lemma_deltas_in_two_parts(a, b);
    lemma_pieces_in_two_parts(x, y);
    assert(delta_events(DeltaView { content, tool_calls: calls }) =~= delta_events(
        DeltaView { content, tool_calls: None },
    ) + delta_events(DeltaView { content: None, tool_calls: calls }));
    assert(piece_events(CallPiece { index, function: Some((name, arguments)) }) =~= piece_events(
        CallPiece { index, function: Some((name, None)) },
    ) + piece_events(CallPiece { index, function: Some((None, arguments)) }));
}

proof fn lemma_deltas_in_two_parts(a: Seq<DeltaView>, b: Seq<DeltaView>)
    ensures
        deltas_events(a + b) == deltas_events(a) + deltas_events(b),
    decreases b.len(),
{
    if b.len() == 0 {
        assert(a + b =~= a);
        assert(deltas_events(a) + deltas_events(b) =~= deltas_events(a));
    } else {
        let init = b.drop_last();
        lemma_deltas_in_two_parts(a, init);
        assert((a + b).drop_last() =~= a + init);
        assert(deltas_events(a) + deltas_events(init) + delta_events(b.last()) =~= deltas_events(a)
            + (deltas_events(init) + delta_events(b.last())));
    }
}

proof fn lemma_pieces_in_two_parts(a: Seq<CallPiece>, b: Seq<CallPiece>)
    ensures
        pieces_events(a + b) == pieces_events(a) + pieces_events(b),
    decreases b.len(),
{
    if b.len() == 0 {
        assert(a + b =~= a);
        assert(pieces_events(a) + pieces_events(b) =~= pieces_events(a));
    } else {
        let init = b.drop_last();
        lemma_pieces_in_two_parts(a, init);
        assert((a + b).drop_last() =~= a + init);
        assert(pieces_events(a) + pieces_events(init) + piece_events(b.last()) =~= pieces_events(a)
            + (pieces_events(init) + piece_events(b.last())));
    }
}

/// A line is read once it is complete, and is kept until then.
pub proof fn complete_lines_are_read(line: Seq<char>)
    requires
        !line.contains('\n'),
    ensures
        received(Seq::empty(), line) == (line, Seq::<EventView>::empty()),
        received(Seq::empty(), line.push('\n')) == (
            Seq::<char>::empty(),
            lines_events(seq![line]),
        ),
{
    lemma_no_end(line, '\n');
    assert(Seq::<char>::empty() + line =~= line);
    let whole = line.push('\n');
    assert(Seq::<char>::empty() + whole =~= whole);
    assert(whole.drop_last() =~= line);
    assert(split(whole, '\n').0 =~= seq![line]);
}

} // verus!
