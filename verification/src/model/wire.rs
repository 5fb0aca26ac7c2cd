//! The JSON form in which messages are stored.

use crate::decode::{opt_text_at, read_opt_text};
use crate::error::{DaimonError, ErrorView, Outcome, Result};
use crate::json::{json_text, json_views, parsed_json, rereadable, Json, JsonMap, JsonView};
use crate::members::{item, lacks, lists, only, role_word, says, says_if_any};
use crate::model::types::{Message, MessageView, Role};
use crate::text::{owned, same};
use crate::tool::{call_views, ToolCall, ToolCallView};
use vstd::prelude::*;

verus! {

/// The name of a role.
pub open spec fn role_name(role: Role) -> Seq<char> {
    match role {
        Role::System => "system"@,
        Role::User => "user"@,
        Role::Assistant => "assistant"@,
        Role::Tool => "tool"@,
    }
}

/// The role of a name.
pub open spec fn named_role(name: Seq<char>) -> Option<Role> {
    if name == "system"@ {
        Some(Role::System)
    } else if name == "user"@ {
        Some(Role::User)
    } else if name == "assistant"@ {
        Some(Role::Assistant)
    } else if name == "tool"@ {
        Some(Role::Tool)
    } else {
        None
    }
}

/// The name of a role.
pub fn role_to_str(role: &Role) -> (r: &'static str)
    ensures
        r@ == role_name(*role),
{
    match role {
        Role::System => "system",
        Role::User => "user",
        Role::Assistant => "assistant",
        Role::Tool => "tool",
    }
}

/// The role of a name.
pub fn role_named(name: &str) -> (r: Option<Role>)
    ensures
        r == named_role(name@),
{
    if same(name, "system") {
        Some(Role::System)
    } else if same(name, "user") {
        Some(Role::User)
    } else if same(name, "assistant") {
        Some(Role::Assistant)
    } else if same(name, "tool") {
        Some(Role::Tool)
    } else {
        None
    }
}

/// The name of a role names that role.
pub proof fn role_round_trip(role: Role)
    ensures
        named_role(role_name(role)) == Some(role),
{
    reveal_strlit("system");
    reveal_strlit("user");
    reveal_strlit("assistant");
    reveal_strlit("tool");
    assert("system"@[0] != "user"@[0]);
    assert("system"@.len() != "assistant"@.len());
    assert("user"@[0] == 'u' && "tool"@[0] == 't' && "system"@[0] == 's' && "assistant"@[0] == 'a');
}

/// A tool call as JSON.
pub open spec fn call_json(c: ToolCallView) -> JsonView {
    JsonView::Object(
        Map::<Seq<char>, JsonView>::empty().insert("id"@, JsonView::Str(c.id)).insert(
            "name"@,
            JsonView::Str(c.name),
        ).insert("arguments"@, c.arguments),
    )
}

/// Tool calls as a JSON array.
pub open spec fn calls_json(s: Seq<ToolCallView>) -> JsonView {
    JsonView::Array(Seq::new(s.len(), |i: int| call_json(s[i])))
}

/// The tool call that a JSON object stands for.
pub open spec fn json_call(v: JsonView) -> Option<ToolCallView> {
    match (v.field("id"@), v.field("name"@), v.field("arguments"@)) {
        (Some(JsonView::Str(id)), Some(JsonView::Str(name)), Some(arguments)) => Some(
            ToolCallView { id, name, arguments },
        ),
        _ => None,
    }
}

/// Whether every item of a list stands for a tool call.
pub open spec fn all_calls(items: Seq<JsonView>) -> bool {
    forall|i: int| 0 <= i < items.len() ==> json_call(#[trigger] items[i]) is Some
}

/// The tool calls that a JSON array stands for.
pub open spec fn json_calls(v: JsonView) -> Option<Seq<ToolCallView>> {
    match v {
        JsonView::Array(items) => if all_calls(items) {
            Some(Seq::new(items.len(), |i: int| json_call(items[i])->0))
        } else {
            None
        },
        _ => None,
    }
}

proof fn lemma_call_names()
    ensures
        "id"@ != "name"@,
        "id"@ != "arguments"@,
        "name"@ != "arguments"@,
{
    reveal_strlit("id");
    reveal_strlit("name");
    reveal_strlit("arguments");
    assert("id"@.len() == 2);
    assert("name"@.len() == 4);
    assert("arguments"@.len() == 9);
}

/// Tool calls that were written as JSON are read back as they were.
pub proof fn calls_round_trip(s: Seq<ToolCallView>)
    ensures
        json_calls(calls_json(s)) == Some(s),
{
    lemma_call_names();
    let items = calls_json(s)->Array_0;
    assert forall|i: int| 0 <= i < items.len() implies json_call(#[trigger] items[i]) == Some(
        s[i],
    ) by {
        assert(items[i] == call_json(s[i]));
    }
    assert(json_calls(calls_json(s))->0 =~= s);
}

/// Tool calls as a JSON array.
pub fn calls_to_json(calls: &Vec<ToolCall>) -> (r: Json)
    ensures
        r@ == calls_json(call_views(calls@)),
{
    let mut items: Vec<Json> = Vec::new();
    let mut i: usize = 0;
    while i < calls.len()
        invariant
            i <= calls@.len(),
            items@.len() == i,
            forall|j: int| 0 <= j < i ==> (#[trigger] items@[j])@ == call_json(calls@[j]@),
        decreases calls@.len() - i,
    {
        let call = &calls[i];
        let object = JsonMap::new().with("id", Json::text(&call.id)).with(
            "name",
            Json::text(&call.name),
        ).with("arguments", call.arguments.duplicate());
        items.push(Json::object(object));
        i += 1;
    }
    let r = Json::array(items);
    assert(r@->Array_0 =~= calls_json(call_views(calls@))->Array_0);
    r
}

fn call_from_json(v: &Json) -> (r: Option<ToolCall>)
    ensures
        match r {
            Some(c) => json_call(v@) == Some(c@),
            None => json_call(v@) is None,
        },
{
    match (v.get("id"), v.get("name"), v.get("arguments")) {
        (Some(id), Some(name), Some(arguments)) => match (id, name) {
            (Json::Str(id), Json::Str(name)) => Some(
                ToolCall {
                    id: id.clone(),
                    name: name.clone(),
                    arguments: arguments.duplicate(),
                },
            ),
            _ => None,
        },
        _ => None,
    }
}

/// The tool calls that a JSON array stands for.
pub fn calls_from_json(v: &Json) -> (r: Option<Vec<ToolCall>>)
    ensures
        match r {
            Some(calls) => json_calls(v@) == Some(call_views(calls@)),
            None => json_calls(v@) is None,
        },
{
    match v.as_array() {
        Some(items) => {
            let ghost all = v@->Array_0;
            let mut calls: Vec<ToolCall> = Vec::new();
            let mut i: usize = 0;
            while i < items.len()
                invariant
                    i <= items@.len(),
                    all == json_views(items@),
                    v@ == JsonView::Array(all),
                    calls@.len() == i,
                    forall|j: int| 0 <= j < i ==> json_call(all[j]) == Some((#[trigger] calls@[j])@),
                decreases items@.len() - i,
            {
                match call_from_json(&items[i]) {
                    Some(c) => {
                        calls.push(c);
                    },
                    None => {
                        assert(json_call(all[i as int]) is None);
                        return None;
                    },
                }
                i += 1;
            }
            proof {
                assert forall|j: int| 0 <= j < all.len() implies json_call(
                    #[trigger] all[j],
                ) is Some by {
                    assert(json_call(all[j]) == Some(calls@[j]@));
                }
                assert(json_calls(v@)->0 =~= call_views(calls@));
            }
            Some(calls)
        },
        None => None,
    }
}

/// A message as JSON. What is missing or empty has no member.
pub open spec fn message_json(m: MessageView) -> JsonView {
    let a = Map::<Seq<char>, JsonView>::empty().insert("role"@, JsonView::Str(role_name(m.role)));
    let b = match m.content {
        Some(t) => a.insert("content"@, JsonView::Str(t)),
        None => a,
    };
    let c = if m.tool_calls.len() > 0 {
        b.insert("tool_calls"@, calls_json(m.tool_calls))
    } else {
        b
    };
    let d = match m.tool_call_id {
        Some(t) => c.insert("tool_call_id"@, JsonView::Str(t)),
        None => c,
    };
    JsonView::Object(d)
}

/// The message that a JSON object stands for.
pub open spec fn json_message(v: JsonView) -> Option<MessageView> {
    let role = match v.field("role"@) {
        Some(JsonView::Str(s)) => named_role(s),
        _ => None,
    };
    let calls = match v.field("tool_calls"@) {
        None => Some(Seq::empty()),
        Some(c) => json_calls(c),
    };
    match (role, opt_text_at(v, "content"@), calls, opt_text_at(v, "tool_call_id"@)) {
        (Some(role), Some(content), Some(tool_calls), Some(tool_call_id)) => Some(
            MessageView { role, content, tool_calls, tool_call_id },
        ),
        _ => None,
    }
}

proof fn lemma_message_names()
    ensures
        "role"@ != "content"@,
        "role"@ != "tool_calls"@,
        "role"@ != "tool_call_id"@,
        "content"@ != "tool_calls"@,
        "content"@ != "tool_call_id"@,
        "tool_calls"@ != "tool_call_id"@,
{
    reveal_strlit("role");
    reveal_strlit("content");
    reveal_strlit("tool_calls");
    reveal_strlit("tool_call_id");
    assert("role"@.len() == 4);
    assert("content"@.len() == 7);
    assert("tool_calls"@.len() == 10);
    assert("tool_call_id"@.len() == 12);
}

/// A message that was written as JSON is read back as it was.
pub proof fn message_round_trip(m: MessageView)
    ensures
        json_message(message_json(m)) == Some(m),
{
    lemma_message_names();
    role_round_trip(m.role);
    calls_round_trip(m.tool_calls);
    let v = message_json(m);
    assert(v.field("role"@) == Some(JsonView::Str(role_name(m.role))));
    if m.tool_calls.len() > 0 {
        assert(v.field("tool_calls"@) == Some(calls_json(m.tool_calls)));
    } else {
        assert(m.tool_calls =~= Seq::<ToolCallView>::empty());
        assert(v.field("tool_calls"@) is None);
    }
    assert(opt_text_at(v, "content"@) == Some(m.content));
    assert(opt_text_at(v, "tool_call_id"@) == Some(m.tool_call_id));
}

/// Whether a JSON object says which tool a call asks for, and with what.
pub open spec fn tells_stored_call(v: JsonView, c: ToolCallView) -> bool {
    &&& says(v, "id"@, c.id)
    &&& says(v, "name"@, c.name)
    &&& v.field("arguments"@) == Some(c.arguments)
}

/// A stored message says the word for its role and, if it has them, its text, its tool
/// calls in their order, and the call that it answers. It says nothing else.
pub proof fn messages_are_stored_whole(m: MessageView)
    ensures
        says(message_json(m), "role"@, role_word(m.role)),
        says_if_any(message_json(m), "content"@, m.content),
        says_if_any(message_json(m), "tool_call_id"@, m.tool_call_id),
        m.tool_calls.len() == 0 ==> lacks(message_json(m), "tool_calls"@),
        m.tool_calls.len() > 0 ==> lists(message_json(m), "tool_calls"@, m.tool_calls.len()),
        forall|i: int|
            0 <= i < m.tool_calls.len() ==> tells_stored_call(
                #[trigger] item(message_json(m), "tool_calls"@, i),
                m.tool_calls[i],
            ),
        only(message_json(m), set!["role"@, "content"@, "tool_calls"@, "tool_call_id"@]),
{
    lemma_message_names();
    lemma_call_names();
    if m.tool_calls.len() > 0 {
        assert(message_json(m).field("tool_calls"@) == Some(calls_json(m.tool_calls)));
        assert forall|i: int| 0 <= i < m.tool_calls.len() implies tells_stored_call(
            #[trigger] item(message_json(m), "tool_calls"@, i),
            m.tool_calls[i],
        ) by {
            assert(item(message_json(m), "tool_calls"@, i) == call_json(m.tool_calls[i]));
        }
    }
}

/// A message as JSON.
pub fn message_to_json(m: &Message) -> (r: Json)
    ensures
        r@ == message_json(m@),
{
    let a = JsonMap::new().with("role", Json::text(role_to_str(&m.role)));
    let b = match &m.content {
        Some(t) => a.with("content", Json::text(t)),
        None => a,
    };
    let c = if m.tool_calls.len() > 0 {
        b.with("tool_calls", calls_to_json(&m.tool_calls))
    } else {
        b
    };
    let d = match &m.tool_call_id {
        Some(t) => c.with("tool_call_id", Json::text(t)),
        None => c,
    };
    Json::object(d)
}

/// The message that a JSON object stands for.
pub fn message_from_json(v: &Json) -> (r: Option<Message>)
    ensures
        match r {
            Some(m) => json_message(v@) == Some(m@),
            None => json_message(v@) is None,
        },
{
    let role = match v.get("role") {
        Some(Json::Str(s)) => role_named(s),
        _ => None,
    };
    let tool_calls = match v.get("tool_calls") {
        None => {
            let none: Vec<ToolCall> = Vec::new();
            assert(call_views(none@) =~= Seq::<ToolCallView>::empty());
            Some(none)
        },
        Some(c) => calls_from_json(c),
    };
    match (role, read_opt_text(v, "content"), tool_calls, read_opt_text(v, "tool_call_id")) {
        (Some(role), Some(content), Some(tool_calls), Some(tool_call_id)) => Some(
            Message { role, content, tool_calls, tool_call_id },
        ),
        _ => None,
    }
}

/// The message that a stored text stands for.
pub open spec fn text_message(text: Seq<char>) -> Outcome<MessageView> {
    match parsed_json(text) {
        Ok(v) => match json_message(v) {
            Some(m) => Ok(m),
            None => Err(ErrorView::Serialization("not a message"@)),
        },
        Err(e) => Err(ErrorView::Serialization(e)),
    }
}

/// The text in which a message is stored. Read again, it gives the message back.
pub fn message_to_text(m: &Message) -> (r: String)
    ensures
        r@ == json_text(message_json(m@)),
        rereadable(message_json(m@), 127) ==> text_message(r@) == Ok::<MessageView, ErrorView>(m@),
{
    let r = message_to_json(m).to_text();
    proof {
        message_round_trip(m@);
    }
    r
}

/// The message that a stored text stands for.
pub fn message_from_text(text: &str) -> (r: Result<Message>)
    ensures
        match r {
            Ok(m) => text_message(text@) == Ok::<MessageView, ErrorView>(m@),
            Err(e) => text_message(text@) == Err::<MessageView, ErrorView>(e@),
        },
{
    match Json::parse(text) {
        Ok(v) => match message_from_json(&v) {
            Some(m) => Ok(m),
            None => Err(DaimonError::Serialization(owned("not a message"))),
        },
        Err(e) => Err(DaimonError::Serialization(e)),
    }
}

} // verus!
