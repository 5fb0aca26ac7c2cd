//! How a conversation is laid out in a table.

use crate::json::{json_text, parsed_json, rereadable, Json};
use crate::members::role_word;
use crate::model::types::{Message, MessageView, Role};
use crate::model::wire::{
    calls_from_json, calls_json, calls_round_trip, calls_to_json, json_calls, named_role,
    role_name, role_named, role_round_trip, role_to_str,
};
use crate::text::{hex_text, numeral, opt_text, owned, owned_opt, zero_padded};
use crate::tool::{call_views, ToolCall, ToolCallView};
use vstd::prelude::*;

verus! {

/// A message as a row of the table.
#[derive(Debug, PartialEq)]
pub struct MessageRow {
    pub role: String,
    pub content: Option<String>,
    /// The tool calls as JSON, if there are any.
    pub tool_calls: Option<String>,
    pub tool_call_id: Option<String>,
}

/// A row, as contracts speak of it.
pub struct RowView {
    pub role: Seq<char>,
    pub content: Option<Seq<char>>,
    pub tool_calls: Option<Seq<char>>,
    pub tool_call_id: Option<Seq<char>>,
}

impl View for MessageRow {
    type V = RowView;

    open spec fn view(&self) -> RowView {
        RowView {
            role: self.role@,
            content: opt_text(self.content),
            tool_calls: opt_text(self.tool_calls),
            tool_call_id: opt_text(self.tool_call_id),
        }
    }
}

/// The row of a message.
pub open spec fn row_of(m: MessageView) -> RowView {
    RowView {
        role: role_name(m.role),
        content: m.content,
        tool_calls: if m.tool_calls.len() == 0 {
            None
        } else {
            Some(json_text(calls_json(m.tool_calls)))
        },
        tool_call_id: m.tool_call_id,
    }
}

/// The role of a stored name; an unknown one counts as the user's.
pub open spec fn stored_role(name: Seq<char>) -> Role {
    match named_role(name) {
        Some(r) => r,
        None => Role::User,
    }
}

/// The tool calls of a stored text; one that cannot be read holds none.
pub open spec fn stored_calls(text: Option<Seq<char>>) -> Seq<ToolCallView> {
    match text {
        Some(t) => match parsed_json(t) {
            Ok(v) => match json_calls(v) {
                Some(calls) => calls,
                None => Seq::empty(),
            },
            Err(_) => Seq::empty(),
        },
        None => Seq::empty(),
    }
}

/// The message of a row.
pub open spec fn message_of(row: RowView) -> MessageView {
    MessageView {
        role: stored_role(row.role),
        content: row.content,
        tool_calls: stored_calls(row.tool_calls),
        tool_call_id: row.tool_call_id,
    }
}

/// The role of a stored name.
pub fn str_to_role(s: &str) -> (r: Role)
    ensures
        r == stored_role(s@),
{
    match role_named(s) {
        Some(r) => r,
        None => Role::User,
    }
}

/// Lays a message out as a row. Read again, the row gives the message back,
/// where its tool calls hold no doubles and are not nested too deep.
pub fn row_from_message(message: &Message) -> (r: MessageRow)
    ensures
        r@ == row_of(message@),
        rereadable(calls_json(message@.tool_calls), 127) ==> message_of(r@) == message@,
{
    let tool_calls = if message.tool_calls.len() == 0 {
        None
    } else {
        Some(calls_to_json(&message.tool_calls).to_text())
    };
    proof {
        role_round_trip(message.role);
        calls_round_trip(message@.tool_calls);
        if message@.tool_calls.len() == 0 {
            assert(message@.tool_calls =~= Seq::<ToolCallView>::empty());
        }
    }
    MessageRow {
        role: owned(role_to_str(&message.role)),
        content: owned_opt(&message.content),
        tool_calls,
        tool_call_id: owned_opt(&message.tool_call_id),
    }
}

fn no_calls() -> (r: Vec<ToolCall>)
    ensures
        call_views(r@) == Seq::<ToolCallView>::empty(),
{
    let r: Vec<ToolCall> = Vec::new();
    assert(call_views(r@) =~= Seq::<ToolCallView>::empty());
    r
}

/// The message of a row.
pub fn message_from_row(row: MessageRow) -> (r: Message)
    ensures
        r@ == message_of(row@),
{
    let tool_calls = match &row.tool_calls {
        Some(t) => match Json::parse(t) {
            Ok(v) => match calls_from_json(&v) {
                Some(calls) => calls,
                None => no_calls(),
            },
            Err(_) => no_calls(),
        },
        None => no_calls(),
    };
    Message {
        role: str_to_role(&row.role),
        content: row.content,
        tool_calls,
        tool_call_id: row.tool_call_id,
    }
}

/// The messages of rows, in order.
pub fn messages_from_rows(rows: Vec<MessageRow>) -> (r: Vec<Message>)
    ensures
        r@.len() == rows@.len(),
        forall|i: int| 0 <= i < rows@.len() ==> (#[trigger] r@[i])@ == message_of(rows@[i]@),
{
    let ghost all = rows@;
    let mut r: Vec<Message> = Vec::new();
    for row in it: rows
        invariant
            it.seq() == all,
            r@.len() == it.index(),
            forall|i: int| 0 <= i < it.index() ==> (#[trigger] r@[i])@ == message_of(all[i]@),
    {
        assert(row == all[it.index()]);
        r.push(message_from_row(row));
    }
    r
}

/// The session identifier of a moment, given in nanoseconds since 1970.
pub fn session_id_at(nanos: u128) -> (r: String)
    ensures
        r@ == zero_padded(numeral(nanos as nat, 16), 32),
{
    hex_text(nanos, 32)
}

/// A row holds every part of a message: the word for its role, its text, the call that
/// it answers and, exactly if there are any, its tool calls.
pub proof fn rows_hold_every_part(m: MessageView)
    ensures
        row_of(m).role == role_word(m.role),
        row_of(m).content == m.content,
        row_of(m).tool_call_id == m.tool_call_id,
        row_of(m).tool_calls is Some <==> m.tool_calls.len() > 0,
{
}

/// The message of a row has the text of the row, the call that it answers, the role of
/// its word, and the calls that its text stands for. A word for no role counts as the
/// user's, and calls that cannot be read are left out.
pub proof fn messages_hold_every_part(row: RowView, role: Role)
    ensures
        message_of(row).content == row.content,
        message_of(row).tool_call_id == row.tool_call_id,
        row.role == role_word(role) ==> message_of(row).role == role,
        (forall|r: Role| row.role != #[trigger] role_word(r)) ==> message_of(row).role
            == Role::User,
        row.tool_calls is None ==> message_of(row).tool_calls.len() == 0,
        row.tool_calls matches Some(t) ==> (parsed_json(t) matches Ok(v) ==> (json_calls(
            v,
        ) matches Some(calls) ==> message_of(row).tool_calls == calls)),
{
    role_round_trip(role);
    assert(role_name(role) == role_word(role));
    if forall|r: Role| row.role != #[trigger] role_word(r) {
        assert(row.role != role_word(Role::System));
        assert(row.role != role_word(Role::User));
        assert(row.role != role_word(Role::Assistant));
        assert(row.role != role_word(Role::Tool));
    }
}

} // verus!
