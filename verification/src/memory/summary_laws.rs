//! What a summarizing memory asks for, keeps and hands back.

use crate::contained::{
    holds, holds_in_order, lemma_held_of_order, lemma_holds_within, lemma_nothing_held,
    lemma_one_behind_the_other, lemma_single, lemma_then_one_more,
};
use crate::json::json_text;
use crate::memory::summary::{
    call_lines, conversation, introduction, message_lines, SummaryState,
};
use crate::model::types::{MessageView, Role};
use crate::tool::ToolCallView;
use vstd::prelude::*;

verus! {

/// The name of a tool and the arguments it is called with.
pub open spec fn call_parts(c: ToolCallView) -> Seq<Seq<char>> {
    seq![c.name, json_text(c.arguments)]
}

/// The names and arguments of tool calls, in order.
pub open spec fn calls_parts(calls: Seq<ToolCallView>) -> Seq<Seq<char>>
    decreases calls.len(),
{
    if calls.len() == 0 {
        Seq::empty()
    } else {
        calls_parts(calls.drop_last()) + call_parts(calls.last())
    }
}

/// What a message says: who speaks and its text, then its tool calls.
pub open spec fn message_parts(m: MessageView) -> Seq<Seq<char>> {
    (match m.content {
        Some(t) => seq![
            match m.role {
                Role::System => "System"@,
                Role::User => "User"@,
                Role::Assistant => "Assistant"@,
                Role::Tool => "Tool"@,
            },
            t,
        ],
        None => Seq::empty(),
    }) + calls_parts(m.tool_calls)
}

/// What messages say, in order.
pub open spec fn messages_parts(messages: Seq<MessageView>) -> Seq<Seq<char>>
    decreases messages.len(),
{
    if messages.len() == 0 {
        Seq::empty()
    } else {
        messages_parts(messages.drop_last()) + message_parts(messages.last())
    }
}

proof fn lemma_call_lines(calls: Seq<ToolCallView>)
    ensures
        holds_in_order(call_lines(calls), calls_parts(calls)),
    decreases calls.len(),
{
    if calls.len() == 0 {
        lemma_nothing_held(Seq::empty());
    } else {
        let c = calls.last();
        lemma_call_lines(calls.drop_last());
        let first = "Assistant called tool '"@ + c.name + "' with args: "@;
        let second = json_text(c.arguments) + "\n"@;
        lemma_holds_within("Assistant called tool '"@, c.name, "' with args: "@);
        lemma_holds_within(Seq::empty(), json_text(c.arguments), "\n"@);
        assert(Seq::<char>::empty() + json_text(c.arguments) + "\n"@ =~= second);
        lemma_single(first, c.name);
        lemma_then_one_more(first, seq![c.name], second, json_text(c.arguments));
        assert(seq![c.name].push(json_text(c.arguments)) =~= call_parts(c));
        let line = "Assistant called tool '"@ + c.name + "' with args: "@ + json_text(c.arguments)
            + "\n"@;
        assert(first + second =~= line);
        lemma_one_behind_the_other(
            call_lines(calls.drop_last()),
            calls_parts(calls.drop_last()),
            line,
            call_parts(c),
        );
    }
}

proof fn lemma_message_lines(m: MessageView)
    ensures
        holds_in_order(message_lines(m), message_parts(m)),
{
    lemma_call_lines(m.tool_calls);
    match m.content {
        Some(t) => {
            let who = match m.role {
                Role::System => "System"@,
                Role::User => "User"@,
                Role::Assistant => "Assistant"@,
                Role::Tool => "Tool"@,
            };
            let first = who + ": "@;
            let second = t + "\n"@;
            lemma_holds_within(Seq::empty(), who, ": "@);
            lemma_holds_within(Seq::empty(), t, "\n"@);
            assert(Seq::<char>::empty() + who + ": "@ =~= first);
            assert(Seq::<char>::empty() + t + "\n"@ =~= second);
            lemma_single(first, who);
            lemma_then_one_more(first, seq![who], second, t);
            assert(seq![who].push(t) =~= seq![who, t]);
            assert(first + second =~= who + ": "@ + t + "\n"@);
            lemma_one_behind_the_other(
                who + ": "@ + t + "\n"@,
                seq![who, t],
                call_lines(m.tool_calls),
                calls_parts(m.tool_calls),
            );
        },
        None => {
            assert(Seq::<char>::empty() + call_lines(m.tool_calls) =~= call_lines(m.tool_calls));
            assert(Seq::<Seq<char>>::empty() + calls_parts(m.tool_calls) =~= calls_parts(
                m.tool_calls,
            ));
        },
    }
}

proof fn lemma_conversation(messages: Seq<MessageView>)
    ensures
        holds_in_order(conversation(messages), messages_parts(messages)),
    decreases messages.len(),
{
    if messages.len() == 0 {
        lemma_nothing_held(Seq::empty());
    } else {
        lemma_conversation(messages.drop_last());
        lemma_message_lines(messages.last());
        lemma_one_behind_the_other(
            conversation(messages.drop_last()),
            messages_parts(messages.drop_last()),
            message_lines(messages.last()),
            message_parts(messages.last()),
        );
    }
}

proof fn lemma_part_of_message(messages: Seq<MessageView>, i: int, j: int) -> (k: int)
    requires
        0 <= i < messages.len(),
        0 <= j < message_parts(messages[i]).len(),
    ensures
        0 <= k < messages_parts(messages).len(),
        messages_parts(messages)[k] == message_parts(messages[i])[j],
    decreases messages.len(),
{
    if i == messages.len() - 1 {
        messages_parts(messages.drop_last()).len() as int + j
    } else {
        lemma_part_of_message(messages.drop_last(), i, j)
    }
}

/// Whether some message of a request has a text that holds another one.
pub open spec fn told(messages: Seq<MessageView>, part: Seq<char>) -> bool {
    exists|k: int|
        0 <= k < messages.len() && (#[trigger] messages[k]).content is Some && holds(
            messages[k].content->0,
            part,
        )
}

/// Nothing is held back from the summarizer: the instructions, the whole earlier
/// summary, and what each message says that the new one will stand for, with all
/// tool calls, in order.
pub proof fn summarizers_are_told_everything(s: SummaryState)
    requires
        s.due(),
    ensures
        s.request().messages.len() > 0,
        s.request().messages[0].role == Role::System,
        s.request().messages[0].content == Some(s.prompt),
        s.summary matches Some(earlier) ==> told(s.request().messages, earlier),
        forall|i: int|
            0 <= i < s.messages.len() - s.retain_recent && (#[trigger] s.messages[i]).content is Some
                ==> told(s.request().messages, s.messages[i].content->0),
        exists|k: int|
            {
                &&& 0 <= k < s.request().messages.len()
                &&& (#[trigger] s.request().messages[k]).content is Some
                &&& holds_in_order(
                    s.request().messages[k].content->0,
                    messages_parts(s.messages.take(s.messages.len() - s.retain_recent)),
                )
            },
        s.request().tools.len() == 0,
{
    let n = s.messages.len() - s.retain_recent;
    let old = s.messages.take(n);
    let ms = s.request().messages;
    lemma_conversation(old);
    assert(ms[2].content == Some(conversation(old)));
    assert(ms[1].content == Some(introduction(s.summary)));
    if let Some(earlier) = s.summary {
        lemma_holds_within(
            "Previous conversation summary:\n"@,
            earlier,
            "\n\nNew messages to incorporate:"@,
        );
        assert(holds(ms[1].content->0, earlier));
    }
    assert forall|i: int| 0 <= i < n && (#[trigger] s.messages[i]).content is Some implies told(
        ms,
        s.messages[i].content->0,
    ) by {
        assert(old[i] == s.messages[i]);
        assert(message_parts(old[i])[1] == s.messages[i].content->0);
        let k = lemma_part_of_message(old, i, 1);
        lemma_held_of_order(conversation(old), messages_parts(old), k);
        assert(holds(ms[2].content->0, s.messages[i].content->0));
    }
}

/// What a summary said is handed back whole, before all messages that it does not
/// stand for, each as it was and in order.
pub proof fn summaries_are_handed_back(s: SummaryState, text: Seq<char>)
    requires
        s.due(),
    ensures
        ({
            let after = s.condensed(s.old_count() as int, text).context();
            &&& after.len() == s.retain_recent + 1
            &&& after[0].role == Role::System
            &&& after[0].content is Some && holds(after[0].content->0, text)
            &&& forall|i: int|
                0 <= i < s.retain_recent ==> after[i + 1] == #[trigger] s.messages[s.messages.len()
                    - s.retain_recent + i]
        }),
{
    lemma_holds_within("Previous conversation summary: "@, text, Seq::empty());
    assert("Previous conversation summary: "@ + text + Seq::<char>::empty()
        =~= "Previous conversation summary: "@ + text);
}

/// A summary is due exactly when there are more messages than the limit and not all
/// of them are to stay. Until then every message is handed back as it was.
pub proof fn summaries_wait_for_the_limit(s: SummaryState)
    ensures
        s.due() <==> s.messages.len() > s.max_messages && s.messages.len() > s.retain_recent,
        s.summary is None ==> s.context() == s.messages,
{
}

} // verus!
