//! Conversation memory, and the memory tiers around it.

use crate::model::types::{message_views, Message, MessageView, Role};
use std::collections::VecDeque;
use vstd::prelude::*;

pub mod archival_memory;
pub mod core_memory;
pub mod episodic_memory;
pub mod redis;
pub mod sliding_window;
pub mod sqlite;
pub mod sqlite_tiered;
pub mod summary;
pub mod summary_laws;
pub mod tiered;
pub mod token_window;
pub mod traits;

pub use archival_memory::{
    ArchivalMemory, ArchivalRecord, InMemoryArchivalMemory, VectorArchivalMemory,
};
pub use core_memory::{CoreMemory, CoreMemoryBlock, InMemoryCoreMemory};
pub use episodic_memory::{
    EpisodicEvent, EpisodicMemory, EpisodicQuery, InMemoryEpisodicMemory,
};
pub use sliding_window::SlidingWindowMemory;
pub use summary::SummaryMemory;
pub use tiered::TieredMemory;
pub use token_window::TokenWindowMemory;
pub use traits::{ErasedMemory, Memory};

verus! {

/// Whether a message asks for tool calls.
pub open spec fn is_caller(m: MessageView) -> bool {
    m.role == Role::Assistant && m.tool_calls.len() > 0
}

/// How many tool results follow one another from position `i` on.
pub open spec fn tool_run(s: Seq<MessageView>, i: int) -> nat
    decreases s.len() - i,
{
    if 0 <= i < s.len() && s[i].role == Role::Tool {
        1 + tool_run(s, i + 1)
    } else {
        0
    }
}

/// The number of messages that leave together from the front: an assistant
/// message with tool calls goes with the tool results that follow it, any other
/// message goes alone.
pub open spec fn group_len(s: Seq<MessageView>) -> nat {
    if s.len() == 0 {
        0
    } else if is_caller(s[0]) {
        1 + tool_run(s, 1)
    } else {
        1
    }
}

/// Whether every tool result stands behind the message that asked for it, with
/// at most other tool results in between.
pub open spec fn orphan_free(s: Seq<MessageView>) -> bool {
    forall|i: int|
        0 <= i < s.len() && (#[trigger] s[i]).role == Role::Tool ==> i > 0 && (s[i - 1].role
            == Role::Tool || is_caller(s[i - 1]))
}

/// A run of tool results ends inside the sequence, and before its end there are
/// only tool results.
pub proof fn lemma_tool_run(s: Seq<MessageView>, i: int)
    requires
        0 <= i <= s.len(),
    ensures
        i + tool_run(s, i) <= s.len(),
        forall|j: int| i <= j < i + tool_run(s, i) ==> (#[trigger] s[j]).role == Role::Tool,
        i + tool_run(s, i) < s.len() ==> s[i + tool_run(s, i)].role != Role::Tool,
    decreases s.len() - i,
{
    if i < s.len() && s[i].role == Role::Tool {
        lemma_tool_run(s, i + 1);
    }
}

/// The group at the front is never larger than the whole, and empty only if the
/// whole is.
pub proof fn lemma_group_len(s: Seq<MessageView>)
    ensures
        group_len(s) <= s.len(),
        s.len() > 0 ==> group_len(s) > 0,
{
    if s.len() > 0 {
        lemma_tool_run(s, 1);
    }
}

/// Dropping the front group leaves no orphaned tool result.
pub proof fn lemma_group_keeps_orphan_free(s: Seq<MessageView>)
    requires
        orphan_free(s),
    ensures
        orphan_free(s.skip(group_len(s) as int)),
{
    lemma_group_len(s);
    let g = group_len(s) as int;
    let rest = s.skip(g);
    assert forall|i: int| 0 <= i < rest.len() && (#[trigger] rest[i]).role == Role::Tool implies i
        > 0 && (rest[i - 1].role == Role::Tool || is_caller(rest[i - 1])) by {
        assert(s[i + g].role == Role::Tool);
        assert(s[0].role != Role::Tool);
        if i == 0 {
            if is_caller(s[0]) {
                lemma_tool_run(s, 1);
            } else {
                assert(g == 1);
            }
        }
    }
}

/// The number of messages that leave together from the front of the queue.
pub fn eviction_group_len(messages: &VecDeque<Message>) -> (n: usize)
    ensures
        n == group_len(message_views(messages@)),
{
    let ghost s = message_views(messages@);
    if messages.len() == 0 {
        return 0;
    }
    if messages[0].role != Role::Assistant || messages[0].tool_calls.len() == 0 {
        return 1;
    }
    let mut len: usize = 1;
    while len < messages.len() && messages[len].role == Role::Tool
        invariant
            s == message_views(messages@),
            1 <= len <= messages@.len(),
            tool_run(s, 1) == (len - 1) + tool_run(s, len as int),
        decreases messages@.len() - len,
    {
        len += 1;
    }
    len
}

/// Copies of all messages of a queue, in order.
pub fn queue_to_vec(messages: &VecDeque<Message>) -> (r: Vec<Message>)
    ensures
        message_views(r@) == message_views(messages@),
{
    let mut r: Vec<Message> = Vec::new();
    let mut i: usize = 0;
    while i < messages.len()
        invariant
            i <= messages@.len(),
            r@.len() == i,
            forall|j: int| 0 <= j < i ==> (#[trigger] r@[j])@ == messages@[j]@,
        decreases messages@.len() - i,
    {
        r.push(messages[i].clone());
        i += 1;
    }
    assert(message_views(r@) =~= message_views(messages@));
    r
}

/// The messages that leave together are one message or, where that calls tools, it and
/// all tool results right behind it.
pub proof fn groups_are_calls_and_results(s: Seq<MessageView>)
    requires
        s.len() > 0,
    ensures
        1 <= group_len(s) <= s.len(),
        forall|i: int| 1 <= i < group_len(s) ==> (#[trigger] s[i]).role == Role::Tool,
        group_len(s) > 1 ==> s[0].role == Role::Assistant && s[0].tool_calls.len() > 0,
        s[0].role == Role::Assistant && s[0].tool_calls.len() > 0 && group_len(s) < s.len()
            ==> s[group_len(s) as int].role != Role::Tool,
{
    lemma_run_of_results(s, 1);
}

proof fn lemma_run_of_results(s: Seq<MessageView>, i: int)
    requires
        0 <= i <= s.len(),
    ensures
        i + tool_run(s, i) <= s.len(),
        forall|j: int| i <= j < i + tool_run(s, i) ==> (#[trigger] s[j]).role == Role::Tool,
        i + tool_run(s, i) < s.len() ==> s[i + tool_run(s, i)].role != Role::Tool,
    decreases s.len() - i,
{
    if i < s.len() && s[i].role == Role::Tool {
        lemma_run_of_results(s, i + 1);
    }
}

} // verus!
