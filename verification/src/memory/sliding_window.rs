//! Memory that keeps the most recent messages.

use crate::error::{Outcome, Result};
use crate::memory::traits::Memory;
use crate::memory::{eviction_group_len, queue_to_vec};
use crate::memory::{group_len, lemma_group_keeps_orphan_free, lemma_group_len, orphan_free};
use crate::model::types::{message_views, Message, MessageView};
use std::collections::VecDeque;
use vstd::prelude::*;

verus! {

/// What is left of `s` once whole groups have left from its front until it
/// holds at most `max` messages or only one group.
pub open spec fn window(s: Seq<MessageView>, max: nat) -> Seq<MessageView>
    decreases s.len(),
{
    if s.len() > max && 0 < group_len(s) < s.len() {
        window(s.skip(group_len(s) as int), max)
    } else {
        s
    }
}

/// In-memory conversation storage that keeps only the most recent messages.
///
/// An assistant message with tool calls leaves together with the tool results
/// behind it, so that no tool result is ever left without its call. A group that
/// fills the whole window stays, even if it is larger than the window.
pub struct SlidingWindowMemory {
    messages: VecDeque<Message>,
    max_messages: usize,
}

impl View for SlidingWindowMemory {
    type V = Seq<MessageView>;

    closed spec fn view(&self) -> Seq<MessageView> {
        message_views(self.messages@)
    }
}

impl SlidingWindowMemory {
    /// The largest number of messages that the window holds.
    pub closed spec fn limit(&self) -> nat {
        self.max_messages as nat
    }

    /// An empty window for a number of messages.
    pub fn new(max_messages: usize) -> (r: Self)
        ensures
            r@ == Seq::<MessageView>::empty(),
            r.limit() == max_messages,
    {
        let r = SlidingWindowMemory { messages: VecDeque::new(), max_messages };
        assert(r@ =~= Seq::<MessageView>::empty());
        r
    }

    /// The largest number of messages that the window holds.
    pub fn max_messages(&self) -> (n: usize)
        ensures
            n == self.limit(),
    {
        self.max_messages
    }
}

impl Memory for SlidingWindowMemory {
    open spec fn history(&self) -> Seq<MessageView> {
        self@
    }

    open spec fn wf(&self) -> bool {
        true
    }

    open spec fn adds(&self, message: Message, after: Self, r: Outcome<()>) -> bool {
        &&& r is Ok
        &&& after@ == window(self@.push(message@), self.limit())
        &&& after.limit() == self.limit()
    }

    open spec fn reads(&self, r: Outcome<()>) -> bool {
        r is Ok
    }

    open spec fn clears(&self, after: Self, r: Outcome<()>) -> bool {
        &&& r is Ok
        &&& after@ == Seq::<MessageView>::empty()
        &&& after.limit() == self.limit()
    }

    /// Appends a message, then lets the oldest groups go.
    fn add_message(&mut self, message: &Message) -> (r: Result<()>) {
        let ghost start = self@.push(message@);
        self.messages.push_back(message.clone());
        assert(self@ =~= start);
        loop
            invariant
                self.limit() == old(self).limit(),
                window(self@, self.limit()) == window(start, self.limit()),
            ensures
                self.limit() == old(self).limit(),
                self@ == window(start, self.limit()),
            decreases self.messages@.len(),
        {
            if self.messages.len() <= self.max_messages {
                break;
            }
            let group: usize = eviction_group_len(&self.messages);
            proof {
                lemma_group_len(self@);
            }
            if group >= self.messages.len() {
                break;
            }
            let ghost before = self@;
            let mut i: usize = 0;
            while i < group
                invariant
                    i <= group < before.len(),
                    self@ == before.skip(i as int),
                    self.limit() == old(self).limit(),
                decreases group - i,
            {
                let ghost queue = self.messages@;
                let _ = self.messages.pop_front();
                assert(message_views(queue).len() == before.len() - i);
                assert(self.messages@ =~= queue.skip(1));
                assert(self@ =~= message_views(queue).skip(1));
                assert(before.skip(i as int).skip(1) =~= before.skip(i + 1));
                i += 1;
            }
        }
        Ok(())
    }

    /// All stored messages, oldest first.
    fn get_messages(&self) -> (r: Result<Vec<Message>>) {
        Ok(queue_to_vec(&self.messages))
    }

    /// Removes all messages.
    fn clear(&mut self) -> (r: Result<()>) {
        self.messages.clear();
        assert(self@ =~= Seq::<MessageView>::empty());
        Ok(())
    }
}

impl Default for SlidingWindowMemory {
    fn default() -> (r: Self)
        ensures
            r@ == Seq::<MessageView>::empty(),
            r.limit() == 50,
    {
        SlidingWindowMemory::new(50)
    }
}

/// The window holds a tail of what was there: nothing is reordered, and the
/// newest message is always kept.
pub proof fn window_keeps_the_newest(s: Seq<MessageView>, max: nat)
    requires
        s.len() > 0,
    ensures
        window(s, max).len() > 0,
        window(s, max).last() == s.last(),
        window(s, max).len() <= s.len(),
        window(s, max) == s.skip(s.len() - window(s, max).len()),
    decreases s.len(),
{
    if s.len() > max && 0 < group_len(s) < s.len() {
        let g = group_len(s) as int;
        window_keeps_the_newest(s.skip(g), max);
        let w = window(s, max);
        assert(w =~= s.skip(s.len() - w.len()));
    } else {
        assert(s =~= s.skip(0));
    }
}

/// The window exceeds its limit only while a single group fills it.
pub proof fn window_is_bounded(s: Seq<MessageView>, max: nat)
    ensures
        window(s, max).len() <= max || group_len(window(s, max)) == window(s, max).len(),
    decreases s.len(),
{
    lemma_group_len(s);
    if s.len() > max && 0 < group_len(s) < s.len() {
        window_is_bounded(s.skip(group_len(s) as int), max);
    }
}

/// A history without orphaned tool results stays without them.
pub proof fn window_leaves_no_orphans(s: Seq<MessageView>, max: nat)
    requires
        orphan_free(s),
    ensures
        orphan_free(window(s, max)),
    decreases s.len(),
{
    if s.len() > max && 0 < group_len(s) < s.len() {
        lemma_group_keeps_orphan_free(s);
        window_leaves_no_orphans(s.skip(group_len(s) as int), max);
    }
}

/// A history within the limit is kept whole.
pub proof fn window_keeps_what_fits(s: Seq<MessageView>, max: nat)
    requires
        s.len() <= max,
    ensures
        window(s, max) == s,
{
}

/// No more messages leave than have to: the last group that left would have made too
/// many with those that stayed.
pub proof fn window_lets_no_more_go(s: Seq<MessageView>, max: nat) -> (k: int)
    requires
        window(s, max).len() < s.len(),
    ensures
        0 <= k < s.len() - window(s, max).len(),
        k + group_len(s.skip(k)) == s.len() - window(s, max).len(),
        s.len() - k > max,
    decreases s.len(),
{
    let g = group_len(s) as int;
    lemma_group_len(s);
    let rest = s.skip(g);
    if window(rest, max).len() < rest.len() {
        let k = window_lets_no_more_go(rest, max);
        assert(rest.skip(k) =~= s.skip(g + k));
        g + k
    } else {
        window_keeps_the_newest(rest, max);
        assert(s.skip(0) =~= s);
        0
    }
}

} // verus!
