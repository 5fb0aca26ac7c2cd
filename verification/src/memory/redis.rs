//! The local copy of a conversation that is kept as a list on a server.

use crate::error::{outcome, DaimonError, ErrorView, Outcome, Result};
use crate::model::types::{clone_messages, message_views, Message, MessageView};
use crate::model::wire::{message_from_text, text_message};
use crate::text::{cat2, cat3, texts};
use vstd::prelude::*;

verus! {

/// The messages that were read from the list so far.
///
/// The list grows at its end, so only what came since the last read is asked
/// for. A list that got shorter is read anew.
pub struct HistoryCache {
    messages: Vec<Message>,
}

impl View for HistoryCache {
    type V = Seq<MessageView>;

    closed spec fn view(&self) -> Seq<MessageView> {
        message_views(self.messages@)
    }
}

/// What is left of the copy when the list has `len` entries.
pub open spec fn kept(cached: Seq<MessageView>, len: nat) -> Seq<MessageView> {
    if len < cached.len() {
        Seq::empty()
    } else {
        cached
    }
}

/// The copy after some entries were read behind it, up to the first that cannot
/// be read.
pub open spec fn absorbed(cached: Seq<MessageView>, entries: Seq<Seq<char>>) -> (
    Seq<MessageView>,
    Outcome<()>,
)
    decreases entries.len(),
{
    if entries.len() == 0 {
        (cached, Ok(()))
    } else {
        match text_message(entries[0]) {
            Ok(m) => absorbed(cached.push(m), entries.skip(1)),
            Err(e) => (cached, Err(e)),
        }
    }
}

impl HistoryCache {
    /// An empty copy.
    pub fn new() -> (r: Self)
        ensures
            r@ == Seq::<MessageView>::empty(),
    {
        let r = HistoryCache { messages: Vec::new() };
        assert(r@ =~= Seq::<MessageView>::empty());
        r
    }

    /// Makes ready for a list of `len` entries: drops the copy if the list got
    /// shorter, and says from which entry on to read, if there is any to read.
    pub fn resume(&mut self, len: usize) -> (r: Option<usize>)
        ensures
            final(self)@ == kept(old(self)@, len as nat),
            r == (if final(self)@.len() < len {
                Some(final(self)@.len() as usize)
            } else {
                None
            }),
    {
        if len < self.messages.len() {
            self.messages.clear();
            assert(self@ =~= Seq::<MessageView>::empty());
        }
        if self.messages.len() < len {
            Some(self.messages.len())
        } else {
            None
        }
    }

    /// Reads entries behind the copy.
    pub fn absorb(&mut self, entries: &Vec<String>) -> (r: Result<()>)
        ensures
            (final(self)@, outcome(r)) == absorbed(old(self)@, texts(entries@)),
    {
        let ghost all = texts(entries@);
        let ghost start = self@;
        let mut i: usize = 0;
        assert(all.skip(0) =~= all);
        while i < entries.len()
            invariant
                i <= entries@.len(),
                all == texts(entries@),
                start == old(self)@,
                absorbed(self@, all.skip(i as int)) == absorbed(start, all),
            decreases entries@.len() - i,
        {
            let ghost rest = all.skip(i as int);
            assert(rest[0] == entries@[i as int]@);
            assert(rest.skip(1) =~= all.skip(i + 1));
            match message_from_text(&entries[i]) {
                Ok(m) => {
                    let ghost before = self@;
                    let ghost seen = m@;
                    self.messages.push(m);
                    assert(self@ =~= before.push(seen));
                },
                Err(e) => {
                    return Err(e);
                },
            }
            i += 1;
        }
        assert(all.skip(i as int) =~= Seq::<Seq<char>>::empty());
        Ok(())
    }

    /// Copies of all messages.
    pub fn messages(&self) -> (r: Vec<Message>)
        ensures
            message_views(r@) == self@,
    {
        clone_messages(&self.messages)
    }

    /// Drops the copy.
    pub fn clear(&mut self)
        ensures
            final(self)@ == Seq::<MessageView>::empty(),
    {
        self.messages.clear();
        assert(self@ =~= Seq::<MessageView>::empty());
    }
}

/// The error of a command that failed.
pub fn command_error(command: &str, cause: &str) -> (r: DaimonError)
    ensures
        r@ == ErrorView::Other("redis "@ + command@ + ": "@ + cause@),
{
    let head = cat3("redis ", command, ": ");
    DaimonError::Other(cat2(&head, cause))
}

/// Whether every entry of a list stands for a message.
pub open spec fn all_readable(list: Seq<Seq<char>>) -> bool {
    forall|i: int| 0 <= i < list.len() ==> text_message(#[trigger] list[i]) is Ok
}

/// The messages of a list.
pub open spec fn messages_of(list: Seq<Seq<char>>) -> Seq<MessageView> {
    Seq::new(list.len(), |i: int| text_message(list[i])->Ok_0)
}

proof fn lemma_absorbs(cached: Seq<MessageView>, entries: Seq<Seq<char>>)
    requires
        all_readable(entries),
    ensures
        absorbed(cached, entries) == (cached + messages_of(entries), Ok::<(), ErrorView>(())),
    decreases entries.len(),
{
    if entries.len() == 0 {
        assert(cached + messages_of(entries) =~= cached);
    } else {
        let rest = entries.skip(1);
        assert forall|i: int| 0 <= i < rest.len() implies text_message(
            #[trigger] rest[i],
        ) is Ok by {
            assert(rest[i] == entries[i + 1]);
        }
        assert(text_message(entries[0]) is Ok);
        let m = text_message(entries[0])->Ok_0;
        lemma_absorbs(cached.push(m), rest);
        assert(cached.push(m) + messages_of(rest) =~= cached + messages_of(entries));
    }
}

/// A copy of a list that only grew is the whole list after the next read.
pub proof fn copy_catches_up(list: Seq<Seq<char>>, k: nat)
    requires
        k <= list.len(),
        all_readable(list),
    ensures
        ({
            let cached = kept(messages_of(list.take(k as int)), list.len());
            absorbed(cached, list.skip(cached.len() as int)) == (
                messages_of(list),
                Ok::<(), ErrorView>(()),
            )
        }),
{
    let cached = kept(messages_of(list.take(k as int)), list.len());
    assert(cached == messages_of(list.take(k as int)));
    let rest = list.skip(k as int);
    assert forall|i: int| 0 <= i < rest.len() implies text_message(#[trigger] rest[i]) is Ok by {
        assert(rest[i] == list[i + k]);
    }
    lemma_absorbs(cached, rest);
    assert(cached + messages_of(rest) =~= messages_of(list));
}

/// A list that got shorter is read from its start, so that nothing stale stays.
pub proof fn shrunk_list_is_read_anew(cached: Seq<MessageView>, list: Seq<Seq<char>>)
    requires
        list.len() < cached.len(),
        all_readable(list),
    ensures
        absorbed(kept(cached, list.len()), list) == (messages_of(list), Ok::<(), ErrorView>(())),
{
    lemma_absorbs(kept(cached, list.len()), list);
    assert(kept(cached, list.len()) + messages_of(list) =~= messages_of(list));
}

} // verus!
