//! What a conversation memory offers.

use crate::error::{outcome, Outcome, Result};
use crate::model::types::{message_views, Message, MessageView};
use vstd::prelude::*;

verus! {

/// Whether `out` is what `f` may make of a list of these messages.
pub open spec fn handed<R, F: FnOnce(&Vec<Message>) -> R>(
    messages: Seq<MessageView>,
    f: F,
    out: R,
) -> bool {
    exists|v: &Vec<Message>|
        #![trigger call_ensures(f, (v,), out)]
        message_views(v@) == messages && call_ensures(f, (v,), out)
}

/// How a result ends, whatever it holds.
pub open spec fn ending<T>(r: Result<T>) -> Outcome<()> {
    match r {
        Ok(_) => Ok(()),
        Err(e) => Err(e@),
    }
}

/// A conversation memory: it stores messages and hands them back as the context
/// of a model.
pub trait Memory: Sized {
    /// The messages that the memory hands back, oldest first.
    spec fn history(&self) -> Seq<MessageView>;

    /// Whether the memory's own bookkeeping is in order. It is from the start,
    /// and every operation keeps it so.
    spec fn wf(&self) -> bool;

    /// What adding a message may lead to.
    spec fn adds(&self, message: Message, after: Self, r: Outcome<()>) -> bool;

    /// How reading the messages may end.
    spec fn reads(&self, r: Outcome<()>) -> bool;

    /// What removing all messages may lead to.
    spec fn clears(&self, after: Self, r: Outcome<()>) -> bool;

    /// Appends a message to the history.
    fn add_message(&mut self, message: &Message) -> (r: Result<()>)
        requires
            old(self).wf(),
        ensures
            final(self).wf(),
            old(self).adds(*message, *final(self), outcome(r)),
    ;

    /// All stored messages in order.
    fn get_messages(&self) -> (r: Result<Vec<Message>>)
        requires
            self.wf(),
        ensures
            self.reads(ending(r)),
            r matches Ok(v) ==> message_views(v@) == self.history(),
    ;

    /// Hands the stored messages, in order, to a function.
    fn with_messages<R, F: FnOnce(&Vec<Message>) -> R>(&self, f: F) -> (r: Result<R>)
        requires
            self.wf(),
            forall|v: Vec<Message>|
                message_views(v@) == self.history() ==> #[trigger] f.requires((&v,)),
        ensures
            self.reads(ending(r)),
            r matches Ok(out) ==> handed(self.history(), f, out),
    {
        match self.get_messages() {
            Ok(messages) => {
                let out = f(&messages);
                Ok(out)
            },
            Err(e) => Err(e),
        }
    }

    /// Removes all messages.
    fn clear(&mut self) -> (r: Result<()>)
        requires
            old(self).wf(),
        ensures
            final(self).wf(),
            old(self).clears(*final(self), outcome(r)),
            r is Ok ==> final(self).history() == Seq::<MessageView>::empty(),
    ;
}

/// A conversation memory behind a name of its own for each method, so that it
/// can stand beside other traits.
pub trait ErasedMemory: Sized {
    /// The messages that the memory hands back, oldest first.
    spec fn erased_history(&self) -> Seq<MessageView>;

    /// Whether the memory's own bookkeeping is in order.
    spec fn erased_wf(&self) -> bool;

    /// What adding a message may lead to.
    spec fn erased_adds(&self, message: Message, after: Self, r: Outcome<()>) -> bool;

    /// How reading the messages may end.
    spec fn erased_reads(&self, r: Outcome<()>) -> bool;

    /// What removing all messages may lead to.
    spec fn erased_clears(&self, after: Self, r: Outcome<()>) -> bool;

    /// Appends a message to the history.
    fn add_message_erased(&mut self, message: &Message) -> (r: Result<()>)
        requires
            old(self).erased_wf(),
        ensures
            final(self).erased_wf(),
            old(self).erased_adds(*message, *final(self), outcome(r)),
    ;

    /// All stored messages in order.
    fn get_messages_erased(&self) -> (r: Result<Vec<Message>>)
        requires
            self.erased_wf(),
        ensures
            self.erased_reads(ending(r)),
            r matches Ok(v) ==> message_views(v@) == self.erased_history(),
    ;

    /// Removes all messages.
    fn clear_erased(&mut self) -> (r: Result<()>)
        requires
            old(self).erased_wf(),
        ensures
            final(self).erased_wf(),
            old(self).erased_clears(*final(self), outcome(r)),
            r is Ok ==> final(self).erased_history() == Seq::<MessageView>::empty(),
    ;
}

impl<T: Memory> ErasedMemory for T {
    open spec fn erased_history(&self) -> Seq<MessageView> {
        self.history()
    }

    open spec fn erased_wf(&self) -> bool {
        self.wf()
    }

    open spec fn erased_adds(&self, message: Message, after: Self, r: Outcome<()>) -> bool {
        self.adds(message, after, r)
    }

    open spec fn erased_reads(&self, r: Outcome<()>) -> bool {
        self.reads(r)
    }

    open spec fn erased_clears(&self, after: Self, r: Outcome<()>) -> bool {
        self.clears(after, r)
    }

    fn add_message_erased(&mut self, message: &Message) -> (r: Result<()>) {
        self.add_message(message)
    }

    fn get_messages_erased(&self) -> (r: Result<Vec<Message>>) {
        self.get_messages()
    }

    fn clear_erased(&mut self) -> (r: Result<()>) {
        self.clear()
    }
}

} // verus!
