//! Several kinds of memory in one.

use crate::error::{Outcome, Result};
use crate::memory::archival_memory::InMemoryArchivalMemory;
use crate::memory::core_memory::{rendered, CoreMemory, InMemoryCoreMemory};
use crate::memory::episodic_memory::InMemoryEpisodicMemory;
use crate::memory::sliding_window::SlidingWindowMemory;
use crate::memory::traits::Memory;
use crate::model::types::{Message, MessageView};
use vstd::prelude::*;

verus! {

/// A conversation memory with up to three tiers beside it.
///
/// Only the conversation takes part in [`Memory`]. The tiers are written and
/// read through their own methods, and clearing leaves them alone.
pub struct TieredMemory<
    M,
    C = InMemoryCoreMemory,
    A = InMemoryArchivalMemory,
    E = InMemoryEpisodicMemory,
> {
    pub conversation: M,
    pub core: Option<C>,
    pub archival: Option<A>,
    pub episodic: Option<E>,
}

impl<M, C, A, E> TieredMemory<M, C, A, E> {
    /// A conversation memory without tiers.
    pub fn new(conversation: M) -> (r: Self)
        ensures
            r == (TieredMemory::<M, C, A, E> {
                conversation,
                core: None,
                archival: None,
                episodic: None,
            }),
    {
        TieredMemory { conversation, core: None, archival: None, episodic: None }
    }

    /// Attaches a core memory.
    pub fn with_core(self, core: C) -> (r: Self)
        ensures
            r == (TieredMemory::<M, C, A, E> { core: Some(core), ..self }),
    {
        TieredMemory {
            conversation: self.conversation,
            core: Some(core),
            archival: self.archival,
            episodic: self.episodic,
        }
    }

    /// Attaches an archival memory.
    pub fn with_archival(self, archival: A) -> (r: Self)
        ensures
            r == (TieredMemory::<M, C, A, E> { archival: Some(archival), ..self }),
    {
        TieredMemory {
            conversation: self.conversation,
            core: self.core,
            archival: Some(archival),
            episodic: self.episodic,
        }
    }

    /// Attaches an episodic memory.
    pub fn with_episodic(self, episodic: E) -> (r: Self)
        ensures
            r == (TieredMemory::<M, C, A, E> { episodic: Some(episodic), ..self }),
    {
        TieredMemory {
            conversation: self.conversation,
            core: self.core,
            archival: self.archival,
            episodic: Some(episodic),
        }
    }

    /// The conversation memory.
    pub fn conversation(&self) -> (r: &M)
        ensures
            *r == self.conversation,
    {
        &self.conversation
    }

    /// The core memory, if one is attached.
    pub fn core_memory(&self) -> (r: Option<&C>)
        ensures
            r is Some == self.core is Some,
            r matches Some(c) ==> *c == self.core->0,
    {
        self.core.as_ref()
    }

    /// The archival memory, if one is attached.
    pub fn archival(&self) -> (r: Option<&A>)
        ensures
            r is Some == self.archival is Some,
            r matches Some(a) ==> *a == self.archival->0,
    {
        self.archival.as_ref()
    }

    /// The episodic memory, if one is attached.
    pub fn episodic(&self) -> (r: Option<&E>)
        ensures
            r is Some == self.episodic is Some,
            r matches Some(e) ==> *e == self.episodic->0,
    {
        self.episodic.as_ref()
    }
}

impl<M, C: CoreMemory, A, E> TieredMemory<M, C, A, E> {
    /// The text of the core memory for a prompt, if one is attached.
    pub fn system_prompt_block(&self) -> (r: Result<Option<String>>)
        ensures
            self.core is None ==> r matches Ok(None),
            self.core matches Some(c) ==> {
                &&& r matches Ok(t) ==> t is Some && t->0@ == rendered(c.held())
                &&& exists|t: Result<String>| #[trigger]
                    call_ensures(C::render, (&c,), t) && r is Ok == t is Ok && (t matches Err(e)
                        ==> r->Err_0@ == e@)
            },
    {
        match &self.core {
            Some(c) => match c.render() {
                Ok(t) => Ok(Some(t)),
                Err(e) => Err(e),
            },
            None => Ok(None),
        }
    }
}

impl Default for TieredMemory<SlidingWindowMemory> {
    /// A sliding window of fifty messages without tiers.
    fn default() -> (r: Self)
        ensures
            r.conversation.history() == Seq::<MessageView>::empty(),
            r.conversation.limit() == 50,
            r.core is None && r.archival is None && r.episodic is None,
    {
        TieredMemory::new(SlidingWindowMemory::default())
    }
}

impl<M: Memory, C, A, E> Memory for TieredMemory<M, C, A, E> {
    open spec fn history(&self) -> Seq<MessageView> {
        self.conversation.history()
    }

    open spec fn wf(&self) -> bool {
        self.conversation.wf()
    }

    open spec fn adds(&self, message: Message, after: Self, r: Outcome<()>) -> bool {
        &&& self.conversation.adds(message, after.conversation, r)
        &&& after.core == self.core
        &&& after.archival == self.archival
        &&& after.episodic == self.episodic
    }

    open spec fn reads(&self, r: Outcome<()>) -> bool {
        self.conversation.reads(r)
    }

    /// The tiers stay as they are.
    open spec fn clears(&self, after: Self, r: Outcome<()>) -> bool {
        &&& self.conversation.clears(after.conversation, r)
        &&& after.core == self.core
        &&& after.archival == self.archival
        &&& after.episodic == self.episodic
    }

    fn add_message(&mut self, message: &Message) -> (r: Result<()>) {
        self.conversation.add_message(message)
    }

    fn get_messages(&self) -> (r: Result<Vec<Message>>)
        ensures
            call_ensures(M::get_messages, (&self.conversation,), r),
    {
        self.conversation.get_messages()
    }

    fn with_messages<R, F: FnOnce(&Vec<Message>) -> R>(&self, f: F) -> (r: Result<R>) {
        self.conversation.with_messages(f)
    }

    fn clear(&mut self) -> (r: Result<()>) {
        self.conversation.clear()
    }
}

/// Neither a new message nor clearing touches the tiers, and the history is that of the
/// conversation alone.
pub proof fn tiers_are_left_alone<M: Memory, C, A, E>(
    before: TieredMemory<M, C, A, E>,
    message: Message,
    after: TieredMemory<M, C, A, E>,
    r: Outcome<()>,
)
    requires
        before.adds(message, after, r) || before.clears(after, r),
    ensures
        after.core == before.core,
        after.archival == before.archival,
        after.episodic == before.episodic,
        after.history() == after.conversation.history(),
        before.adds(message, after, r) ==> before.conversation.adds(message, after.conversation, r),
        before.clears(after, r) ==> before.conversation.clears(after.conversation, r),
{
}

} // verus!
