//! Memory that condenses old messages instead of dropping them.

use crate::error::{Outcome, Result};
use crate::json::{json_text, Json, JsonView, NumberView};
use crate::memory::traits::Memory;
use crate::model::traits::{may_generate, Model};
use crate::model::types::{message_views, plain_message};
use crate::model::types::{ChatRequest, ChatResponse, Message, MessageView, RequestView, Role};
use crate::text::{cat2, cat3, cat5, opt_text, owned, owned_opt};
use crate::tool::{call_views, ToolCall, ToolCallView};
use vstd::prelude::*;

verus! {

/// What the summarizer is told.
pub const DEFAULT_SUMMARY_PROMPT: &'static str = "You are a conversation summarizer. Summarize the following conversation into a concise paragraph that preserves all important facts, decisions, tool results, and context. Be specific — include names, numbers, and outcomes. Do not include any preamble, just the summary.";

/// How a role is called in the text of a conversation.
pub open spec fn speaker(role: Role) -> Seq<char> {
    match role {
        Role::System => "System"@,
        Role::User => "User"@,
        Role::Assistant => "Assistant"@,
        Role::Tool => "Tool"@,
    }
}

/// A line for each tool call.
pub open spec fn call_lines(calls: Seq<ToolCallView>) -> Seq<char>
    decreases calls.len(),
{
    if calls.len() == 0 {
        Seq::empty()
    } else {
        call_lines(calls.drop_last()) + ("Assistant called tool '"@ + calls.last().name
            + "' with args: "@ + json_text(calls.last().arguments) + "\n"@)
    }
}

/// The lines for a message: its text, then its tool calls.
pub open spec fn message_lines(m: MessageView) -> Seq<char> {
    (match m.content {
        Some(t) => speaker(m.role) + ": "@ + t + "\n"@,
        None => Seq::empty(),
    }) + call_lines(m.tool_calls)
}

/// The text of a conversation.
pub open spec fn conversation(messages: Seq<MessageView>) -> Seq<char>
    decreases messages.len(),
{
    if messages.len() == 0 {
        Seq::empty()
    } else {
        conversation(messages.drop_last()) + message_lines(messages.last())
    }
}

/// The words before the text of the conversation.
pub open spec fn introduction(summary: Option<Seq<char>>) -> Seq<char> {
    match summary {
        Some(s) => "Previous conversation summary:\n"@ + s + "\n\nNew messages to incorporate:"@,
        None => "Conversation to summarize:"@,
    }
}

/// The request for a summary of some messages on top of an earlier summary.
pub open spec fn summary_request(
    prompt: Seq<char>,
    summary: Option<Seq<char>>,
    messages: Seq<MessageView>,
) -> RequestView {
    RequestView {
        messages: seq![
            plain_message(Role::System, prompt),
            plain_message(Role::User, introduction(summary)),
            plain_message(Role::User, conversation(messages)),
        ],
        tools: Seq::empty(),
        temperature: Some(JsonView::Number(NumberView::Float(0))),
        max_tokens: Some(512),
    }
}

/// What a summarizing memory holds.
pub struct SummaryState {
    pub messages: Seq<MessageView>,
    pub summary: Option<Seq<char>>,
    /// How often the memory has been cleared.
    pub epoch: u64,
    pub max_messages: usize,
    pub retain_recent: usize,
    pub prompt: Seq<char>,
}

impl SummaryState {
    /// How many of the oldest messages go into a summary.
    pub open spec fn old_count(self) -> nat {
        if self.messages.len() > self.retain_recent {
            (self.messages.len() - self.retain_recent) as nat
        } else {
            0
        }
    }

    /// Whether a summary is due.
    pub open spec fn due(self) -> bool {
        self.messages.len() > self.max_messages && self.old_count() > 0
    }

    /// The request for the summary that is due.
    pub open spec fn request(self) -> RequestView {
        summary_request(self.prompt, self.summary, self.messages.take(self.old_count() as int))
    }

    /// The state once a summary of the first `count` messages has come back.
    pub open spec fn condensed(self, count: int, text: Seq<char>) -> SummaryState {
        SummaryState { messages: self.messages.skip(count), summary: Some(text), ..self }
    }

    /// The state once a summary has come back that began in an epoch: it counts
    /// only if the epoch is still that one.
    pub open spec fn finished(self, epoch: u64, count: int, text: Seq<char>) -> SummaryState {
        if self.epoch == epoch {
            self.condensed(count, text)
        } else {
            self
        }
    }

    /// The state once everything was forgotten.
    pub open spec fn cleared(self) -> SummaryState {
        SummaryState {
            messages: Seq::empty(),
            summary: None,
            epoch: self.epoch.wrapping_add(1),
            ..self
        }
    }

    /// What the memory hands back: the summary as a system message, then the
    /// messages.
    pub open spec fn context(self) -> Seq<MessageView> {
        match self.summary {
            Some(s) => seq![plain_message(Role::System, "Previous conversation summary: "@ + s)]
                + self.messages,
            None => self.messages,
        }
    }
}

/// The text of a response, empty if it has none.
pub open spec fn response_text(r: ChatResponse) -> Seq<char> {
    match r.message@.content {
        Some(t) => t,
        None => Seq::empty(),
    }
}

/// A summary that is under way.
pub struct SummaryJob {
    /// What to ask the summarizer.
    pub request: ChatRequest,
    /// How many messages the summary stands for.
    pub count: usize,
    /// The epoch in which the summary began.
    pub epoch: u64,
}

/// In-memory conversation storage that summarizes old messages.
///
/// When there are more messages than the limit, all but the most recent are
/// condensed into a summary, which is handed back as a system message before the
/// rest. Messages leave only once their summary has come back.
pub struct SummaryMemory<M> {
    messages: Vec<Message>,
    summary: Option<String>,
    epoch: u64,
    model: M,
    max_messages: usize,
    retain_recent: usize,
    summary_prompt: String,
}

fn push_call_lines(out: &mut String, calls: &Vec<ToolCall>)
    ensures
        final(out)@ == old(out)@ + call_lines(call_views(calls@)),
{
    let ghost all = call_views(calls@);
    let mut i: usize = 0;
    assert(all.take(0) =~= Seq::<ToolCallView>::empty());
    assert(out@ =~= old(out)@ + call_lines(all.take(0)));
    while i < calls.len()
        invariant
            i <= calls@.len(),
            all == call_views(calls@),
            out@ == old(out)@ + call_lines(all.take(i as int)),
        decreases calls@.len() - i,
    {
        let args = calls[i].arguments.to_text();
        let line = cat5(
            "Assistant called tool '",
            &calls[i].name,
            "' with args: ",
            &args,
            "\n",
        );
        let ghost before = out@;
        out.push_str(&line);
        i += 1;
        proof {
            assert(all.take(i as int).drop_last() =~= all.take(i - 1));
            assert(all.take(i as int).last() == all[i - 1]);
            assert(out@ =~= old(out)@ + call_lines(all.take(i as int)));
        }
    }
    assert(all.take(i as int) =~= all);
}

fn role_name(role: Role) -> (r: &'static str)
    ensures
        r@ == speaker(role),
{
    match role {
        Role::System => "System",
        Role::User => "User",
        Role::Assistant => "Assistant",
        Role::Tool => "Tool",
    }
}

/// The text of the first messages of a conversation.
fn conversation_text(messages: &Vec<Message>, count: usize) -> (r: String)
    requires
        count <= messages@.len(),
    ensures
        r@ == conversation(message_views(messages@).take(count as int)),
{
    let mut out = String::new();
    let ghost all = message_views(messages@);
    let mut i: usize = 0;
    assert(all.take(0) =~= Seq::<MessageView>::empty());
    while i < count
        invariant
            i <= count <= messages@.len(),
            all == message_views(messages@),
            out@ == conversation(all.take(i as int)),
        decreases count - i,
    {
        let m = &messages[i];
        let ghost before = out@;
        let ghost text: Seq<char> = match m@.content {
            Some(t) => speaker(m.role) + ": "@ + t + "\n"@,
            None => Seq::empty(),
        };
        if let Some(content) = &m.content {
            let line = crate::text::cat4(role_name(m.role), ": ", content, "\n");
            out.push_str(&line);
        }
        assert(out@ =~= before + text);
        push_call_lines(&mut out, &m.tool_calls);
        i += 1;
        proof {
            assert(out@ =~= before + (text + call_lines(m@.tool_calls)));
            assert(all.take(i as int).drop_last() =~= all.take(i - 1));
            assert(all.take(i as int).last() == m@);
        }
    }
    out
}

impl<M> View for SummaryMemory<M> {
    type V = SummaryState;

    closed spec fn view(&self) -> SummaryState {
        SummaryState {
            messages: message_views(self.messages@),
            summary: opt_text(self.summary),
            epoch: self.epoch,
            max_messages: self.max_messages,
            retain_recent: self.retain_recent,
            prompt: self.summary_prompt@,
        }
    }
}

impl<M> SummaryMemory<M> {
    /// The model that summarizes.
    pub closed spec fn summarizer(&self) -> M {
        self.model
    }

    /// An empty memory that condenses beyond twenty messages and keeps the ten
    /// most recent.
    pub fn new(model: M) -> (r: Self)
        ensures
            r@ == (SummaryState {
                messages: Seq::empty(),
                summary: None,
                epoch: 0,
                max_messages: 20,
                retain_recent: 10,
                prompt: DEFAULT_SUMMARY_PROMPT@,
            }),
            r.summarizer() == model,
    {
        let r = SummaryMemory {
            messages: Vec::new(),
            summary: None,
            epoch: 0,
            model,
            max_messages: 20,
            retain_recent: 10,
            summary_prompt: owned(DEFAULT_SUMMARY_PROMPT),
        };
        assert(r@.messages =~= Seq::<MessageView>::empty());
        r
    }

    /// Sets beyond how many messages a summary is due.
    pub fn with_max_messages(self, max: usize) -> (r: Self)
        ensures
            r@ == (SummaryState { max_messages: max, ..self@ }),
            r.summarizer() == self.summarizer(),
    {
        SummaryMemory { max_messages: max, ..self }
    }

    /// Sets how many of the most recent messages stay.
    pub fn with_retain_recent(self, count: usize) -> (r: Self)
        ensures
            r@ == (SummaryState { retain_recent: count, ..self@ }),
            r.summarizer() == self.summarizer(),
    {
        SummaryMemory { retain_recent: count, ..self }
    }

    /// Sets what the summarizer is told.
    pub fn with_summary_prompt(self, prompt: &str) -> (r: Self)
        ensures
            r@ == (SummaryState { prompt: prompt@, ..self@ }),
            r.summarizer() == self.summarizer(),
    {
        SummaryMemory { summary_prompt: owned(prompt), ..self }
    }

    /// What the summarizer is told.
    pub fn summary_prompt(&self) -> (r: &String)
        ensures
            r@ == self@.prompt,
    {
        &self.summary_prompt
    }

    /// The summary so far.
    pub fn current_summary(&self) -> (r: Option<String>)
        ensures
            opt_text(r) == self@.summary,
    {
        owned_opt(&self.summary)
    }

    /// Appends a message, and nothing more.
    pub fn push(&mut self, message: &Message)
        ensures
            final(self)@ == (SummaryState {
                messages: old(self)@.messages.push(message@),
                ..old(self)@
            }),
            final(self).summarizer() == old(self).summarizer(),
    {
        self.messages.push(message.clone());
        assert(self@.messages =~= old(self)@.messages.push(message@));
    }

    /// The summary that is due, if one is. The messages stay where they are.
    pub fn begin_summary(&self) -> (r: Option<SummaryJob>)
        ensures
            match r {
                Some(job) => {
                    &&& self@.due()
                    &&& job.request@ == self@.request()
                    &&& job.count == self@.old_count()
                    &&& job.epoch == self@.epoch
                },
                None => !self@.due(),
            },
    {
        if self.messages.len() <= self.max_messages {
            return None;
        }
        let count: usize = self.messages.len().saturating_sub(self.retain_recent);
        if count == 0 {
            return None;
        }
        let mut input: Vec<Message> = Vec::new();
        input.push(Message::system(&self.summary_prompt));
        let intro = match &self.summary {
            Some(s) => cat3(
                "Previous conversation summary:\n",
                s,
                "\n\nNew messages to incorporate:",
            ),
            None => owned("Conversation to summarize:"),
        };
        input.push(Message::user(&intro));
        let text = conversation_text(&self.messages, count);
        input.push(Message::user(&text));
        let request = ChatRequest {
            messages: input,
            tools: Vec::new(),
            temperature: Some(Json::zero()),
            max_tokens: Some(512),
        };
        proof {
            assert(request@.messages =~= self@.request().messages);
            assert(request@.tools =~= self@.request().tools);
        }
        Some(SummaryJob { request, count, epoch: self.epoch })
    }

    /// Whether the messages that a summary stands for are still there, or the
    /// memory was cleared since it began.
    pub fn can_finish(&self, job: &SummaryJob) -> (r: bool)
        ensures
            r == (self@.epoch == job.epoch ==> job.count <= self@.messages.len()),
    {
        self.epoch != job.epoch || job.count <= self.messages.len()
    }

    /// Takes the messages that a summary stands for out and keeps the summary,
    /// unless the memory was cleared since it began.
    pub fn finish_summary(&mut self, job: &SummaryJob, text: &str)
        requires
            old(self)@.epoch == job.epoch ==> job.count <= old(self)@.messages.len(),
        ensures
            final(self)@ == old(self)@.finished(job.epoch, job.count as int, text@),
            final(self).summarizer() == old(self).summarizer(),
    {
        if self.epoch != job.epoch {
            return ;
        }
        let rest = self.messages.split_off(job.count);
        self.messages = rest;
        self.summary = Some(owned(text));
        assert(self@.messages =~= old(self)@.messages.skip(job.count as int));
    }
}

impl<M: Model> SummaryMemory<M> {
    /// Condenses the oldest messages if a summary is due. If the model fails,
    /// everything stays.
    fn maybe_summarize(&mut self)
        ensures
            final(self).summarizer() == old(self).summarizer(),
            if old(self)@.due() {
                exists|r: Result<ChatResponse>|
                    {
                        &&& #[trigger] may_generate(
                            old(self).summarizer(),
                            old(self)@.request(),
                            r,
                        )
                        &&& final(self)@ == match r {
                            Ok(resp) => old(self)@.condensed(
                                old(self)@.old_count() as int,
                                response_text(resp),
                            ),
                            Err(_) => old(self)@,
                        }
                    }
            } else {
                final(self)@ == old(self)@
            },
    {
        if let Some(job) = self.begin_summary() {
            let r = self.model.generate(&job.request);
            assert(may_generate(self.summarizer(), self@.request(), r));
            if let Ok(response) = r {
                let text = response.text();
                self.finish_summary(&job, &text);
            }
        }
    }
}

impl<M: Model> Memory for SummaryMemory<M> {
    open spec fn history(&self) -> Seq<MessageView> {
        self@.context()
    }

    open spec fn wf(&self) -> bool {
        true
    }

    open spec fn reads(&self, r: Outcome<()>) -> bool {
        r is Ok
    }

    open spec fn clears(&self, after: Self, r: Outcome<()>) -> bool {
        &&& r is Ok
        &&& after@ == self@.cleared()
        &&& after.summarizer() == self.summarizer()
    }

    open spec fn adds(&self, message: Message, after: Self, r: Outcome<()>) -> bool {
        let grown = SummaryState { messages: self@.messages.push(message@), ..self@ };
        &&& r is Ok
        &&& after.summarizer() == self.summarizer()
        &&& if grown.due() {
            exists|a: Result<ChatResponse>|
                {
                    &&& #[trigger] may_generate(self.summarizer(), grown.request(), a)
                    &&& after@ == match a {
                        Ok(resp) => grown.condensed(
                            grown.old_count() as int,
                            response_text(resp),
                        ),
                        Err(_) => grown,
                    }
                }
        } else {
            after@ == grown
        }
    }

    /// Appends a message and condenses the oldest ones if a summary is due.
    fn add_message(&mut self, message: &Message) -> (r: Result<()>) {
        self.push(message);
        self.maybe_summarize();
        Ok(())
    }

    fn get_messages(&self) -> (r: Result<Vec<Message>>) {
        let mut out: Vec<Message> = Vec::new();
        if let Some(s) = &self.summary {
            out.push(Message::system(&cat2("Previous conversation summary: ", s)));
        }
        let ghost head = message_views(out@);
        let mut i: usize = 0;
        while i < self.messages.len()
            invariant
                i <= self.messages@.len(),
                message_views(out@) == head + self@.messages.take(i as int),
            decreases self.messages@.len() - i,
        {
            let ghost before = message_views(out@);
            out.push(self.messages[i].clone());
            i += 1;
            assert(message_views(out@) =~= before.push(self@.messages[i - 1]));
            assert(self@.messages.take(i as int) =~= self@.messages.take(i - 1).push(
                self@.messages[i - 1],
            ));
            assert(message_views(out@) =~= head + self@.messages.take(i as int));
        }
        assert(self@.messages.take(i as int) =~= self@.messages);
        assert(message_views(out@) =~= self@.context());
        Ok(out)
    }

    /// Forgets all messages and the summary, and makes a summary that is under
    /// way void.
    fn clear(&mut self) -> (r: Result<()>) {
        self.messages.clear();
        self.summary = None;
        self.epoch = self.epoch.wrapping_add(1);
        assert(self@.messages =~= Seq::<MessageView>::empty());
        Ok(())
    }
}

/// No message is lost: those that a summary stands for and those that are left
/// are together all that were there, also those added while it was under way.
pub proof fn summaries_lose_no_message(s: SummaryState, added: Seq<MessageView>, text: Seq<char>)
    ensures
        ({
            let n = s.old_count() as int;
            let grown = SummaryState { messages: s.messages + added, ..s };
            s.messages.take(n) + grown.condensed(n, text).messages == grown.messages
        }),
{
    let n = s.old_count() as int;
    let grown = SummaryState { messages: s.messages + added, ..s };
    assert(s.messages.take(n) + grown.messages.skip(n) =~= grown.messages);
}

/// A summary leaves exactly the most recent messages that are to stay.
pub proof fn summaries_keep_the_recent(s: SummaryState, text: Seq<char>)
    requires
        s.due(),
    ensures
        s.condensed(s.old_count() as int, text).messages.len() == s.retain_recent,
        s.condensed(s.old_count() as int, text).context().len() == s.retain_recent + 1,
{
}

/// A summary that began before the memory was cleared does not come back into it,
/// whatever was added since.
pub proof fn clearing_voids_summaries(
    s: SummaryState,
    added: Seq<MessageView>,
    count: int,
    text: Seq<char>,
)
    ensures
        ({
            let since = SummaryState { messages: s.cleared().messages + added, ..s.cleared() };
            since.finished(s.epoch, count, text) == since
        }),
{
}

} // verus!
