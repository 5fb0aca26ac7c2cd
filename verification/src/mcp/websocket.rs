//! The rules of a WebSocket connection to the other side.

use crate::error::{DaimonError, ErrorView, Outcome, Result};
use crate::json::{parsed_json, Json};
use crate::mcp::protocol::{
    json_rpc, notification_text, opt_json, request_text, JsonRpcNotification, JsonRpcResponse,
    RpcView, JSONRPC_VERSION,
};
use crate::mcp::transport::{after_message, RequestIds, ResponseWait, MAX_SKIPPED_MESSAGES};
use crate::text::{cat2, owned};
use vstd::prelude::*;

verus! {

/// What comes in over a connection.
#[derive(Debug)]
pub enum WsEvent {
    /// A text frame.
    Text(String),
    /// The other side asks for a sign of life.
    Ping,
    /// The other side closes the connection.
    Close,
    /// A frame of another kind.
    Other,
    /// Reading failed, with the reason.
    Failed(String),
    /// Nothing comes any more.
    End,
}

/// What comes in, as contracts speak of it.
pub enum WsEventView {
    Text(Seq<char>),
    Ping,
    Close,
    Other,
    Failed(Seq<char>),
    End,
}

impl View for WsEvent {
    type V = WsEventView;

    open spec fn view(&self) -> WsEventView {
        match *self {
            WsEvent::Text(t) => WsEventView::Text(t@),
            WsEvent::Ping => WsEventView::Ping,
            WsEvent::Close => WsEventView::Close,
            WsEvent::Other => WsEventView::Other,
            WsEvent::Failed(e) => WsEventView::Failed(e@),
            WsEvent::End => WsEventView::End,
        }
    }
}

/// What to do while waiting for an answer.
#[derive(Debug)]
pub enum WsStep {
    /// Read on.
    More,
    /// Send the sign of life, then read on.
    Pong,
    /// The answer is here.
    Answer(JsonRpcResponse),
}

/// What to do, as contracts speak of it.
pub enum WsStepView {
    More,
    Pong,
    Answer(RpcView),
}

impl View for WsStep {
    type V = WsStepView;

    open spec fn view(&self) -> WsStepView {
        match *self {
            WsStep::More => WsStepView::More,
            WsStep::Pong => WsStepView::Pong,
            WsStep::Answer(m) => WsStepView::Answer(m@),
        }
    }
}

/// The model of a step's result.
pub open spec fn step_outcome(r: Result<WsStep>) -> Outcome<WsStepView> {
    match r {
        Ok(s) => Ok(s@),
        Err(e) => Err(e@),
    }
}

/// What an event means while waiting for the answer to a request: how many
/// other messages were passed over after it, and what to do.
pub open spec fn after_event(expected_id: u64, skipped: usize, event: WsEventView) -> (
    usize,
    Outcome<WsStepView>,
) {
    match event {
        WsEventView::Text(text) => {
            let (skipped, r) = after_message(expected_id, skipped, parsed_json(text));
            (
                skipped,
                match r {
                    Ok(Some(m)) => Ok(WsStepView::Answer(m)),
                    Ok(None) => Ok(WsStepView::More),
                    Err(e) => Err(e),
                },
            )
        },
        WsEventView::Ping => (skipped, Ok(WsStepView::Pong)),
        WsEventView::Close => (
            skipped,
            Err(ErrorView::Mcp("WebSocket server closed connection"@)),
        ),
        WsEventView::Other => (skipped, Ok(WsStepView::More)),
        WsEventView::Failed(e) => (skipped, Err(ErrorView::Mcp("WebSocket receive error: "@ + e))),
        WsEventView::End => (skipped, Err(ErrorView::Mcp("WebSocket stream ended"@))),
    }
}

/// Takes what came in while waiting for an answer. Only a message that answers
/// the request ends the wait well; notifications and answers to others are
/// passed over, up to a limit.
pub fn receive(wait: &mut ResponseWait, event: WsEvent) -> (r: Result<WsStep>)
    requires
        old(wait).skipped < MAX_SKIPPED_MESSAGES,
    ensures
        final(wait).expected_id == old(wait).expected_id,
        (final(wait).skipped, step_outcome(r)) == after_event(
            old(wait).expected_id,
            old(wait).skipped,
            event@,
        ),
        r is Ok ==> final(wait).skipped < MAX_SKIPPED_MESSAGES,
{
    match event {
        WsEvent::Text(text) => match wait.take_text(&text) {
            Ok(Some(m)) => Ok(WsStep::Answer(m)),
            Ok(None) => Ok(WsStep::More),
            Err(e) => Err(e),
        },
        WsEvent::Ping => Ok(WsStep::Pong),
        WsEvent::Close => Err(DaimonError::Mcp(owned("WebSocket server closed connection"))),
        WsEvent::Other => Ok(WsStep::More),
        WsEvent::Failed(e) => Err(DaimonError::Mcp(cat2("WebSocket receive error: ", &e))),
        WsEvent::End => Err(DaimonError::Mcp(owned("WebSocket stream ended"))),
    }
}

/// What went wrong on a connection.
#[derive(Debug, Clone, Copy, PartialEq, Eq, Structural)]
pub enum WsFault {
    Connect,
    Send,
    Pong,
}

impl WsFault {
    /// The words before the reason.
    pub open spec fn words(self) -> Seq<char> {
        match self {
            WsFault::Connect => "WebSocket connect failed: "@,
            WsFault::Send => "WebSocket send failed: "@,
            WsFault::Pong => "WebSocket pong failed: "@,
        }
    }

    /// The error for a fault with a reason.
    pub fn error(self, reason: &str) -> (r: DaimonError)
        ensures
            r@ == ErrorView::Mcp(self.words() + reason@),
    {
        let words = match self {
            WsFault::Connect => "WebSocket connect failed: ",
            WsFault::Send => "WebSocket send failed: ",
            WsFault::Pong => "WebSocket pong failed: ",
        };
        DaimonError::Mcp(cat2(words, reason))
    }
}

/// A connection to the other side, without the wire.
#[derive(Debug)]
pub struct WebSocketTransport {
    /// Whether the connection was given up.
    pub closed: bool,
    pub ids: RequestIds,
}

/// The error on a connection that was given up.
pub open spec fn closed_error() -> ErrorView {
    ErrorView::Mcp("WebSocket transport closed"@)
}

impl WebSocketTransport {
    /// A connection that was just made.
    pub fn new() -> (r: Self)
        ensures
            !r.closed,
            r.ids.next == 1,
    {
        WebSocketTransport { closed: false, ids: RequestIds::new() }
    }

    /// The text that asks a request, and the wait for its answer.
    pub fn ask(&mut self, method: &str, params: Option<Json>) -> (r: Result<(String, ResponseWait)>)
        ensures
            final(self).closed == old(self).closed,
            final(self).ids.next == old(self).ids.next.wrapping_add(1),
            match r {
                Ok((text, wait)) => {
                    &&& !old(self).closed
                    &&& text@ == request_text(
                        JSONRPC_VERSION@,
                        old(self).ids.next,
                        method@,
                        opt_json(params),
                    )
                    &&& wait.expected_id == old(self).ids.next
                    &&& wait.skipped == 0
                },
                Err(e) => old(self).closed && e@ == closed_error(),
            },
    {
        let id: u64 = self.ids.next;
        let request = self.ids.request(method, params);
        if self.closed {
            return Err(DaimonError::Mcp(owned("WebSocket transport closed")));
        }
        Ok((request.to_text(), ResponseWait::new(id)))
    }

    /// The text that carries a notification.
    pub fn tell(&self, notification: &JsonRpcNotification) -> (r: Result<String>)
        ensures
            match r {
                Ok(text) => !self.closed && text@ == notification_text(
                    notification.jsonrpc@,
                    notification.method@,
                    opt_json(notification.params),
                ),
                Err(e) => self.closed && e@ == closed_error(),
            },
    {
        if self.closed {
            return Err(DaimonError::Mcp(owned("WebSocket transport closed")));
        }
        Ok(notification.to_text())
    }

    /// Gives the connection up. Says whether there was one to close.
    pub fn close(&mut self) -> (r: bool)
        ensures
            final(self).closed,
            final(self).ids == old(self).ids,
            r == !old(self).closed,
    {
        let was_open = !self.closed;
        self.closed = true;
        was_open
    }
}

/// A frame that is no text never ends a wait well and is never counted.
pub proof fn only_text_answers(expected_id: u64, skipped: usize, event: WsEventView)
    requires
        !(event is Text),
    ensures
        after_event(expected_id, skipped, event).0 == skipped,
        !(after_event(expected_id, skipped, event).1 matches Ok(WsStepView::Answer(_))),
{
}

/// How a wait stands after some frames.
pub struct WsRun {
    /// How many other messages were passed over.
    pub skipped: usize,
    /// How many signs of life were sent.
    pub pongs: nat,
    /// How the wait ended, if it did. What comes behind does not count.
    pub ended: Option<Outcome<RpcView>>,
}

/// How the wait for the answer to a request stands after some frames.
pub open spec fn frames_run(expected_id: u64, frames: Seq<WsEventView>) -> WsRun
    decreases frames.len(),
{
    if frames.len() == 0 {
        WsRun { skipped: 0, pongs: 0, ended: None }
    } else {
        let before = frames_run(expected_id, frames.drop_last());
        if before.ended is Some {
            before
        } else {
            let (skipped, step) = after_event(expected_id, before.skipped, frames.last());
            match step {
                Ok(WsStepView::More) => WsRun { skipped, ..before },
                Ok(WsStepView::Pong) => WsRun { skipped, pongs: before.pongs + 1, ..before },
                Ok(WsStepView::Answer(m)) => WsRun { skipped, ended: Some(Ok(m)), ..before },
                Err(e) => WsRun { skipped, ended: Some(Err(e)), ..before },
            }
        }
    }
}

/// The message that a text frame holds.
pub open spec fn message_in(frame: WsEventView) -> Option<RpcView> {
    match frame {
        WsEventView::Text(text) => match parsed_json(text) {
            Ok(v) => json_rpc(v),
            Err(_) => None,
        },
        _ => None,
    }
}

/// Whether a frame is a text that answers a request.
pub open spec fn answers_request(frame: WsEventView, id: u64) -> bool {
    message_in(frame) matches Some(m) && m.id == Some(id)
}

/// Whether a frame neither answers a request nor breaks the wait for its answer: a
/// message for another, a sign of life, or a frame of another kind.
pub open spec fn passes_by(frame: WsEventView, id: u64) -> bool {
    match frame {
        WsEventView::Text(_) => message_in(frame) matches Some(m) && m.id != Some(id),
        WsEventView::Ping => true,
        WsEventView::Other => true,
        _ => false,
    }
}

/// How many frames are texts.
pub open spec fn text_count(frames: Seq<WsEventView>) -> nat
    decreases frames.len(),
{
    if frames.len() == 0 {
        0
    } else {
        text_count(frames.drop_last()) + if frames.last() is Text {
            1nat
        } else {
            0
        }
    }
}

/// How many frames ask for a sign of life.
pub open spec fn ping_count(frames: Seq<WsEventView>) -> nat
    decreases frames.len(),
{
    if frames.len() == 0 {
        0
    } else {
        ping_count(frames.drop_last()) + if frames.last() is Ping {
            1nat
        } else {
            0
        }
    }
}

/// Whether the first `n` frames all pass by, and fewer texts are among them than a
/// wait puts up with.
pub open spec fn all_pass_by(frames: Seq<WsEventView>, n: int, id: u64) -> bool {
    &&& 0 <= n <= frames.len()
    &&& forall|j: int| 0 <= j < n ==> passes_by(#[trigger] frames[j], id)
    &&& text_count(frames.take(n)) < MAX_SKIPPED_MESSAGES
}

/// A wait goes on exactly as long as all frames pass by and their texts are fewer
/// than the limit. Until then every text is counted, and every ping gets one pong.
pub proof fn waits_go_on(id: u64, frames: Seq<WsEventView>)
    ensures
        frames_run(id, frames).ended is None <==> all_pass_by(frames, frames.len() as int, id),
        frames_run(id, frames).ended is None ==> frames_run(id, frames).skipped == text_count(
            frames,
        ) && frames_run(id, frames).pongs == ping_count(frames),
    decreases frames.len(),
{
    assert(frames.take(frames.len() as int) =~= frames);
    if frames.len() > 0 {
        let init = frames.drop_last();
        waits_go_on(id, init);
        assert(init.take(init.len() as int) =~= init);
        assert(forall|j: int| 0 <= j < init.len() ==> init[j] == frames[j]);
        if all_pass_by(frames, frames.len() as int, id) {
            assert(all_pass_by(init, init.len() as int, id));
        }
        if all_pass_by(init, init.len() as int, id) && passes_by(frames.last(), id) {
            assert forall|j: int| 0 <= j < frames.len() implies passes_by(
                #[trigger] frames[j],
                id,
            ) by {
                if j < init.len() {
                    assert(passes_by(init[j], id));
                }
            }
        }
    }
}

/// The first text frame that answers the request ends the wait with its message,
/// if only frames that pass by come before it and fewer texts than the limit are
/// among them. Each ping before it got one pong, and what comes behind it does not
/// count.
pub proof fn the_first_answer_ends_the_wait(id: u64, frames: Seq<WsEventView>, k: int)
    requires
        0 <= k < frames.len(),
        answers_request(frames[k], id),
        all_pass_by(frames, k, id),
    ensures
        frames_run(id, frames) == (WsRun {
            skipped: text_count(frames.take(k)) as usize,
            pongs: ping_count(frames.take(k)),
            ended: Some(Ok(message_in(frames[k])->0)),
        }),
    decreases frames.len(),
{
    let init = frames.drop_last();
    assert(init.take(k) =~= frames.take(k));
    if k == frames.len() - 1 {
        assert(init =~= frames.take(k));
        assert(init.take(k) =~= init);
        assert(all_pass_by(init, k, id));
        waits_go_on(id, init);
    } else {
        the_first_answer_ends_the_wait(id, init, k);
    }
}

/// A wait ends well only so: with the message of a text frame that answers the
/// request, behind frames that pass by, fewer texts than the limit among them.
pub proof fn waits_end_well_by_an_answer(id: u64, frames: Seq<WsEventView>) -> (k: int)
    requires
        frames_run(id, frames).ended matches Some(Ok(_)),
    ensures
        0 <= k < frames.len(),
        answers_request(frames[k], id),
        all_pass_by(frames, k, id),
        frames_run(id, frames).ended == Some(
            Ok::<RpcView, ErrorView>(message_in(frames[k])->0),
        ),
    decreases frames.len(),
{
    let init = frames.drop_last();
    waits_go_on(id, init);
    if frames_run(id, init).ended is Some {
        let k = waits_end_well_by_an_answer(id, init);
        assert(init.take(k) =~= frames.take(k));
        assert(forall|j: int| 0 <= j < init.len() ==> init[j] == frames[j]);
        k
    } else {
        let k = init.len() as int;
        assert(init.take(k) =~= frames.take(k));
        assert(forall|j: int| 0 <= j < k ==> init[j] == frames[j]);
        k
    }
}

} // verus!
