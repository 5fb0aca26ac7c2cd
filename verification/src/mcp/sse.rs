//! The rules of a connection on which answers arrive as server-sent events and
//! requests leave as HTTP posts.

use crate::error::{DaimonError, ErrorView, Outcome, Result};
use crate::json::{parsed_json, Json};
use crate::mcp::protocol::{
    json_rpc, notification_text, opt_json, read_response, request_text, JsonRpcNotification,
    JsonRpcResponse, RpcView, JSONRPC_VERSION,
};
use crate::mcp::transport::RequestIds;
use crate::model::line_buffer::{lossy_string, lossy_text};
use crate::split::{pieces, split_on};
use crate::text::{
    after_prefix, cat2, cat4, cat5, chars_of, find_from, first_at, join, joined, lemma_first_at,
    opt_text, owned, replace_all, replaced, same, stands_at, string_of, strip_prefix, texts,
    trim_start_text, trim_text, trimmed, trimmed_start,
};
use crate::text_laws::joining_adds_up;
use std::collections::HashSet;
use vstd::prelude::*;

verus! {

broadcast use vstd::std_specs::hash::group_hash_axioms;

// ---------------------------------------------------------------------
// Frames
// ---------------------------------------------------------------------

/// An event: its name and its data.
#[derive(Debug, PartialEq)]
pub struct SseFrame {
    pub event: String,
    pub data: String,
}

/// An event, as contracts speak of it.
pub struct FrameView {
    pub event: Seq<char>,
    pub data: Seq<char>,
}

impl View for SseFrame {
    type V = FrameView;

    open spec fn view(&self) -> FrameView {
        FrameView { event: self.event@, data: self.data@ }
    }
}

/// The name of an event that gives none.
pub const DEFAULT_EVENT: &'static str = "message";

/// What the lines of an event say: its name and the lines of its data. The last
/// line that names it counts; comments and other fields say nothing.
pub open spec fn fields(lines: Seq<Seq<char>>) -> (Seq<char>, Seq<Seq<char>>)
    decreases lines.len(),
{
    if lines.len() == 0 {
        (DEFAULT_EVENT@, Seq::empty())
    } else {
        let (event, data) = fields(lines.drop_last());
        let line = lines.last();
        if line.len() == 0 || line[0] == ':' {
            (event, data)
        } else {
            match after_prefix(line, "event:"@) {
                Some(rest) => (trimmed(rest), data),
                None => match after_prefix(line, "data:"@) {
                    Some(rest) => (event, data.push(trimmed_start(rest))),
                    None => (event, data),
                },
            }
        }
    }
}

/// The event that a text stands for, if it carries data.
pub open spec fn frame_of(raw: Seq<char>) -> Option<FrameView> {
    let (event, data) = fields(pieces(raw, '\n'));
    if data.len() == 0 {
        None
    } else {
        Some(FrameView { event, data: joined(data, "\n"@) })
    }
}

/// The event that a text stands for, if it carries data.
pub fn parse_sse_frame(raw: &str) -> (r: Option<SseFrame>)
    ensures
        match r {
            Some(frame) => frame_of(raw@) == Some(frame@),
            None => frame_of(raw@) is None,
        },
{
    let lines = split_on(raw, '\n');
    let ghost all = texts(lines@);
    let mut event = owned(DEFAULT_EVENT);
    let mut data: Vec<String> = Vec::new();
    let mut i: usize = 0;
    assert(all.take(0) =~= Seq::<Seq<char>>::empty());
    assert(texts(data@) =~= Seq::<Seq<char>>::empty());
    while i < lines.len()
        invariant
            i <= lines@.len(),
            all == texts(lines@),
            (event@, texts(data@)) == fields(all.take(i as int)),
        decreases lines@.len() - i,
    {
        let line = &lines[i];
        assert(all.take(i + 1).drop_last() =~= all.take(i as int));
        assert(all.take(i + 1).last() == line@);
        let skip = line.as_str().unicode_len() == 0 || line.as_str().get_char(0) == ':';
        if !skip {
            match strip_prefix(line, "event:") {
                Some(rest) => {
                    event = trim_text(&rest);
                },
                None => match strip_prefix(line, "data:") {
                    Some(rest) => {
                        let ghost before = texts(data@);
                        let part = trim_start_text(&rest);
                        let ghost new = part@;
                        data.push(part);
                        assert(texts(data@) =~= before.push(new));
                    },
                    None => {},
                },
            }
        }
        i += 1;
    }
    assert(all.take(i as int) =~= all);
    assert(texts(data@).len() == data@.len());
    if data.len() == 0 {
        return None;
    }
    Some(SseFrame { event, data: join(&data, "\n") })
}

/// The texts before each empty line, and what follows the last one.
pub open spec fn blocks(s: Seq<char>) -> (Seq<Seq<char>>, Seq<char>)
    decreases s.len(),
{
    let i = first_at(s, "\n\n"@, 0);
    if i < 0 || i + 2 > s.len() {
        (Seq::empty(), s)
    } else {
        let (more, rest) = blocks(s.skip(i + 2));
        (seq![s.take(i)] + more, rest)
    }
}

proof fn lemma_break()
    ensures
        "\n\n"@.len() == 2,
        "\n\n"@ == seq!['\n', '\n'],
{
    reveal_strlit("\n\n");
    assert("\n\n"@ =~= seq!['\n', '\n']);
}

/// Where a text is cut does not matter: the events of the whole are those of the
/// first part and those of what was left of it with the second part behind.
pub proof fn cuts_keep_events(a: Seq<char>, b: Seq<char>)
    ensures
        blocks(a + b) == (
            blocks(a).0 + blocks(blocks(a).1 + b).0,
            blocks(blocks(a).1 + b).1,
        ),
    decreases a.len(),
{
    lemma_break();
    let sep = "\n\n"@;
    let i = first_at(a, sep, 0);
    lemma_first_at(a, sep, 0);
    lemma_first_at(a + b, sep, 0);
    if i + 2 > a.len() {
        assert(blocks(a) == (Seq::<Seq<char>>::empty(), a));
        assert(Seq::<Seq<char>>::empty() + blocks(a + b).0 =~= blocks(a + b).0);
    } else {
        let j = first_at(a + b, sep, 0);
        assert(stands_at(a + b, sep, i)) by {
            assert((a + b).subrange(i, i + 2) =~= a.subrange(i, i + 2));
        }
        assert(j <= i);
        if j < i {
            assert((a + b).subrange(j, j + 2) =~= a.subrange(j, j + 2));
            assert(stands_at(a, sep, j));
        }
        assert((a + b).take(i) =~= a.take(i));
        assert((a + b).skip(i + 2) =~= a.skip(i + 2) + b);
        cuts_keep_events(a.skip(i + 2), b);
        let (more, rest) = blocks(a.skip(i + 2));
        assert(seq![a.take(i)] + (more + blocks(rest + b).0) =~= (seq![a.take(i)] + more) + blocks(
            rest + b,
        ).0);
    }
}

/// The texts before each empty line, and what follows the last one.
fn cut_blocks(s: &str) -> (r: (Vec<String>, String))
    ensures
        (texts((r.0)@), (r.1)@) == blocks(s@),
{
    let mut rest = chars_of(s);
    let sep = chars_of("\n\n");
    let mut out: Vec<String> = Vec::new();
    proof {
        lemma_break();
    }
    assert(texts(out@) + blocks(rest@).0 =~= blocks(s@).0);
    loop
        invariant
            sep@ == "\n\n"@,
            "\n\n"@.len() == 2,
            texts(out@) + blocks(rest@).0 == blocks(s@).0,
            blocks(rest@).1 == blocks(s@).1,
        ensures
            texts(out@) == blocks(s@).0,
            rest@ == blocks(s@).1,
        decreases rest@.len(),
    {
        match find_from(&rest, &sep, 0) {
            Some(i) => {
                let ghost text = rest@;
                let ghost before = texts(out@);
                let part = string_of(&rest, 0, i);
                assert(part@ =~= text.take(i as int));
                out.push(part);
                assert(texts(out@) =~= before.push(text.take(i as int)));
                let len: usize = rest.len();
                assert(i + 2 <= len);
                let behind = rest.split_off(i + 2);
                rest = behind;
                assert(rest@ =~= text.skip(i + 2));
                assert(texts(out@) + blocks(rest@).0 =~= before + (seq![text.take(i as int)]
                    + blocks(rest@).0));
            },
            None => {
                assert(texts(out@) + Seq::<Seq<char>>::empty() =~= texts(out@));
                break;
            },
        }
    }
    let tail = string_of(&rest, 0, rest.len());
    assert(tail@ =~= rest@);
    (out, tail)
}

// ---------------------------------------------------------------------
// Where posts go
// ---------------------------------------------------------------------

/// What a URL says of where it leads.
#[derive(Debug, PartialEq)]
pub struct UrlParts {
    pub scheme: String,
    pub host: Option<String>,
    /// The port, also where it goes without saying.
    pub port: Option<u16>,
    /// The whole URL.
    pub text: String,
}

/// What a URL says, as contracts speak of it.
pub struct UrlView {
    pub scheme: Seq<char>,
    pub host: Option<Seq<char>>,
    pub port: Option<u16>,
    pub text: Seq<char>,
}

impl View for UrlParts {
    type V = UrlView;

    open spec fn view(&self) -> UrlView {
        UrlView {
            scheme: self.scheme@,
            host: opt_text(self.host),
            port: self.port,
            text: self.text@,
        }
    }
}

/// What `reqwest::Url::parse` makes of a text: the URL, or the words of the error.
pub uninterp spec fn parsed_url(text: Seq<char>) -> std::result::Result<UrlView, Seq<char>>;

/// What `reqwest::Url::join` makes of a URL and a reference that may be relative
/// to it: the URL, or the words of the error.
pub uninterp spec fn joined_url(base: Seq<char>, reference: Seq<char>) -> std::result::Result<
    UrlView,
    Seq<char>,
>;

/// The model of a URL, or of the words of its error.
pub open spec fn url_outcome(r: std::result::Result<UrlParts, String>) -> std::result::Result<
    UrlView,
    Seq<char>,
> {
    match r {
        Ok(u) => Ok(u@),
        Err(e) => Err(e@),
    }
}

/// `reqwest::Url::parse` on a text. Of the URL it hands out what `scheme`,
/// `host_str` and `port_or_known_default` give, and its text.
#[verifier::external_body]
fn parse_url(text: &str) -> (r: std::result::Result<UrlParts, String>)
    ensures
        url_outcome(r) == parsed_url(text@),
{
    match reqwest::Url::parse(text) {
        Ok(u) => Ok(UrlParts {
            scheme: u.scheme().to_string(),
            host: u.host_str().map(|h| h.to_string()),
            port: u.port_or_known_default(),
            text: u.to_string(),
        }),
        Err(e) => Err(e.to_string()),
    }
}

/// `reqwest::Url::join` on the URL that a text parses as, and a reference. Of the
/// URL it hands out what `scheme`, `host_str` and `port_or_known_default` give,
/// and its text.
#[verifier::external_body]
fn join_url(base: &str, reference: &str) -> (r: std::result::Result<UrlParts, String>)
    ensures
        url_outcome(r) == joined_url(base@, reference@),
{
    match reqwest::Url::parse(base).and_then(|b| b.join(reference)) {
        Ok(u) => Ok(UrlParts {
            scheme: u.scheme().to_string(),
            host: u.host_str().map(|h| h.to_string()),
            port: u.port_or_known_default(),
            text: u.to_string(),
        }),
        Err(e) => Err(e.to_string()),
    }
}

/// Whether two URLs share scheme, host and port.
pub open spec fn same_origin(a: UrlView, b: UrlView) -> bool {
    a.scheme == b.scheme && a.host == b.host && a.port == b.port
}

fn same_opt(a: &Option<String>, b: &Option<String>) -> (r: bool)
    ensures
        r == (opt_text(*a) == opt_text(*b)),
{
    match (a, b) {
        (Some(x), Some(y)) => same(x, y),
        (None, None) => true,
        _ => false,
    }
}

/// Whether two URLs share scheme, host and port.
pub fn is_same_origin(a: &UrlParts, b: &UrlParts) -> (r: bool)
    ensures
        r == same_origin(a@, b@),
{
    let ports = match (a.port, b.port) {
        (Some(x), Some(y)) => x == y,
        (None, None) => true,
        _ => false,
    };
    same(&a.scheme, &b.scheme) && same_opt(&a.host, &b.host) && ports
}

/// Where posts may go, given the URL that was connected to and the one that the
/// other side names.
pub open spec fn accepted(base: UrlView, named: UrlView) -> Outcome<Seq<char>> {
    if same_origin(named, base) {
        Ok(named.text)
    } else {
        Err(
            ErrorView::Mcp(
                "SSE endpoint '"@ + named.text + "' is not same-origin with '"@ + base.text + "'"@,
            ),
        )
    }
}

/// The model of a text, or of its error.
pub open spec fn target_outcome(r: Result<String>) -> Outcome<Seq<char>> {
    match r {
        Ok(s) => Ok(s@),
        Err(e) => Err(e@),
    }
}

/// Where posts may go. They carry what authenticates this side, so they never
/// leave the origin that was connected to.
pub fn accept_endpoint(base: &UrlParts, named: UrlParts) -> (r: Result<String>)
    ensures
        target_outcome(r) == accepted(base@, named@),
{
    if is_same_origin(&named, base) {
        Ok(named.text)
    } else {
        Err(
            DaimonError::Mcp(
                cat5(
                    "SSE endpoint '",
                    &named.text,
                    "' is not same-origin with '",
                    &base.text,
                    "'",
                ),
            ),
        )
    }
}

/// Where posts go when the other side names an endpoint.
pub open spec fn endpoint(base_url: Seq<char>, named: Seq<char>) -> Outcome<Seq<char>> {
    match parsed_url(base_url) {
        Err(e) => Err(ErrorView::Mcp("invalid SSE base URL '"@ + base_url + "': "@ + e)),
        Ok(base) => match joined_url(base_url, named) {
            Err(e) => Err(ErrorView::Mcp("invalid SSE endpoint '"@ + named + "': "@ + e)),
            Ok(u) => accepted(base, u),
        },
    }
}

/// Where posts go when the other side names an endpoint, by a URL or by a path
/// from the one that was connected to.
pub fn resolve_endpoint_url(base_url: &str, endpoint_data: &str) -> (r: Result<String>)
    ensures
        target_outcome(r) == endpoint(base_url@, endpoint_data@),
{
    match parse_url(base_url) {
        Err(e) => Err(DaimonError::Mcp(cat4("invalid SSE base URL '", base_url, "': ", &e))),
        Ok(base) => match join_url(base_url, endpoint_data) {
            Err(e) => Err(
                DaimonError::Mcp(cat4("invalid SSE endpoint '", endpoint_data, "': ", &e)),
            ),
            Ok(named) => accept_endpoint(&base, named),
        },
    }
}

/// An endpoint that is accepted shares the origin of the URL that was connected
/// to.
pub proof fn posts_stay_home(base_url: Seq<char>, named: Seq<char>)
    ensures
        endpoint(base_url, named) matches Ok(target) ==> {
            &&& parsed_url(base_url) is Ok
            &&& joined_url(base_url, named) is Ok
            &&& joined_url(base_url, named)->Ok_0.text == target
            &&& same_origin(joined_url(base_url, named)->Ok_0, parsed_url(base_url)->Ok_0)
        },
{
}

// ---------------------------------------------------------------------
// The connection
// ---------------------------------------------------------------------

/// A connection, without the wire.
#[derive(Debug)]
pub struct SseTransport {
    /// The URL that was connected to.
    pub base_url: String,
    /// Where posts go.
    pub post_url: String,
    /// The requests that wait for an answer.
    pub pending: HashSet<u64>,
    /// What came in behind the last event.
    pub buffer: String,
    pub closed: bool,
    /// Why the connection was given up.
    pub close_reason: Option<String>,
    pub ids: RequestIds,
}

/// A connection, as contracts speak of it.
pub struct SseView {
    pub base_url: Seq<char>,
    pub post_url: Seq<char>,
    pub pending: Set<u64>,
    pub buffer: Seq<char>,
    pub closed: bool,
    pub close_reason: Option<Seq<char>>,
    pub next_id: u64,
}

impl View for SseTransport {
    type V = SseView;

    open spec fn view(&self) -> SseView {
        SseView {
            base_url: self.base_url@,
            post_url: self.post_url@,
            pending: self.pending@,
            buffer: self.buffer@,
            closed: self.closed,
            close_reason: opt_text(self.close_reason),
            next_id: self.ids.next,
        }
    }
}

/// What an event does to a connection.
pub enum EffectView {
    /// Nothing: it cannot be read, or nobody waits for it.
    Skipped,
    /// Posts go to another place.
    Moved(Seq<char>),
    /// An answer for a request that waits.
    Answered(u64, RpcView),
    /// The connection cannot be trusted any more, for a reason.
    Fatal(Seq<char>),
}

/// What an event does to a connection.
pub open spec fn effect(base_url: Seq<char>, pending: Set<u64>, frame: FrameView) -> EffectView {
    if frame.event == "endpoint"@ {
        match endpoint(base_url, trimmed(frame.data)) {
            Ok(target) => EffectView::Moved(target),
            Err(e) => EffectView::Fatal(e.words()),
        }
    } else {
        match parsed_json(frame.data) {
            Err(_) => EffectView::Skipped,
            Ok(v) => match json_rpc(v) {
                None => EffectView::Skipped,
                Some(m) => match m.id {
                    Some(id) => if pending.contains(id) {
                        EffectView::Answered(id, m)
                    } else {
                        EffectView::Skipped
                    },
                    None => EffectView::Skipped,
                },
            },
        }
    }
}

/// A connection that is given up for a reason. The first reason counts, and
/// nobody waits any more.
pub open spec fn given_up(s: SseView, reason: Seq<char>) -> SseView {
    SseView {
        closed: true,
        close_reason: match s.close_reason {
            Some(r) => Some(r),
            None => Some(reason),
        },
        pending: Set::empty(),
        ..s
    }
}

/// A connection after the text of an event, and the answer that came with it.
pub open spec fn after_block(s: SseView, raw: Seq<char>) -> (SseView, Option<(u64, RpcView)>) {
    match frame_of(raw) {
        None => (s, None),
        Some(frame) => match effect(s.base_url, s.pending, frame) {
            EffectView::Skipped => (s, None),
            EffectView::Moved(target) => (SseView { post_url: target, ..s }, None),
            EffectView::Answered(id, m) => (
                SseView { pending: s.pending.remove(id), ..s },
                Some((id, m)),
            ),
            EffectView::Fatal(reason) => (given_up(s, reason), None),
        },
    }
}

/// A connection after the texts of some events, and the answers that came with
/// them. Nothing counts once the connection was given up.
pub open spec fn after_blocks(s: SseView, raws: Seq<Seq<char>>) -> (
    SseView,
    Seq<(u64, RpcView)>,
)
    decreases raws.len(),
{
    if raws.len() == 0 {
        (s, Seq::empty())
    } else {
        let (t, answers) = after_blocks(s, raws.drop_last());
        if t.closed {
            (t, answers)
        } else {
            match after_block(t, raws.last()) {
                (u, Some(answer)) => (u, answers.push(answer)),
                (u, None) => (u, answers),
            }
        }
    }
}

/// Bytes as the text that they add.
pub open spec fn chunk_text(bytes: Seq<u8>) -> Seq<char> {
    replaced(lossy_text(bytes), "\r\n"@, "\n"@)
}

/// A connection after a text came in, and the answers that came with it.
pub open spec fn after_text(s: SseView, text: Seq<char>) -> (SseView, Seq<(u64, RpcView)>) {
    if s.closed {
        (s, Seq::empty())
    } else {
        let (raws, rest) = blocks(s.buffer + text);
        after_blocks(SseView { buffer: rest, ..s }, raws)
    }
}

/// The models of some answers.
pub open spec fn answer_views(v: Seq<(u64, JsonRpcResponse)>) -> Seq<(u64, RpcView)> {
    Seq::new(v.len(), |i: int| (v[i].0, (v[i].1)@))
}

/// The error on a connection that was given up.
pub open spec fn gone_error(s: SseView) -> ErrorView {
    ErrorView::Mcp(
        "SSE transport closed: "@ + match s.close_reason {
            Some(r) => r,
            None => "transport closed"@,
        },
    )
}

impl SseTransport {
    /// A connection to a URL that was just made. Posts go there until the other
    /// side names another place.
    pub fn new(url: &str) -> (r: Self)
        ensures
            r@ == (SseView {
                base_url: url@,
                post_url: url@,
                pending: Set::empty(),
                buffer: Seq::empty(),
                closed: false,
                close_reason: None,
                next_id: 1,
            }),
    {
        let r = SseTransport {
            base_url: owned(url),
            post_url: owned(url),
            pending: HashSet::new(),
            buffer: String::new(),
            closed: false,
            close_reason: None,
            ids: RequestIds::new(),
        };
        assert(r@.buffer =~= Seq::<char>::empty());
        assert(r@.pending =~= Set::<u64>::empty());
        r
    }

    /// Gives the connection up for a reason. The first reason counts, and nobody
    /// waits any more.
    pub fn give_up(&mut self, reason: &str)
        ensures
            final(self)@ == given_up(old(self)@, reason@),
    {
        if self.close_reason.is_none() {
            self.close_reason = Some(owned(reason));
        }
        self.closed = true;
        self.pending.clear();
        assert(self@.pending =~= Set::<u64>::empty());
    }

    /// The event stream ended.
    pub fn ended(&mut self)
        ensures
            final(self)@ == given_up(old(self)@, "SSE stream ended"@),
    {
        self.give_up("SSE stream ended")
    }

    /// This side is done with the connection.
    pub fn close(&mut self)
        ensures
            final(self)@ == given_up(old(self)@, "transport closed"@),
    {
        self.give_up("transport closed")
    }

    /// The error on a connection that was given up.
    pub fn closed_error(&self) -> (r: DaimonError)
        ensures
            r@ == gone_error(self@),
    {
        match &self.close_reason {
            Some(reason) => DaimonError::Mcp(cat2("SSE transport closed: ", reason)),
            None => DaimonError::Mcp(cat2("SSE transport closed: ", "transport closed")),
        }
    }

    /// Takes the text of an event: the answer that came with it, if one waits for
    /// it.
    pub fn handle_block(&mut self, raw: &str) -> (r: Option<(u64, JsonRpcResponse)>)
        ensures
            (
                final(self)@,
                match r {
                    Some(a) => Some((a.0, (a.1)@)),
                    None => None,
                },
            ) == after_block(old(self)@, raw@),
    {
        match parse_sse_frame(raw) {
            None => None,
            Some(frame) => {
                if same(&frame.event, "endpoint") {
                    match resolve_endpoint_url(&self.base_url, &trim_text(&frame.data)) {
                        Ok(target) => {
                            self.post_url = target;
                        },
                        Err(e) => {
                            let reason = e.message();
                            self.give_up(&reason);
                        },
                    }
                    return None;
                }
                match Json::parse(&frame.data) {
                    Err(_) => None,
                    Ok(v) => match read_response(&v) {
                        None => None,
                        Some(m) => match m.id {
                            None => None,
                            Some(id) => {
                                let waits = self.pending.contains(&id);
                                if !waits {
                                    return None;
                                }
                                let ghost before = self@;
                                self.pending.remove(&id);
                                assert(self@.pending =~= before.pending.remove(id));
                                Some((id, m))
                            },
                        },
                    },
                }
            },
        }
    }

    /// Takes a text that came in: the answers that came with it, in order.
    pub fn feed_text(&mut self, text: &str) -> (r: Vec<(u64, JsonRpcResponse)>)
        ensures
            (final(self)@, answer_views(r@)) == after_text(old(self)@, text@),
    {
        let mut answers: Vec<(u64, JsonRpcResponse)> = Vec::new();
        assert(answer_views(answers@) =~= Seq::<(u64, RpcView)>::empty());
        if self.closed {
            return answers;
        }
        let ghost before = self@;
        let all = cat2(&self.buffer, text);
        let (raws, rest) = cut_blocks(&all);
        self.buffer = rest;
        let ghost start = self@;
        let ghost list = texts(raws@);
        assert(start == (SseView { buffer: blocks(before.buffer + text@).1, ..before }));
        assert(list.take(0) =~= Seq::<Seq<char>>::empty());
        let mut i: usize = 0;
        while i < raws.len() && !self.closed
            invariant
                i <= raws@.len(),
                list == texts(raws@),
                (self@, answer_views(answers@)) == after_blocks(start, list.take(i as int)),
            decreases raws@.len() - i,
        {
            assert(list.take(i + 1).drop_last() =~= list.take(i as int));
            assert(list.take(i + 1).last() == raws@[i as int]@);
            let ghost so_far = answer_views(answers@);
            match self.handle_block(&raws[i]) {
                Some(answer) => {
                    let ghost new = (answer.0, (answer.1)@);
                    answers.push(answer);
                    assert(answer_views(answers@) =~= so_far.push(new));
                },
                None => {},
            }
            i += 1;
        }
        proof {
            if i < list.len() {
                lemma_closed_stays(start, list, i as int);
            }
            assert(list.take(list.len() as int) =~= list);
        }
        answers
    }

    /// Takes bytes that came in: the answers that came with them, in order.
    pub fn feed(&mut self, bytes: &[u8]) -> (r: Vec<(u64, JsonRpcResponse)>)
        ensures
            (final(self)@, answer_views(r@)) == after_text(old(self)@, chunk_text(bytes@)),
    {
        let text = replace_all(&lossy_string(bytes), "\r\n", "\n");
        self.feed_text(&text)
    }

    /// A request: its identifier, its text and where to post it. From here on it
    /// waits for an answer.
    pub fn ask(&mut self, method: &str, params: Option<Json>) -> (r: Result<
        (u64, String, String),
    >)
        ensures
            match r {
                Ok((id, body, target)) => {
                    &&& !old(self)@.closed
                    &&& id == old(self)@.next_id
                    &&& body@ == request_text(JSONRPC_VERSION@, id, method@, opt_json(params))
                    &&& target@ == old(self)@.post_url
                    &&& final(self)@ == (SseView {
                        pending: old(self)@.pending.insert(id),
                        next_id: id.wrapping_add(1),
                        ..old(self)@
                    })
                },
                Err(e) => {
                    &&& old(self)@.closed
                    &&& e@ == gone_error(old(self)@)
                    &&& final(self)@ == (SseView {
                        next_id: old(self)@.next_id.wrapping_add(1),
                        ..old(self)@
                    })
                },
            },
    {
        let request = self.ids.request(method, params);
        if self.closed {
            return Err(self.closed_error());
        }
        let ghost before = self@;
        self.pending.insert(request.id);
        assert(self@.pending =~= before.pending.insert(request.id));
        Ok((request.id, request.to_text(), self.post_url.clone()))
    }

    /// A notification: its text and where to post it.
    pub fn tell(&self, notification: &JsonRpcNotification) -> (r: Result<(String, String)>)
        ensures
            match r {
                Ok((body, target)) => {
                    &&& !self@.closed
                    &&& body@ == notification_text(
                        notification.jsonrpc@,
                        notification.method@,
                        opt_json(notification.params),
                    )
                    &&& target@ == self@.post_url
                },
                Err(e) => self@.closed && e@ == gone_error(self@),
            },
    {
        if self.closed {
            return Err(self.closed_error());
        }
        Ok((notification.to_text(), self.post_url.clone()))
    }

    /// A request that could not be posted waits no more.
    pub fn forget(&mut self, id: u64)
        ensures
            final(self)@ == (SseView { pending: old(self)@.pending.remove(id), ..old(self)@ }),
    {
        let ghost before = self@;
        self.pending.remove(&id);
        assert(self@.pending =~= before.pending.remove(id));
    }
}

proof fn lemma_closed_stays(s: SseView, raws: Seq<Seq<char>>, i: int)
    requires
        0 <= i <= raws.len(),
        after_blocks(s, raws.take(i)).0.closed,
    ensures
        after_blocks(s, raws) == after_blocks(s, raws.take(i)),
    decreases raws.len(),
{
    if i == raws.len() {
        assert(raws.take(i) =~= raws);
    } else {
        let init = raws.drop_last();
        assert(init.take(i) =~= raws.take(i));
        lemma_closed_stays(s, init, i);
    }
}

/// Refuses to connect where the other side answers with a bad status. `status`
/// is the status in words.
pub fn check_connected(code: u16, status: &str) -> (r: Result<()>)
    ensures
        match r {
            Ok(_) => 200 <= code < 300,
            Err(e) => !(200 <= code < 300) && e@ == ErrorView::Mcp(
                "SSE connect failed: HTTP "@ + status@,
            ),
        },
{
    if 200 <= code && code < 300 {
        Ok(())
    } else {
        Err(DaimonError::Mcp(cat2("SSE connect failed: HTTP ", status)))
    }
}

/// Refuses the answer to a post with a bad status. `status` is the status in
/// words.
pub fn check_posted(code: u16, status: &str, body: &str) -> (r: Result<()>)
    ensures
        match r {
            Ok(_) => 200 <= code < 300,
            Err(e) => !(200 <= code < 300) && e@ == ErrorView::Mcp(
                "SSE POST failed: HTTP "@ + status@ + ": "@ + body@,
            ),
        },
{
    if 200 <= code && code < 300 {
        Ok(())
    } else {
        Err(DaimonError::Mcp(cat4("SSE POST failed: HTTP ", status, ": ", body)))
    }
}

// ---------------------------------------------------------------------
// Laws
// ---------------------------------------------------------------------

/// Whether posts go to the URL that was connected to, or to an endpoint that was
/// accepted from there.
pub open spec fn at_home(s: SseView) -> bool {
    s.post_url == s.base_url || exists|named: Seq<char>| #[trigger]
        endpoint(s.base_url, named) == Ok::<Seq<char>, ErrorView>(s.post_url)
}

/// Whatever comes in, posts stay at home, and the URL that was connected to
/// stays what it is.
pub proof fn post_target_stays_home(s: SseView, text: Seq<char>)
    requires
        at_home(s),
    ensures
        at_home(after_text(s, text).0),
        after_text(s, text).0.base_url == s.base_url,
{
    let (raws, rest) = blocks(s.buffer + text);
    let start = SseView { buffer: rest, ..s };
    assert(at_home(start));
    lemma_home(start, raws);
}

proof fn lemma_home(s: SseView, raws: Seq<Seq<char>>)
    requires
        at_home(s),
    ensures
        at_home(after_blocks(s, raws).0),
        after_blocks(s, raws).0.base_url == s.base_url,
    decreases raws.len(),
{
    if raws.len() > 0 {
        lemma_home(s, raws.drop_last());
        let t = after_blocks(s, raws.drop_last()).0;
        let u = after_block(t, raws.last()).0;
        if let Some(frame) = frame_of(raws.last()) {
            if let EffectView::Moved(target) = effect(t.base_url, t.pending, frame) {
                assert(endpoint(u.base_url, trimmed(frame.data)) == Ok::<Seq<char>, ErrorView>(
                    u.post_url,
                ));
            } else {
                assert(u.post_url == t.post_url && u.base_url == t.base_url);
            }
        }
    }
}

/// An answer is handed out to a request that waits for it, carries its
/// identifier, and is handed out once.
pub proof fn answers_go_to_who_waits(s: SseView, raw: Seq<char>)
    ensures
        after_block(s, raw).1 matches Some(a) ==> {
            &&& s.pending.contains(a.0)
            &&& a.1.id == Some(a.0)
            &&& !after_block(s, raw).0.pending.contains(a.0)
        },
{
}

/// The answer to a request that the text of an event holds.
pub open spec fn answer_in(raw: Seq<char>, id: u64) -> Option<RpcView> {
    match frame_of(raw) {
        None => None,
        Some(frame) => if frame.event == "endpoint"@ {
            None
        } else {
            match parsed_json(frame.data) {
                Err(_) => None,
                Ok(v) => match json_rpc(v) {
                    Some(m) => if m.id == Some(id) {
                        Some(m)
                    } else {
                        None
                    },
                    None => None,
                },
            }
        },
    }
}

/// The first answer to a request among the texts of some events.
pub open spec fn first_answer(raws: Seq<Seq<char>>, id: u64) -> Option<RpcView>
    decreases raws.len(),
{
    if raws.len() == 0 {
        None
    } else {
        match first_answer(raws.drop_last(), id) {
            Some(m) => Some(m),
            None => answer_in(raws.last(), id),
        }
    }
}

/// All that was handed out for a request.
pub open spec fn handed_out(answers: Seq<(u64, RpcView)>, id: u64) -> Seq<RpcView>
    decreases answers.len(),
{
    if answers.len() == 0 {
        Seq::empty()
    } else if answers.last().0 == id {
        handed_out(answers.drop_last(), id).push(answers.last().1)
    } else {
        handed_out(answers.drop_last(), id)
    }
}

/// As long as the connection is not given up, a request that waits is handed the
/// first answer that carries its identifier, and that one alone, whatever else
/// comes in.
pub proof fn each_request_gets_its_own_answer(s: SseView, raws: Seq<Seq<char>>, id: u64)
    requires
        s.pending.contains(id),
        !after_blocks(s, raws).0.closed,
    ensures
        handed_out(after_blocks(s, raws).1, id) == match first_answer(raws, id) {
            Some(m) => seq![m],
            None => Seq::empty(),
        },
        after_blocks(s, raws).0.pending.contains(id) == first_answer(raws, id) is None,
        first_answer(raws, id) matches Some(m) ==> m.id == Some(id),
    decreases raws.len(),
{
    if raws.len() > 0 {
        let init = raws.drop_last();
        let (t, answers) = after_blocks(s, init);
        each_request_gets_its_own_answer(s, init, id);
        if let (u, Some(answer)) = after_block(t, raws.last()) {
            assert(answers.push(answer).drop_last() =~= answers);
            assert(Seq::<RpcView>::empty().push(answer.1) =~= seq![answer.1]);
        }
    }
}

/// Which request is answered first does not matter: an answer for one leaves the
/// other waiting.
pub proof fn answers_may_come_in_any_order(s: SseView, raw: Seq<char>, other: u64)
    requires
        s.pending.contains(other),
        after_block(s, raw).1 matches Some(a) ==> a.0 != other,
        !after_block(s, raw).0.closed,
        !s.closed,
    ensures
        after_block(s, raw).0.pending.contains(other),
{
}

/// A connection that was given up stays so, for its first reason, and hands out
/// nothing.
pub proof fn given_up_for_good(s: SseView, text: Seq<char>, reason: Seq<char>)
    requires
        s.closed,
        s.close_reason is Some,
    ensures
        after_text(s, text) == (s, Seq::<(u64, RpcView)>::empty()),
        given_up(s, reason).close_reason == s.close_reason,
        given_up(s, reason).closed,
{
}

/// An event that cannot be read changes nothing.
pub proof fn bad_events_are_skipped(s: SseView, raw: Seq<char>)
    requires
        frame_of(raw) matches Some(frame) ==> frame.event != "endpoint"@ && (parsed_json(
            frame.data,
        ) is Err || json_rpc(parsed_json(frame.data)->Ok_0) is None),
    ensures
        after_block(s, raw) == (s, None::<(u64, RpcView)>),
{
}

/// An endpoint on another origin gives the connection up, and posts go where they
/// went before.
pub proof fn foreign_endpoints_are_fatal(s: SseView, raw: Seq<char>)
    requires
        frame_of(raw) is Some,
        frame_of(raw)->0.event == "endpoint"@,
        endpoint(s.base_url, trimmed(frame_of(raw)->0.data)) is Err,
    ensures
        after_block(s, raw).0.closed,
        after_block(s, raw).0.post_url == s.post_url,
        after_block(s, raw).0.pending == Set::<u64>::empty(),
{
}

/// Whether a line names an event.
pub open spec fn names_event(line: Seq<char>) -> bool {
    "event:"@.is_prefix_of(line)
}

/// The data of a line, if it carries any.
pub open spec fn line_data(line: Seq<char>) -> Seq<Seq<char>> {
    if "data:"@.is_prefix_of(line) {
        seq![trimmed_start(line.skip(5))]
    } else {
        Seq::empty()
    }
}

proof fn lemma_fields_step(lines: Seq<Seq<char>>)
    requires
        lines.len() > 0,
    ensures
        ({
            let before = fields(lines.drop_last());
            let line = lines.last();
            fields(lines) == (
                if names_event(line) {
                    trimmed(line.skip(6))
                } else {
                    before.0
                },
                before.1 + line_data(line),
            )
        }),
{
    reveal_strlit("event:");
    reveal_strlit("data:");
    assert("event:"@.len() == 6 && "event:"@[0] == 'e');
    assert("data:"@.len() == 5 && "data:"@[0] == 'd');
    let before = fields(lines.drop_last());
    let line = lines.last();
    if names_event(line) {
        assert(line[0] == 'e');
    }
    if "data:"@.is_prefix_of(line) {
        assert(line[0] == 'd');
    }
    assert(fields(lines).1 =~= before.1 + line_data(line));
}

/// The last line that names an event decides its name, and without one it is called
/// `message`.
pub proof fn the_last_name_counts(lines: Seq<Seq<char>>, k: int)
    ensures
        0 <= k < lines.len() && names_event(lines[k]) && (forall|j: int|
            k < j < lines.len() ==> !names_event(#[trigger] lines[j])) ==> fields(lines).0
            == trimmed(lines[k].skip(6)),
        (forall|j: int| 0 <= j < lines.len() ==> !names_event(#[trigger] lines[j])) ==> fields(
            lines,
        ).0 == "message"@,
    decreases lines.len(),
{
    if lines.len() > 0 {
        let init = lines.drop_last();
        lemma_fields_step(lines);
        the_last_name_counts(init, k);
        assert(forall|j: int| 0 <= j < init.len() ==> init[j] == lines[j]);
        assert(lines.last() == lines[lines.len() - 1]);
    }
}

/// Every line of data is kept, in order, and no other line adds any.
pub proof fn data_lines_add_up(a: Seq<Seq<char>>, b: Seq<Seq<char>>, line: Seq<char>)
    ensures
        fields(a + b).1 == fields(a).1 + fields(b).1,
        fields(seq![line]).1 == line_data(line),
    decreases b.len(),
{
    lemma_fields_step(seq![line]);
    assert(seq![line].drop_last() =~= Seq::<Seq<char>>::empty());
    assert(Seq::<Seq<char>>::empty() + line_data(line) =~= line_data(line));
    if b.len() == 0 {
        assert(a + b =~= a);
        assert(fields(a).1 + fields(b).1 =~= fields(a).1);
    } else {
        data_lines_add_up(a, b.drop_last(), line);
        assert((a + b).drop_last() =~= a + b.drop_last());
        lemma_fields_step(a + b);
        lemma_fields_step(b);
        assert(fields(a).1 + fields(b.drop_last()).1 + line_data(b.last()) =~= fields(a).1 + (
        fields(b.drop_last()).1 + line_data(b.last())));
    }
}

/// A text is the event of its lines, if one of them carries data: its data are those
/// of its lines with a line end between them.
pub proof fn frames_carry_all_data(raw: Seq<char>)
    ensures
        frame_of(raw) is Some <==> fields(pieces(raw, '\n')).1.len() > 0,
        frame_of(raw) matches Some(f) ==> f.event == fields(pieces(raw, '\n')).0 && f.data
            == joined(fields(pieces(raw, '\n')).1, seq!['\n']),
{
    reveal_strlit("\n");
    assert("\n"@ =~= seq!['\n']);
}

/// A text that is cut into events is made up of them and of what follows the last,
/// with an empty line behind each. None of them holds an empty line.
pub proof fn blocks_make_up_the_text(s: Seq<char>)
    ensures
        joined(blocks(s).0.push(blocks(s).1), "\n\n"@) == s,
        forall|i: int, at: int|
            0 <= i < blocks(s).0.len() ==> !(#[trigger] stands_at(blocks(s).0[i], "\n\n"@, at)),
        forall|at: int| !stands_at(blocks(s).1, "\n\n"@, at),
    decreases s.len(),
{
    lemma_break();
    let sep = "\n\n"@;
    lemma_first_at(s, sep, 0);
    let i = first_at(s, sep, 0);
    if i < 0 || i + 2 > s.len() {
        assert(blocks(s).0.push(blocks(s).1) =~= seq![s]);
        assert forall|at: int| !stands_at(s, sep, at) by {
            if stands_at(s, sep, at) {
                assert(at < i);
            }
        }
    } else {
        let rest = s.skip(i + 2);
        let head = s.take(i);
        blocks_make_up_the_text(rest);
        let (more, last) = blocks(rest);
        assert(stands_at(s, sep, i));
        assert(blocks(s).0.push(last) =~= seq![head] + more.push(last));
        joining_adds_up(seq![head], more.push(last), sep);
        assert(head + sep + rest =~= s);
        assert forall|k: int, at: int| 0 <= k < blocks(s).0.len() implies !(#[trigger] stands_at(
            blocks(s).0[k],
            sep,
            at,
        )) by {
            if k == 0 {
                if stands_at(head, sep, at) {
                    assert(s.subrange(at, at + 2) =~= head.subrange(at, at + 2));
                    assert(stands_at(s, sep, at));
                }
            } else {
                assert(blocks(s).0[k] == more[k - 1]);
            }
        }
    }
}

/// An endpoint that is accepted is where posts go from then on, and nothing else
/// changes.
pub proof fn posts_follow_the_endpoint(s: SseView, raw: Seq<char>, target: Seq<char>)
    requires
        frame_of(raw) matches Some(frame) && frame.event == "endpoint"@ && endpoint(
            s.base_url,
            trimmed(frame.data),
        ) == Ok::<Seq<char>, ErrorView>(target),
    ensures
        after_block(s, raw).0.post_url == target,
        after_block(s, raw).0.pending == s.pending,
        after_block(s, raw).0.closed == s.closed,
        after_block(s, raw).1 is None,
{
}

/// An event takes effect once the empty line behind it has come, and is kept until
/// then.
pub proof fn complete_events_take_effect(s: SseView, raw: Seq<char>)
    requires
        !s.closed,
        s.buffer.len() == 0,
        raw.len() > 0,
        raw.last() != '\n',
        forall|at: int| !(#[trigger] stands_at(raw, "\n\n"@, at)),
    ensures
        after_text(s, raw) == (SseView { buffer: raw, ..s }, Seq::<(u64, RpcView)>::empty()),
        after_text(s, raw + "\n\n"@) == after_blocks(s, seq![raw]),
{
    lemma_break();
    let sep = "\n\n"@;
    assert(s.buffer =~= Seq::<char>::empty());
    assert(s.buffer + raw =~= raw);
    lemma_first_at(raw, sep, 0);
    assert(blocks(raw) == (Seq::<Seq<char>>::empty(), raw)) by {
        let i = first_at(raw, sep, 0);
        if 0 <= i && i + 2 <= raw.len() {
            assert(stands_at(raw, sep, i));
        }
    }
    let whole = raw + sep;
    let n = raw.len() as int;
    assert(s.buffer + whole =~= whole);
    assert(whole.subrange(n, n + 2) =~= sep);
    assert(stands_at(whole, sep, n));
    lemma_first_at(whole, sep, 0);
    let i = first_at(whole, sep, 0);
    if i < n {
        assert(stands_at(whole, sep, i));
        let pair = whole.subrange(i, i + 2);
        assert(pair[0] == whole[i] && pair[1] == whole[i + 1]);
        if i + 2 <= n {
            assert(raw.subrange(i, i + 2) =~= pair);
            assert(stands_at(raw, sep, i));
        } else {
            assert(whole[i] == raw.last());
        }
    }
    assert(i == n);
    assert(whole.take(n) =~= raw);
    assert(whole.skip(n + 2) =~= Seq::<char>::empty());
    lemma_first_at(Seq::<char>::empty(), sep, 0);
    assert(blocks(Seq::<char>::empty()) == (Seq::<Seq<char>>::empty(), Seq::<char>::empty()));
    assert(blocks(whole).0 =~= seq![raw]);
    assert((SseView { buffer: Seq::empty(), ..s }) == s);
}

} // verus!
