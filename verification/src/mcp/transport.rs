//! How messages travel: framing, waiting for an answer, and plain HTTP.

use crate::error::{outcome, DaimonError, ErrorView, Outcome, Result};
use crate::json::{parsed_bytes, parsed_json, Json, JsonView};
use crate::map::{text_map, NameMap};
use crate::mcp::protocol::{
    json_rpc, opt_json, read_response, JsonRpcNotification, JsonRpcRequest, JsonRpcResponse,
    RpcView, JSONRPC_VERSION,
};
use crate::text::{
    after_prefix, cat2, cat3, cat4, cat5, decimal, decimal_round_trip, decimal_text, is_space,
    lemma_decimal_digits, lemma_trimmed_between, owned, parse_u64, strip_prefix, trim_text, trimmed,
    uint_value, UintError,
};
use std::time::Duration;
use vstd::prelude::*;

verus! {

/// How many seconds an HTTP request may take, unless told otherwise.
pub const DEFAULT_HTTP_TIMEOUT_SECS: u64 = 30;

/// The duration of a number of seconds.
pub uninterp spec fn seconds(n: u64) -> Duration;

/// `Duration::from_secs` gives the duration of a number of seconds.
pub assume_specification[ Duration::from_secs ](secs: u64) -> (r: Duration)
    ensures
        r == seconds(secs),
;

/// How many other messages are passed over while waiting for an answer.
pub const MAX_SKIPPED_MESSAGES: usize = 1024;

/// How many bytes a message may have.
pub const MAX_MESSAGE_SIZE: usize = 33554432;

/// A way to the other side. It numbers the requests itself, so that any number
/// of callers can share it.
pub trait McpTransport {
    /// Sends a request and waits for its answer.
    fn request(&self, method: &str, params: Option<Json>) -> (r: Result<JsonRpcResponse>);

    /// Sends a message that asks for no answer.
    fn notify(&self, notification: &JsonRpcNotification) -> (r: Result<()>);

    /// Gives the way up.
    fn close(&self) -> (r: Result<()>);
}

/// Whether a request may be answered in this way.
pub open spec fn may_request<T: McpTransport>(
    transport: T,
    method: Seq<char>,
    params: Option<JsonView>,
    r: Result<JsonRpcResponse>,
) -> bool {
    exists|m: &str, p: Option<Json>|
        m@ == method && opt_json(p) == params && #[trigger] call_ensures(
            T::request,
            (&transport, m, p),
            r,
        )
}

/// Whether sending a bare notification may end in this way.
pub open spec fn may_notify<T: McpTransport>(
    transport: T,
    method: Seq<char>,
    r: Result<()>,
) -> bool {
    exists|n: &JsonRpcNotification|
        n.jsonrpc@ == JSONRPC_VERSION@ && n.method@ == method && n.params is None
            && #[trigger] call_ensures(T::notify, (&transport, n), r)
}

/// Sends a request and waits for its answer.
pub(crate) fn ask<T: McpTransport>(transport: &T, method: &str, params: Option<Json>) -> (r: Result<
    JsonRpcResponse,
>)
    ensures
        may_request(*transport, method@, opt_json(params), r),
{
    let ghost p = params;
    let r = transport.request(method, params);
    assert(call_ensures(T::request, (transport, method, p), r));
    r
}

/// Sends a bare notification.
pub(crate) fn tell<T: McpTransport>(transport: &T, method: &str) -> (r: Result<()>)
    ensures
        may_notify(*transport, method@, r),
{
    let notification = JsonRpcNotification::new(method);
    let r = transport.notify(&notification);
    assert(call_ensures(T::notify, (transport, &notification), r));
    r
}

// ---------------------------------------------------------------------
// Framing
// ---------------------------------------------------------------------

/// The error for a message that would be too large.
pub open spec fn size_error(length: nat) -> ErrorView {
    ErrorView::Mcp(
        "Content-Length "@ + decimal(length) + " exceeds maximum allowed message size "@
            + decimal(MAX_MESSAGE_SIZE as nat),
    )
}

/// Refuses a length that the other side announces before room is made for it.
pub fn check_content_length(length: usize) -> (r: Result<()>)
    ensures
        match r {
            Ok(_) => length <= MAX_MESSAGE_SIZE,
            Err(e) => length > MAX_MESSAGE_SIZE && e@ == size_error(length as nat),
        },
{
    if length > MAX_MESSAGE_SIZE {
        return Err(
            DaimonError::Mcp(
                cat4(
                    "Content-Length ",
                    &decimal_text(length as u64),
                    " exceeds maximum allowed message size ",
                    &decimal_text(MAX_MESSAGE_SIZE as u64),
                ),
            ),
        );
    }
    Ok(())
}

/// What goes before a message of a length in bytes.
pub open spec fn frame_header(length: nat) -> Seq<char> {
    "Content-Length: "@ + decimal(length) + "\r\n\r\n"@
}

/// What goes before a message of a length in bytes.
pub fn make_frame_header(length: usize) -> (r: String)
    ensures
        r@ == frame_header(length as nat),
{
    cat3("Content-Length: ", &decimal_text(length as u64), "\r\n\r\n")
}

/// What to do after a header line.
#[derive(Debug, Clone, Copy, PartialEq, Eq, Structural)]
pub enum HeaderStep {
    /// Read the next line.
    More,
    /// Read a body of so many bytes.
    Body(usize),
}

/// Reads the lines before a message.
#[derive(Debug)]
pub struct HeaderReader {
    /// The length that was announced so far.
    pub content_length: Option<usize>,
}

/// What a line before a message does: the length announced after it, and what
/// comes next.
pub open spec fn after_header_line(length: Option<usize>, line: Seq<char>) -> (
    Option<usize>,
    Outcome<HeaderStep>,
) {
    let bare = trimmed(line);
    if bare.len() == 0 {
        (
            length,
            match length {
                None => Err(ErrorView::Mcp("missing Content-Length header"@)),
                Some(n) => if n > MAX_MESSAGE_SIZE {
                    Err(size_error(n as nat))
                } else {
                    Ok(HeaderStep::Body(n))
                },
            },
        )
    } else {
        match after_prefix(bare, "Content-Length:"@) {
            Some(value) => match uint_value(trimmed(value)) {
                Ok(n) => if n <= usize::MAX {
                    (Some(n as usize), Ok(HeaderStep::More))
                } else {
                    (
                        length,
                        Err(
                            ErrorView::Mcp(
                                "invalid Content-Length: "@ + UintError::TooLarge.words(),
                            ),
                        ),
                    )
                },
                Err(e) => (length, Err(ErrorView::Mcp("invalid Content-Length: "@ + e.words()))),
            },
            None => (length, Ok(HeaderStep::More)),
        }
    }
}

impl HeaderReader {
    /// Nothing was announced.
    pub fn new() -> (r: Self)
        ensures
            r.content_length is None,
    {
        HeaderReader { content_length: None }
    }

    /// Takes a line before a message.
    pub fn take_line(&mut self, line: &str) -> (r: Result<HeaderStep>)
        ensures
            (final(self).content_length, outcome(r)) == after_header_line(
                old(self).content_length,
                line@,
            ),
    {
        let bare = trim_text(line);
        if bare.as_str().unicode_len() == 0 {
            return match self.content_length {
                None => Err(DaimonError::Mcp(owned("missing Content-Length header"))),
                Some(n) => match check_content_length(n) {
                    Ok(_) => Ok(HeaderStep::Body(n)),
                    Err(e) => Err(e),
                },
            };
        }
        match strip_prefix(&bare, "Content-Length:") {
            Some(value) => match parse_u64(&trim_text(&value)) {
                Ok(n) => {
                    if n <= usize::MAX as u64 {
                        self.content_length = Some(n as usize);
                        Ok(HeaderStep::More)
                    } else {
                        Err(
                            DaimonError::Mcp(
                                cat2("invalid Content-Length: ", UintError::TooLarge.message()),
                            ),
                        )
                    }
                },
                Err(e) => Err(DaimonError::Mcp(cat2("invalid Content-Length: ", e.message()))),
            },
            None => Ok(HeaderStep::More),
        }
    }

    /// The error for a stream that ended before a message.
    pub fn ended(&self) -> (r: DaimonError)
        ensures
            r@ == ErrorView::Mcp("server closed connection"@),
    {
        DaimonError::Mcp(owned("server closed connection"))
    }
}

/// The first line of a frame header, and the line that ends it.
pub open spec fn frame_lines(length: nat) -> (Seq<char>, Seq<char>) {
    ("Content-Length: "@ + decimal(length) + "\r\n"@, "\r\n"@)
}

/// What is written before a message is read back as its length.
pub proof fn frame_round_trip(length: usize)
    requires
        length <= MAX_MESSAGE_SIZE,
    ensures
        frame_header(length as nat) == frame_lines(length as nat).0 + frame_lines(length as nat).1,
        after_header_line(None, frame_lines(length as nat).0) == (
            Some(length),
            Ok::<HeaderStep, ErrorView>(HeaderStep::More),
        ),
        after_header_line(Some(length), frame_lines(length as nat).1) == (
            Some(length),
            Ok::<HeaderStep, ErrorView>(HeaderStep::Body(length)),
        ),
{
    let digits = decimal(length as nat);
    let (first, blank) = frame_lines(length as nat);
    reveal_strlit("Content-Length: ");
    reveal_strlit("Content-Length:");
    reveal_strlit("\r\n");
    reveal_strlit("\r\n\r\n");
    reveal_strlit(" ");
    assert("\r\n\r\n"@ =~= "\r\n"@ + "\r\n"@);
    assert(frame_header(length as nat) =~= first + blank);
    lemma_decimal_digits(length as nat);
    decimal_round_trip(length as u64);
    // The first line.
    let key = "Content-Length:"@;
    let bare = "Content-Length: "@ + digits;
    assert("Content-Length: "@ =~= key + seq![' ']);
    assert(first =~= Seq::<char>::empty() + bare + "\r\n"@);
    assert(bare[0] == 'C');
    assert('0' <= digits[digits.len() - 1] <= '9');
    assert(bare.last() == digits[digits.len() - 1]);
    lemma_trimmed_between(Seq::empty(), bare, "\r\n"@);
    assert(bare =~= key + (seq![' '] + digits));
    assert(key.is_prefix_of(bare));
    assert(bare.skip(key.len() as int) =~= seq![' '] + digits);
    assert('0' <= digits[0] <= '9');
    assert(seq![' '] + digits =~= seq![' '] + digits + Seq::<char>::empty());
    lemma_trimmed_between(seq![' '], digits, Seq::empty());
    // The line that ends it.
    assert(blank.len() == 2 && is_space(blank[0]) && is_space(blank[1]));
    assert(blank.skip(1).skip(1).len() == 0);
    assert(blank.skip(1)[0] == blank[1]);
    assert(crate::text::space_run(blank.skip(1).skip(1)) == 0);
    assert(crate::text::space_run(blank.skip(1)) == 1);
    assert(crate::text::space_run(blank) == 2);
    assert(trimmed(blank).len() == 0);
}

// ---------------------------------------------------------------------
// Waiting
// ---------------------------------------------------------------------

/// Waits for the answer to a request among other messages.
#[derive(Debug)]
pub struct ResponseWait {
    pub expected_id: u64,
    /// How many other messages were passed over.
    pub skipped: usize,
}

/// What a message is while waiting: how many others were passed over after it,
/// and the answer, if it is that.
pub open spec fn after_message(
    expected_id: u64,
    skipped: usize,
    parsed: std::result::Result<JsonView, Seq<char>>,
) -> (usize, Outcome<Option<RpcView>>) {
    match parsed {
        Err(e) => (skipped, Err(ErrorView::Mcp("deserialize response: "@ + e))),
        Ok(v) => match json_rpc(v) {
            None => (
                skipped,
                Err(ErrorView::Mcp("deserialize response: "@ + "not a JSON-RPC response"@)),
            ),
            Some(m) => if m.id == Some(expected_id) {
                (skipped, Ok(Some(m)))
            } else if skipped + 1 >= MAX_SKIPPED_MESSAGES {
                ((skipped + 1) as usize, Err(wait_error(expected_id)))
            } else {
                ((skipped + 1) as usize, Ok(None))
            },
        },
    }
}

/// The error after too many other messages.
pub open spec fn wait_error(expected_id: u64) -> ErrorView {
    ErrorView::Mcp(
        "no response for request id "@ + decimal(expected_id as nat) + " within "@ + decimal(
            MAX_SKIPPED_MESSAGES as nat,
        ) + " messages"@,
    )
}

/// The model of a wait's result.
pub open spec fn wait_outcome(r: Result<Option<JsonRpcResponse>>) -> Outcome<Option<RpcView>> {
    match r {
        Ok(Some(m)) => Ok(Some(m@)),
        Ok(None) => Ok(None),
        Err(e) => Err(e@),
    }
}

impl ResponseWait {
    /// Waits for the answer to a request.
    pub fn new(expected_id: u64) -> (r: Self)
        ensures
            r.expected_id == expected_id,
            r.skipped == 0,
    {
        ResponseWait { expected_id, skipped: 0 }
    }

    fn take(&mut self, parsed: std::result::Result<Json, String>) -> (r: Result<
        Option<JsonRpcResponse>,
    >)
        requires
            old(self).skipped < MAX_SKIPPED_MESSAGES,
        ensures
            final(self).expected_id == old(self).expected_id,
            (final(self).skipped, wait_outcome(r)) == after_message(
                old(self).expected_id,
                old(self).skipped,
                (match parsed {
                    Ok(v) => Ok(v@),
                    Err(e) => Err(e@),
                }),
            ),
    {
        match parsed {
            Err(e) => Err(DaimonError::Mcp(cat2("deserialize response: ", &e))),
            Ok(v) => match read_response(&v) {
                None => Err(
                    DaimonError::Mcp(cat2("deserialize response: ", "not a JSON-RPC response")),
                ),
                Some(m) => {
                    let matches = match m.id {
                        Some(id) => id == self.expected_id,
                        None => false,
                    };
                    if matches {
                        return Ok(Some(m));
                    }
                    self.skipped = self.skipped + 1;
                    if self.skipped >= MAX_SKIPPED_MESSAGES {
                        Err(
                            DaimonError::Mcp(
                                cat5(
                                    "no response for request id ",
                                    &decimal_text(self.expected_id),
                                    " within ",
                                    &decimal_text(MAX_SKIPPED_MESSAGES as u64),
                                    " messages",
                                ),
                            ),
                        )
                    } else {
                        Ok(None)
                    }
                },
            },
        }
    }

    /// Takes a message in bytes: the answer, nothing, or the end of waiting.
    pub fn take_bytes(&mut self, bytes: &[u8]) -> (r: Result<Option<JsonRpcResponse>>)
        requires
            old(self).skipped < MAX_SKIPPED_MESSAGES,
        ensures
            final(self).expected_id == old(self).expected_id,
            (final(self).skipped, wait_outcome(r)) == after_message(
                old(self).expected_id,
                old(self).skipped,
                parsed_bytes(bytes@),
            ),
    {
        self.take(Json::parse_bytes(bytes))
    }

    /// Takes a message in text: the answer, nothing, or the end of waiting.
    pub fn take_text(&mut self, text: &str) -> (r: Result<Option<JsonRpcResponse>>)
        requires
            old(self).skipped < MAX_SKIPPED_MESSAGES,
        ensures
            final(self).expected_id == old(self).expected_id,
            (final(self).skipped, wait_outcome(r)) == after_message(
                old(self).expected_id,
                old(self).skipped,
                parsed_json(text@),
            ),
    {
        self.take(Json::parse(text))
    }
}

/// What is delivered answers the request that is waited for.
pub proof fn only_the_answer_is_delivered(
    expected_id: u64,
    skipped: usize,
    parsed: std::result::Result<JsonView, Seq<char>>,
)
    ensures
        after_message(expected_id, skipped, parsed).1 matches Ok(Some(m)) ==> m.id == Some(
            expected_id,
        ),
{
}

/// How a wait stands after some messages: how many were passed over, and how it
/// ended, if it did.
pub open spec fn wait_run(
    expected_id: u64,
    messages: Seq<std::result::Result<JsonView, Seq<char>>>,
) -> (usize, Outcome<Option<RpcView>>)
    decreases messages.len(),
{
    if messages.len() == 0 {
        (0, Ok(None))
    } else {
        match wait_run(expected_id, messages.drop_last()) {
            (skipped, Ok(None)) => after_message(expected_id, skipped, messages.last()),
            ended => ended,
        }
    }
}

/// A wait that ends well ends with the answer to its own request: a message that
/// carries the identifier, behind messages for others only.
pub proof fn waits_end_with_their_own_answer(
    expected_id: u64,
    messages: Seq<std::result::Result<JsonView, Seq<char>>>,
) -> (k: int)
    requires
        wait_run(expected_id, messages).1 matches Ok(Some(_)),
    ensures
        0 <= k < messages.len(),
        messages[k] is Ok,
        wait_run(expected_id, messages).1 == Ok::<Option<RpcView>, ErrorView>(
            json_rpc(messages[k]->Ok_0),
        ),
        json_rpc(messages[k]->Ok_0) matches Some(m) && m.id == Some(expected_id),
        forall|j: int|
            0 <= j < k ==> (#[trigger] messages[j] matches Ok(v) && json_rpc(v) matches Some(m)
                && m.id != Some(expected_id)),
    decreases messages.len(),
{
    let init = messages.drop_last();
    assert(forall|j: int| 0 <= j < init.len() ==> init[j] == messages[j]);
    if wait_run(expected_id, init).1 matches Ok(None) {
        lemma_others_came(expected_id, init);
        init.len() as int
    } else {
        waits_end_with_their_own_answer(expected_id, init)
    }
}

proof fn lemma_others_came(
    expected_id: u64,
    messages: Seq<std::result::Result<JsonView, Seq<char>>>,
)
    requires
        wait_run(expected_id, messages).1 matches Ok(None),
    ensures
        forall|j: int|
            0 <= j < messages.len() ==> (#[trigger] messages[j] matches Ok(v) && json_rpc(
                v,
            ) matches Some(m) && m.id != Some(expected_id)),
    decreases messages.len(),
{
    if messages.len() > 0 {
        let init = messages.drop_last();
        lemma_others_came(expected_id, init);
        assert(forall|j: int| 0 <= j < init.len() ==> init[j] == messages[j]);
    }
}

/// Waiting ends after a number of messages, whatever they are.
pub proof fn waiting_is_bounded(
    expected_id: u64,
    messages: Seq<std::result::Result<JsonView, Seq<char>>>,
)
    requires
        messages.len() >= MAX_SKIPPED_MESSAGES,
    ensures
        wait_run(expected_id, messages).1 != Ok::<Option<RpcView>, ErrorView>(None),
{
    lemma_wait_counts(expected_id, messages);
}

proof fn lemma_wait_counts(
    expected_id: u64,
    messages: Seq<std::result::Result<JsonView, Seq<char>>>,
)
    ensures
        wait_run(expected_id, messages).1 == Ok::<Option<RpcView>, ErrorView>(None) ==> {
            &&& wait_run(expected_id, messages).0 == messages.len()
            &&& messages.len() < MAX_SKIPPED_MESSAGES
        },
    decreases messages.len(),
{
    if messages.len() > 0 {
        lemma_wait_counts(expected_id, messages.drop_last());
    }
}

// ---------------------------------------------------------------------
// Numbers
// ---------------------------------------------------------------------

/// Gives out the identifiers of requests, from one up.
#[derive(Debug)]
pub struct RequestIds {
    pub next: u64,
}

impl RequestIds {
    /// Nothing was given out.
    pub fn new() -> (r: Self)
        ensures
            r.next == 1,
    {
        RequestIds { next: 1 }
    }

    /// The next request, with its identifier.
    pub fn request(&mut self, method: &str, params: Option<Json>) -> (r: JsonRpcRequest)
        ensures
            r.jsonrpc@ == JSONRPC_VERSION@,
            r.id == old(self).next,
            r.method@ == method@,
            r.params == params,
            final(self).next == old(self).next.wrapping_add(1),
    {
        let id: u64 = self.next;
        self.next = self.next.wrapping_add(1);
        JsonRpcRequest::new(id, method, params)
    }
}

/// The identifier that is given out a number of requests later. The numbers
/// start over behind the largest one.
pub open spec fn id_after(id: u64, requests: u64) -> u64 {
    if id + requests <= u64::MAX {
        (id + requests) as u64
    } else {
        (id + requests - u64::MAX - 1) as u64
    }
}

/// No identifier is given out twice before all of them were.
pub proof fn request_ids_differ(first: u64, i: u64, j: u64)
    requires
        i != j,
    ensures
        id_after(first, i) != id_after(first, j),
        first.wrapping_add(1) == id_after(first, 1),
        i < u64::MAX ==> id_after(first, i).wrapping_add(1) == id_after(first, (i + 1) as u64),
{
}

// ---------------------------------------------------------------------
// HTTP
// ---------------------------------------------------------------------

/// A way to the other side by one HTTP request for each message.
pub struct HttpTransport {
    pub url: String,
    pub headers: NameMap<String>,
    /// How long a request may take.
    pub timeout: Duration,
    pub ids: RequestIds,
}

impl HttpTransport {
    /// A way to a URL.
    pub fn new(url: &str) -> (r: Self)
        ensures
            r.url@ == url@,
            r.headers@ == Map::<Seq<char>, String>::empty(),
            r.timeout == seconds(DEFAULT_HTTP_TIMEOUT_SECS),
            r.ids.next == 1,
    {
        HttpTransport {
            url: owned(url),
            headers: NameMap::new(),
            timeout: Duration::from_secs(DEFAULT_HTTP_TIMEOUT_SECS),
            ids: RequestIds::new(),
        }
    }

    /// Sends a header with every request.
    pub fn with_header(self, name: &str, value: &str) -> (r: Self)
        ensures
            r.url == self.url,
            r.timeout == self.timeout,
            r.ids == self.ids,
            text_map(r.headers@) == text_map(self.headers@).insert(name@, value@),
    {
        let HttpTransport { url, headers, timeout, ids } = self;
        let ghost before = headers@;
        let mut headers = headers;
        headers.insert(owned(name), owned(value));
        assert(text_map(headers@) =~= text_map(before).insert(name@, value@));
        HttpTransport { url, headers, timeout, ids }
    }

    /// Sets how long a request may take.
    pub fn with_timeout(self, timeout: Duration) -> (r: Self)
        ensures
            r == (HttpTransport { timeout, ..self }),
    {
        HttpTransport {
            url: self.url,
            headers: self.headers,
            timeout,
            ids: self.ids,
        }
    }
}

/// The error for an answer with a bad status.
pub open spec fn http_error(status: Seq<char>, body: Seq<char>) -> ErrorView {
    ErrorView::Mcp("HTTP "@ + status + ": "@ + body)
}

/// Refuses an answer with a bad status. `status` is the status in words.
pub fn check_status(code: u16, status: &str, body: &str) -> (r: Result<()>)
    ensures
        match r {
            Ok(_) => 200 <= code < 300,
            Err(e) => !(200 <= code < 300) && e@ == http_error(status@, body@),
        },
{
    if 200 <= code && code < 300 {
        Ok(())
    } else {
        Err(DaimonError::Mcp(cat4("HTTP ", status, ": ", body)))
    }
}

/// The message that a text is.
pub open spec fn response_in(body: Seq<char>) -> Outcome<RpcView> {
    match parsed_json(body) {
        Err(e) => Err(ErrorView::Mcp("deserialize response: "@ + e)),
        Ok(v) => match json_rpc(v) {
            Some(m) => Ok(m),
            None => Err(ErrorView::Mcp("deserialize response: "@ + "not a JSON-RPC response"@)),
        },
    }
}

/// The model of a message, or of its error.
pub open spec fn response_outcome(r: Result<JsonRpcResponse>) -> Outcome<RpcView> {
    match r {
        Ok(m) => Ok(m@),
        Err(e) => Err(e@),
    }
}

/// The message that a text is.
pub fn response_from_text(body: &str) -> (r: Result<JsonRpcResponse>)
    ensures
        response_outcome(r) == response_in(body@),
{
    match Json::parse(body) {
        Err(e) => Err(DaimonError::Mcp(cat2("deserialize response: ", &e))),
        Ok(v) => match read_response(&v) {
            Some(m) => Ok(m),
            None => Err(
                DaimonError::Mcp(cat2("deserialize response: ", "not a JSON-RPC response")),
            ),
        },
    }
}

/// The message that an answer over HTTP carries. `status` is the status in
/// words.
pub fn response_from_http(code: u16, status: &str, body: &str) -> (r: Result<JsonRpcResponse>)
    ensures
        response_outcome(r) == (if 200 <= code < 300 {
            response_in(body@)
        } else {
            Err(http_error(status@, body@))
        }),
{
    match check_status(code, status, body) {
        Err(e) => Err(e),
        Ok(_) => response_from_text(body),
    }
}

/// Whether a message is one that can be read and answers another request.
pub open spec fn answers_another(
    expected_id: u64,
    parsed: std::result::Result<JsonView, Seq<char>>,
) -> bool {
    parsed matches Ok(v) && json_rpc(v) is Some && json_rpc(v)->0.id != Some(expected_id)
}

/// The first answer to a request ends the wait for it, behind messages for others, if
/// there are not too many of these.
pub proof fn the_first_answer_is_waited_for(
    expected_id: u64,
    messages: Seq<std::result::Result<JsonView, Seq<char>>>,
    k: int,
    answer: RpcView,
)
    requires
        0 <= k < messages.len(),
        k < MAX_SKIPPED_MESSAGES,
        forall|j: int| 0 <= j < k ==> answers_another(expected_id, #[trigger] messages[j]),
        messages[k] matches Ok(v) && json_rpc(v) == Some(answer),
        answer.id == Some(expected_id),
    ensures
        wait_run(expected_id, messages).1 == Ok::<Option<RpcView>, ErrorView>(Some(answer)),
    decreases messages.len(),
{
    let init = messages.drop_last();
    if k == messages.len() - 1 {
        lemma_all_pass(expected_id, init);
    } else {
        assert forall|j: int| 0 <= j < k implies answers_another(
            expected_id,
            #[trigger] init[j],
        ) by {
            assert(init[j] == messages[j]);
        }
        the_first_answer_is_waited_for(expected_id, init, k, answer);
    }
}

proof fn lemma_all_pass(
    expected_id: u64,
    messages: Seq<std::result::Result<JsonView, Seq<char>>>,
)
    requires
        messages.len() < MAX_SKIPPED_MESSAGES,
        forall|j: int|
            0 <= j < messages.len() ==> answers_another(expected_id, #[trigger] messages[j]),
    ensures
        wait_run(expected_id, messages) == (
            messages.len() as usize,
            Ok::<Option<RpcView>, ErrorView>(None),
        ),
    decreases messages.len(),
{
    if messages.len() > 0 {
        let init = messages.drop_last();
        assert forall|j: int| 0 <= j < init.len() implies answers_another(
            expected_id,
            #[trigger] init[j],
        ) by {
            assert(init[j] == messages[j]);
        }
        lemma_all_pass(expected_id, init);
        assert(answers_another(expected_id, messages[messages.len() - 1]));
    }
}

/// A header says nothing of the length unless it is the one for it, and an empty line
/// ends the headers: with the length that was announced, if that is not too large.
pub proof fn headers_announce_the_length(length: Option<usize>, line: Seq<char>, other: Seq<char>)
    requires
        trimmed(line).len() == 0,
        trimmed(other).len() > 0,
        !"Content-Length:"@.is_prefix_of(trimmed(other)),
    ensures
        after_header_line(length, other) == (length, Ok::<HeaderStep, ErrorView>(HeaderStep::More)),
        length is None ==> after_header_line(length, line).1 is Err,
        length matches Some(n) ==> if n <= MAX_MESSAGE_SIZE {
            after_header_line(length, line).1 == Ok::<HeaderStep, ErrorView>(HeaderStep::Body(n))
        } else {
            after_header_line(length, line).1 is Err
        },
{
}

} // verus!
