//! A server: it answers requests about the tools of a registry.

use crate::error::{ErrorView, Outcome};
use crate::json::{
    make_object1, make_object2, make_object3, member_views, names_distinct, object1, object2,
    object3, pairs_map, parsed_json, record_text, record_to_text, rereadable, signed_number,
    stands_for, Json, JsonMap, JsonView, NumberView,
};
use crate::decode::{flag_at, place4, placed, read_text, text_at};
use crate::mcp::bridge::{bridged, call_params};
use crate::mcp::client::{
    called, empty_object, page_of, PageView, PACKAGE_NAME, PACKAGE_VERSION, PROTOCOL_VERSION,
};
use crate::mcp::protocol::{
    block_texts, info_json, json_call_result, json_content, json_info, json_infos, json_rpc,
    json_rpc_error, notification_json, opt_json, opt_value_at, read_opt_value, request_json,
    result_text, tool_round_trip, ContentView, McpToolInfo, RpcErrorView, RpcView, ToolInfoView,
    JSONRPC_VERSION,
};
use crate::mcp::transport::{check_content_length, size_error, MAX_MESSAGE_SIZE};
use crate::model::types::{spec_views, ToolSpec, ToolSpecView};
use crate::split::{lemma_first_line, lemma_no_end, pieces, split, split_on};
use crate::text::{
    after_prefix, cat2, cat3, decimal, decimal_round_trip, joined, lemma_decimal_digits,
    lemma_trimmed_between, lowercase, owned, parse_u64, same, strip_prefix, trim_text, trimmed,
    uint_value,
};
use crate::tool::{OutputView, ToolRegistry};
use vstd::prelude::*;

verus! {

/// The code for a method that there is not.
pub const METHOD_NOT_FOUND: i64 = -32601;

/// The code for parameters that make no sense.
pub const INVALID_PARAMS: i64 = -32602;

/// A server for the tools of a registry.
pub struct McpServer {
    pub tools: ToolRegistry,
    pub server_name: String,
    pub server_version: String,
}

/// A refusal: its code and its words.
pub type Refusal = (i64, String);

/// What a request comes to, as contracts speak of it.
pub type ReplyView = std::result::Result<JsonView, (i64, Seq<char>)>;

/// The model of what a request comes to.
pub open spec fn reply_view(r: std::result::Result<Json, Refusal>) -> ReplyView {
    match r {
        Ok(v) => Ok(v@),
        Err(e) => Err((e.0, (e.1)@)),
    }
}

/// The answer to a greeting.
pub open spec fn welcome(name: Seq<char>, version: Seq<char>) -> JsonView {
    object3(
        "protocolVersion"@,
        JsonView::Str(PROTOCOL_VERSION@),
        "capabilities"@,
        object1("tools"@, empty_object()),
        "serverInfo"@,
        object2("name"@, JsonView::Str(name), "version"@, JsonView::Str(version)),
    )
}

/// A tool as the protocol describes it.
pub open spec fn offered(t: ToolSpecView) -> ToolInfoView {
    ToolInfoView { name: t.name, description: Some(t.description), input_schema: t.parameters }
}

/// The answer to the question for the tools.
pub open spec fn tools_reply(tools: Seq<ToolSpecView>) -> JsonView {
    object1(
        "tools"@,
        JsonView::Array(Seq::new(tools.len(), |i: int| info_json(offered(tools[i])))),
    )
}

/// The answer to a call: the output of the tool, or the words of its error.
pub open spec fn call_reply(o: Outcome<OutputView>) -> JsonView {
    let (text, is_error) = match o {
        Ok(output) => (output.content, output.is_error),
        Err(e) => (e.words(), true),
    };
    object2(
        "content"@,
        JsonView::Array(seq![object2("type"@, JsonView::Str("text"@), "text"@, JsonView::Str(text))]),
        "isError"@,
        JsonView::Bool(is_error),
    )
}

/// The arguments of a call. A call that gives none gives an empty object.
pub open spec fn call_arguments(params: JsonView) -> JsonView {
    match params.field("arguments"@) {
        Some(a) => a,
        None => empty_object(),
    }
}

/// Whether a call may come to this.
pub open spec fn may_call(server: McpServer, params: Option<JsonView>, r: ReplyView) -> bool {
    match params {
        None => r == Err::<JsonView, (i64, Seq<char>)>((INVALID_PARAMS, "missing params"@)),
        Some(p) => match text_at(p, "name"@) {
            None => r == Err::<JsonView, (i64, Seq<char>)>(
                (INVALID_PARAMS, "missing 'name' in params"@),
            ),
            Some(name) => if !server.tools.tools@.contains_key(name) {
                r == Err::<JsonView, (i64, Seq<char>)>(
                    (INVALID_PARAMS, "tool '"@ + name + "' not found"@),
                )
            } else {
                exists|o: Outcome<OutputView>|
                    {
                        &&& #[trigger] server.tools.tools@[name].tool.runs(call_arguments(p), o)
                        &&& r == Ok::<JsonView, (i64, Seq<char>)>(call_reply(o))
                    }
            },
        },
    }
}

/// Whether a request may come to this.
pub open spec fn may_handle(
    server: McpServer,
    method: Seq<char>,
    params: Option<JsonView>,
    r: ReplyView,
) -> bool {
    if method == "initialize"@ {
        r == Ok::<JsonView, (i64, Seq<char>)>(
            welcome(server.server_name@, server.server_version@),
        )
    } else if method == "tools/list"@ {
        r == Ok::<JsonView, (i64, Seq<char>)>(tools_reply(server.tools.descriptions()))
    } else if method == "tools/call"@ {
        may_call(server, params, r)
    } else {
        r == Err::<JsonView, (i64, Seq<char>)>(
            (METHOD_NOT_FOUND, "method '"@ + method + "' not found"@),
        )
    }
}

/// The answer to a greeting.
pub fn make_welcome(name: &str, version: &str) -> (r: Json)
    ensures
        r@ == welcome(name@, version@),
{
    make_object3(
        "protocolVersion",
        Json::text(PROTOCOL_VERSION),
        "capabilities",
        make_object1("tools", Json::object(JsonMap::new())),
        "serverInfo",
        make_object2("name", Json::text(name), "version", Json::text(version)),
    )
}

/// The answer to the question for the tools.
pub fn make_tools_reply(tools: &Vec<ToolSpec>) -> (r: Json)
    ensures
        r@ == tools_reply(spec_views(tools@)),
{
    let ghost all = spec_views(tools@);
    let mut items: Vec<Json> = Vec::new();
    let mut i: usize = 0;
    while i < tools.len()
        invariant
            i <= tools@.len(),
            all == spec_views(tools@),
            items@.len() == i,
            forall|j: int| 0 <= j < i ==> (#[trigger] items@[j])@ == info_json(offered(all[j])),
        decreases tools@.len() - i,
    {
        let t = &tools[i];
        let info = McpToolInfo {
            name: t.name.clone(),
            description: Some(t.description.clone()),
            input_schema: t.parameters.duplicate(),
        };
        items.push(info.to_json());
        i += 1;
    }
    assert(crate::json::json_views(items@) =~= Seq::new(
        all.len(),
        |i: int| info_json(offered(all[i])),
    ));
    make_object1("tools", Json::array(items))
}

/// The answer to a call.
pub fn make_call_reply(text: &str, is_error: bool) -> (r: Json)
    ensures
        r@ == call_reply(Ok(OutputView { content: text@, is_error })),
{
    let mut content: Vec<Json> = Vec::new();
    content.push(make_object2("type", Json::text("text"), "text", Json::text(text)));
    assert(crate::json::json_views(content@) =~= seq![
        object2("type"@, JsonView::Str("text"@), "text"@, JsonView::Str(text@)),
    ]);
    make_object2("content", Json::array(content), "isError", Json::Bool(is_error))
}

// ---------------------------------------------------------------------
// Messages
// ---------------------------------------------------------------------

/// A request that came in. One without an identifier asks for no answer.
#[derive(Debug)]
pub struct IncomingRequest {
    pub id: Option<Json>,
    pub method: String,
    pub params: Option<Json>,
}

/// A request, as contracts speak of it.
pub struct IncomingView {
    pub id: Option<JsonView>,
    pub method: Seq<char>,
    pub params: Option<JsonView>,
}

impl View for IncomingRequest {
    type V = IncomingView;

    open spec fn view(&self) -> IncomingView {
        IncomingView { id: opt_json(self.id), method: self.method@, params: opt_json(self.params) }
    }
}

/// The request that a JSON object stands for.
pub open spec fn json_incoming(v: JsonView) -> Option<IncomingView> {
    let v = placed(v, seq!["jsonrpc"@, "id"@, "method"@, "params"@], 3);
    match (text_at(v, "jsonrpc"@), text_at(v, "method"@)) {
        (Some(_), Some(method)) => Some(
            IncomingView {
                id: opt_value_at(v, "id"@),
                method,
                params: opt_value_at(v, "params"@),
            },
        ),
        _ => None,
    }
}

/// What a text that came in is: a request, or the words of the error.
pub open spec fn incoming(body: Seq<char>) -> std::result::Result<IncomingView, Seq<char>> {
    match parsed_json(body) {
        Err(e) => Err(e),
        Ok(v) => match json_incoming(v) {
            Some(request) => Ok(request),
            None => Err("not a JSON-RPC request"@),
        },
    }
}

/// The request that a JSON object stands for.
pub fn read_incoming(v: &Json) -> (r: Option<IncomingRequest>)
    ensures
        match r {
            Some(request) => json_incoming(v@) == Some(request@),
            None => json_incoming(v@) is None,
        },
{
    let held = place4(v, "jsonrpc", "id", "method", "params", 3);
    let v = match &held {
        Some(p) => p,
        None => v,
    };
    match (read_text(v, "jsonrpc"), read_text(v, "method")) {
        (Some(_), Some(method)) => Some(
            IncomingRequest {
                id: read_opt_value(v, "id"),
                method,
                params: read_opt_value(v, "params"),
            },
        ),
        _ => None,
    }
}

/// What a text that came in is: a request, or the words of the error.
pub fn parse_incoming(body: &str) -> (r: std::result::Result<IncomingRequest, String>)
    ensures
        match r {
            Ok(request) => incoming(body@) == Ok::<IncomingView, Seq<char>>(request@),
            Err(e) => incoming(body@) == Err::<IncomingView, Seq<char>>(e@),
        },
{
    match Json::parse(body) {
        Err(e) => Err(e),
        Ok(v) => match read_incoming(&v) {
            Some(request) => Ok(request),
            None => Err(owned("not a JSON-RPC request")),
        },
    }
}

/// What is sent back: an identifier with a result, or with a refusal.
pub open spec fn response_json(id: JsonView, r: ReplyView) -> JsonView {
    match r {
        Ok(result) => object3(
            "jsonrpc"@,
            JsonView::Str(JSONRPC_VERSION@),
            "id"@,
            id,
            "result"@,
            result,
        ),
        Err(refusal) => object3(
            "jsonrpc"@,
            JsonView::Str(JSONRPC_VERSION@),
            "id"@,
            id,
            "error"@,
            object2(
                "code"@,
                JsonView::Number(signed_number(refusal.0)),
                "message"@,
                JsonView::Str(refusal.1),
            ),
        ),
    }
}

/// What is sent back.
pub fn make_response(id: Json, r: std::result::Result<Json, Refusal>) -> (out: Json)
    ensures
        out@ == response_json(id@, reply_view(r)),
{
    match r {
        Ok(result) => make_object3(
            "jsonrpc",
            Json::text(JSONRPC_VERSION),
            "id",
            id,
            "result",
            result,
        ),
        Err(refusal) => make_object3(
            "jsonrpc",
            Json::text(JSONRPC_VERSION),
            "id",
            id,
            "error",
            make_object2("code", Json::sint(refusal.0), "message", Json::text(&refusal.1)),
        ),
    }
}

/// The members of what is sent back, in the order in which they are sent.
pub open spec fn response_members(id: JsonView, r: ReplyView) -> Seq<(Seq<char>, JsonView)> {
    let a = seq![("jsonrpc"@, JsonView::Str(JSONRPC_VERSION@)), ("id"@, id)];
    match r {
        Ok(result) => a.push(("result"@, result)),
        Err(refusal) => a.push(
            (
                "error"@,
                object2(
                    "code"@,
                    JsonView::Number(signed_number(refusal.0)),
                    "message"@,
                    JsonView::Str(refusal.1),
                ),
            ),
        ),
    }
}

/// The text of what is sent back.
pub open spec fn response_text(id: JsonView, r: ReplyView) -> Seq<char> {
    record_text(response_members(id, r))
}

proof fn lemma_response_members(id: JsonView, r: ReplyView)
    ensures
        names_distinct(response_members(id, r)),
        JsonView::Object(pairs_map(response_members(id, r))) == response_json(id, r),
{
    reveal_strlit("jsonrpc");
    reveal_strlit("id");
    reveal_strlit("result");
    reveal_strlit("error");
    assert("jsonrpc"@.len() == 7 && "id"@.len() == 2 && "result"@.len() == 6 && "error"@.len()
        == 5);
    reveal_with_fuel(pairs_map, 4);
    assert(response_members(id, r).drop_last().drop_last().drop_last() =~= Seq::<
        (Seq<char>, JsonView),
    >::empty());
}

fn response_to_text(id: Json, r: std::result::Result<Json, Refusal>) -> (out: String)
    ensures
        out@ == response_text(id@, reply_view(r)),
        rereadable(response_json(id@, reply_view(r)), 127) ==> stands_for(
            out@,
            response_json(id@, reply_view(r)),
        ),
{
    let ghost given = id@;
    let ghost seen = reply_view(r);
    let mut members: Vec<(&str, Json)> = Vec::new();
    members.push(("jsonrpc", Json::text(JSONRPC_VERSION)));
    members.push(("id", id));
    match r {
        Ok(result) => members.push(("result", result)),
        Err(refusal) => members.push(
            (
                "error",
                make_object2("code", Json::sint(refusal.0), "message", Json::text(&refusal.1)),
            ),
        ),
    }
    proof {
        assert(member_views(members@) =~= response_members(given, seen));
        lemma_response_members(given, seen);
    }
    record_to_text(&members)
}

/// Whether a request may be answered with a text.
pub open spec fn may_respond(server: McpServer, request: IncomingView, text: Seq<char>) -> bool {
    let id = match request.id {
        Some(id) => id,
        None => JsonView::Null,
    };
    exists|reply: ReplyView|
        {
            &&& #[trigger] may_handle(server, request.method, request.params, reply)
            &&& text == response_text(id, reply)
            &&& rereadable(response_json(id, reply), 127) ==> stands_for(
                text,
                response_json(id, reply),
            )
        }
}

/// Whether a text may be answered in this way.
pub open spec fn may_reply(
    server: McpServer,
    body: Seq<char>,
    r: std::result::Result<Seq<char>, Seq<char>>,
) -> bool {
    match incoming(body) {
        Err(e) => r == Err::<Seq<char>, Seq<char>>("parse error: "@ + e),
        Ok(request) => r is Ok && may_respond(server, request, r->Ok_0),
    }
}

impl McpServer {
    /// A server for the tools of a registry, under the usual name and version.
    pub fn new(tools: ToolRegistry) -> (r: Self)
        ensures
            r.tools == tools,
            r.server_name@ == PACKAGE_NAME@,
            r.server_version@ == PACKAGE_VERSION@,
    {
        McpServer {
            tools,
            server_name: owned(PACKAGE_NAME),
            server_version: owned(PACKAGE_VERSION),
        }
    }

    /// Sets the name that the server gives itself.
    pub fn with_name(self, name: &str) -> (r: Self)
        ensures
            r.tools == self.tools,
            r.server_name@ == name@,
            r.server_version == self.server_version,
    {
        McpServer {
            tools: self.tools,
            server_name: owned(name),
            server_version: self.server_version,
        }
    }

    /// Sets the version that the server gives itself.
    pub fn with_version(self, version: &str) -> (r: Self)
        ensures
            r.tools == self.tools,
            r.server_name == self.server_name,
            r.server_version@ == version@,
    {
        McpServer {
            tools: self.tools,
            server_name: self.server_name,
            server_version: owned(version),
        }
    }

    fn handle_tools_call(&self, params: Option<Json>) -> (r: std::result::Result<Json, Refusal>)
        ensures
            may_call(*self, opt_json(params), reply_view(r)),
    {
        let params = match params {
            Some(p) => p,
            None => {
                return Err((INVALID_PARAMS, owned("missing params")));
            },
        };
        let name = match read_text(&params, "name") {
            Some(n) => n,
            None => {
                return Err((INVALID_PARAMS, owned("missing 'name' in params")));
            },
        };
        let arguments = match params.get("arguments") {
            Some(a) => a.duplicate(),
            None => Json::object(JsonMap::new()),
        };
        assert(arguments@ == call_arguments(params@));
        match self.tools.get(&name) {
            None => Err((INVALID_PARAMS, cat3("tool '", &name, "' not found"))),
            Some(t) => {
                let output = t.tool.execute_erased(&arguments);
                let ghost o = crate::tool::output_outcome(output);
                assert(self.tools.tools@[name@].tool.runs(call_arguments(params@), o));
                match output {
                    Ok(output) => Ok(make_call_reply(&output.content, output.is_error)),
                    Err(e) => {
                        let reply = make_call_reply(&e.message(), true);
                        assert(reply@ == call_reply(o));
                        Ok(reply)
                    },
                }
            },
        }
    }

    /// Answers a request, or refuses it. A tool that fails is no refusal: its
    /// failure is the answer.
    pub fn handle_request(&self, method: &str, params: Option<Json>) -> (r: std::result::Result<
        Json,
        Refusal,
    >)
        ensures
            may_handle(*self, method@, opt_json(params), reply_view(r)),
    {
        if same(method, "initialize") {
            Ok(make_welcome(&self.server_name, &self.server_version))
        } else if same(method, "tools/list") {
            Ok(make_tools_reply(&self.tools.tool_specs()))
        } else if same(method, "tools/call") {
            self.handle_tools_call(params)
        } else {
            Err((METHOD_NOT_FOUND, cat3("method '", method, "' not found")))
        }
    }

    fn respond(&self, request: IncomingRequest) -> (r: String)
        ensures
            may_respond(*self, request@, r@),
    {
        let ghost asks = request@;
        let IncomingRequest { id, method, params } = request;
        let id = match id {
            Some(id) => id,
            None => Json::Null,
        };
        let reply = self.handle_request(&method, params);
        let ghost seen = reply_view(reply);
        assert(may_handle(*self, asks.method, asks.params, seen));
        response_to_text(id, reply)
    }

    /// Answers a request in text. A request without an identifier is answered
    /// with `null` for one.
    pub fn handle_request_raw(&self, body: &str) -> (r: std::result::Result<String, String>)
        ensures
            may_reply(
                *self,
                body@,
                match r {
                    Ok(text) => Ok(text@),
                    Err(e) => Err(e@),
                },
            ),
    {
        match parse_incoming(body) {
            Err(e) => Err(cat2("parse error: ", &e)),
            Ok(request) => Ok(self.respond(request)),
        }
    }

    /// Answers a request on a stream that also carries notifications: what
    /// cannot be read and what asks for no answer is passed over.
    pub fn handle_stream_message(&self, body: &str) -> (r: Option<String>)
        ensures
            match incoming(body@) {
                Err(_) => r is None,
                Ok(request) => match request.id {
                    None => r is None,
                    Some(_) => r is Some && may_reply(*self, body@, Ok((r->0)@)),
                },
            },
    {
        match parse_incoming(body) {
            Err(_) => None,
            Ok(request) => {
                if request.id.is_none() {
                    return None;
                }
                Some(self.respond(request))
            },
        }
    }
}

/// An answer carries the identifier of its request, and either a result or an
/// error.
pub proof fn answers_keep_the_id(id: JsonView, r: ReplyView)
    ensures
        response_json(id, r).field("id"@) == Some(id),
        r is Ok ==> response_json(id, r).field("result"@) == Some(r->Ok_0)
            && response_json(id, r).field("error"@) is None,
        r is Err ==> response_json(id, r).field("result"@) is None && response_json(
            id,
            r,
        ).field("error"@) is Some,
{
    reveal_strlit("jsonrpc");
    reveal_strlit("id");
    reveal_strlit("result");
    reveal_strlit("error");
    assert("jsonrpc"@.len() == 7 && "id"@.len() == 2 && "result"@.len() == 6 && "error"@.len()
        == 5);
}

// ---------------------------------------------------------------------
// Lines
// ---------------------------------------------------------------------

/// What the first line of a message is.
#[derive(Debug, PartialEq)]
pub enum FirstLine {
    /// No message: the stream is done.
    End,
    /// The whole message.
    Inline(String),
    /// The header of a message of so many bytes. A line ends the header, then
    /// the message follows.
    Framed(usize),
}

/// What the first line of a message is, as contracts speak of it.
pub enum FirstLineView {
    End,
    Inline(Seq<char>),
    Framed(usize),
}

impl View for FirstLine {
    type V = FirstLineView;

    open spec fn view(&self) -> FirstLineView {
        match *self {
            FirstLine::End => FirstLineView::End,
            FirstLine::Inline(t) => FirstLineView::Inline(t@),
            FirstLine::Framed(n) => FirstLineView::Framed(n),
        }
    }
}

/// The length that a header announces: the number behind its first colon, or
/// zero if there is none.
pub open spec fn announced(header: Seq<char>) -> usize {
    let parts = pieces(header, ':');
    if parts.len() < 2 {
        0
    } else {
        match uint_value(trimmed(parts[1])) {
            Ok(n) => if n <= usize::MAX {
                n as usize
            } else {
                0
            },
            Err(_) => 0,
        }
    }
}

/// What a first line is, given its text without white space around it, and that
/// text in lower case.
pub open spec fn line_kind(bare: Seq<char>, lowered: Seq<char>) -> Outcome<FirstLineView> {
    if after_prefix(lowered, "content-length:"@) is Some {
        let n = announced(bare);
        if n > MAX_MESSAGE_SIZE {
            Err(size_error(n as nat))
        } else {
            Ok(FirstLineView::Framed(n))
        }
    } else if bare.len() == 0 {
        Ok(FirstLineView::End)
    } else {
        Ok(FirstLineView::Inline(bare))
    }
}

/// The model of a first line, or of its error.
pub open spec fn line_outcome(r: crate::error::Result<FirstLine>) -> Outcome<FirstLineView> {
    match r {
        Ok(l) => Ok(l@),
        Err(e) => Err(e@),
    }
}

/// The length that a header announces.
pub fn announced_length(header: &str) -> (r: usize)
    ensures
        r == announced(header@),
{
    let parts = split_on(header, ':');
    assert(pieces(header@, ':').len() == parts@.len());
    if parts.len() < 2 {
        return 0;
    }
    assert(pieces(header@, ':')[1] == parts@[1]@);
    match parse_u64(&trim_text(&parts[1])) {
        Ok(n) => if n <= usize::MAX as u64 {
            n as usize
        } else {
            0
        },
        Err(_) => 0,
    }
}

/// What a first line is, given its text without white space around it, and that
/// text in lower case.
pub fn classify_bare(bare: &str, lowered: &str) -> (r: crate::error::Result<FirstLine>)
    ensures
        line_outcome(r) == line_kind(bare@, lowered@),
{
    if strip_prefix(lowered, "content-length:").is_some() {
        let n: usize = announced_length(bare);
        match check_content_length(n) {
            Ok(_) => Ok(FirstLine::Framed(n)),
            Err(e) => Err(e),
        }
    } else if bare.unicode_len() == 0 {
        Ok(FirstLine::End)
    } else {
        Ok(FirstLine::Inline(owned(bare)))
    }
}

/// What the first line of a message is; nothing if the stream ended before it.
pub fn classify_line(line: Option<&str>) -> (r: crate::error::Result<FirstLine>)
    ensures
        match line {
            None => line_outcome(r) == Ok::<FirstLineView, ErrorView>(FirstLineView::End),
            Some(l) => line_outcome(r) == line_kind(trimmed(l@), lowercase(trimmed(l@))),
        },
{
    match line {
        None => Ok(FirstLine::End),
        Some(l) => {
            let bare = trim_text(l);
            let lowered = bare.as_str().to_lowercase();
            classify_bare(&bare, &lowered)
        },
    }
}

// ---------------------------------------------------------------------
// Both sides
// ---------------------------------------------------------------------

/// A server reads out of a request what its client put there, if the parameters
/// hold no doubles and are nested at most so deep.
pub proof fn server_reads_the_request(id: u64, method: Seq<char>, params: Option<JsonView>)
    requires
        params matches Some(p) ==> p != JsonView::Null && rereadable(p, 126),
    ensures
        rereadable(request_json(JSONRPC_VERSION@, id, method, params), 127),
        json_incoming(request_json(JSONRPC_VERSION@, id, method, params)) == Some(
            IncomingView {
                id: Some(JsonView::Number(NumberView::PosInt(id))),
                method,
                params,
            },
        ),
        forall|body: Seq<char>| #[trigger]
            stands_for(body, request_json(JSONRPC_VERSION@, id, method, params)) ==> incoming(body)
                == Ok::<IncomingView, Seq<char>>(
                IncomingView {
                    id: Some(JsonView::Number(NumberView::PosInt(id))),
                    method,
                    params,
                },
            ),
{
    reveal_strlit("jsonrpc");
    reveal_strlit("id");
    reveal_strlit("method");
    reveal_strlit("params");
    assert("jsonrpc"@.len() == 7 && "id"@.len() == 2);
    assert("method"@.len() == 6 && "params"@.len() == 6 && "method"@[0] == 'm' && "params"@[0]
        == 'p');
    let m = request_json(JSONRPC_VERSION@, id, method, params)->Object_0;
    assert forall|k: Seq<char>| #[trigger] m.contains_key(k) implies rereadable(m[k], 126) by {
        assert(m[k] is Str || m[k] == JsonView::Number(NumberView::PosInt(id)) || params == Some(
            m[k],
        ));
    }
}

/// A server takes a notification of its client for what it is: it asks for no
/// answer. The parameters hold no doubles and are nested at most so deep.
pub proof fn notifications_ask_for_no_answer(method: Seq<char>, params: Option<JsonView>)
    requires
        params matches Some(p) ==> p != JsonView::Null && rereadable(p, 126),
    ensures
        rereadable(notification_json(JSONRPC_VERSION@, method, params), 127),
        forall|body: Seq<char>| #[trigger]
            stands_for(body, notification_json(JSONRPC_VERSION@, method, params)) ==> incoming(body)
                == Ok::<IncomingView, Seq<char>>(IncomingView { id: None, method, params }),
{
    reveal_strlit("jsonrpc");
    reveal_strlit("id");
    reveal_strlit("method");
    reveal_strlit("params");
    assert("jsonrpc"@.len() == 7 && "id"@.len() == 2);
    assert("method"@.len() == 6 && "params"@.len() == 6 && "method"@[0] == 'm' && "params"@[0]
        == 'p');
    let m = notification_json(JSONRPC_VERSION@, method, params)->Object_0;
    assert forall|k: Seq<char>| #[trigger] m.contains_key(k) implies rereadable(m[k], 126) by {
        assert(m[k] is Str || params == Some(m[k]));
    }
}

/// What the server answers, the client reads: an answer with a result and a
/// refusal both come through with the identifier of the request.
pub proof fn client_reads_the_answer(id: u64, r: ReplyView)
    requires
        r matches Ok(v) ==> v != JsonView::Null,
    ensures
        json_rpc(response_json(JsonView::Number(NumberView::PosInt(id)), r)) == Some(
            RpcView {
                jsonrpc: JSONRPC_VERSION@,
                id: Some(id),
                result: match r {
                    Ok(v) => Some(v),
                    Err(_) => None,
                },
                error: match r {
                    Ok(_) => None,
                    Err(e) => Some(RpcErrorView { code: e.0, message: e.1, data: None }),
                },
            },
        ),
{
    answers_keep_the_id(JsonView::Number(NumberView::PosInt(id)), r);
    reveal_strlit("jsonrpc");
    reveal_strlit("id");
    reveal_strlit("result");
    reveal_strlit("error");
    reveal_strlit("code");
    reveal_strlit("message");
    reveal_strlit("data");
    assert("jsonrpc"@.len() == 7 && "id"@.len() == 2 && "result"@.len() == 6 && "error"@.len()
        == 5);
    assert("code"@.len() == 4 && "code"@[0] == 'c' && "message"@.len() == 7 && "data"@.len() == 4
        && "data"@[0] == 'd');
    if let Err(e) = r {
        let v = object2(
            "code"@,
            JsonView::Number(signed_number(e.0)),
            "message"@,
            JsonView::Str(e.1),
        );
        assert(json_rpc_error(v) == Some(RpcErrorView { code: e.0, message: e.1, data: None }));
    }
}

/// The client learns the tools that the server has, in one page.
pub proof fn client_reads_the_tools(tools: Seq<ToolSpecView>, answer: RpcView)
    requires
        answer.error is None,
        answer.result == Some(tools_reply(tools)),
    ensures
        page_of(answer) == Ok::<PageView, ErrorView>(
            PageView { tools: Seq::new(tools.len(), |i: int| offered(tools[i])), next: None },
        ),
{
    reveal_strlit("tools");
    reveal_strlit("nextCursor");
    assert("tools"@.len() == 5 && "nextCursor"@.len() == 10);
    let items = Seq::new(tools.len(), |i: int| info_json(offered(tools[i])));
    assert forall|i: int| 0 <= i < items.len() implies json_info(#[trigger] items[i]) == Some(
        offered(tools[i]),
    ) by {
        tool_round_trip(offered(tools[i]));
    }
    let read = json_infos(JsonView::Array(items));
    assert(read->0 =~= Seq::new(tools.len(), |i: int| offered(tools[i])));
}

/// What a tool hands back on the server, the client gets.
pub proof fn client_reads_the_output(o: Outcome<OutputView>, name: Seq<char>, answer: RpcView)
    requires
        answer.error is None,
        answer.result == Some(call_reply(o)),
    ensures
        o matches Ok(output) ==> bridged(answer) == o && (!output.is_error ==> called(name, answer)
            == Ok::<Seq<char>, ErrorView>(output.content)),
        o matches Err(e) ==> bridged(answer) == Ok::<OutputView, ErrorView>(
            OutputView { content: e.words(), is_error: true },
        ),
{
    reveal_strlit("content");
    reveal_strlit("isError");
    reveal_strlit("type");
    reveal_strlit("text");
    assert("content"@[0] == 'c' && "isError"@[0] == 'i');
    assert("type"@[1] == 'y' && "text"@[1] == 'e');
    let (text, is_error) = match o {
        Ok(output) => (output.content, output.is_error),
        Err(e) => (e.words(), true),
    };
    let block = object2("type"@, JsonView::Str("text"@), "text"@, JsonView::Str(text));
    let view = ContentView { content_type: "text"@, text: Some(text) };
    assert(json_content(block) == Some(view));
    let reply = call_reply(o);
    assert(reply.field("content"@) == Some(JsonView::Array(seq![block])));
    assert(flag_at(reply, "isError"@) == Some(is_error));
    assert(json_call_result(reply)->0.content =~= seq![view]);
    assert(seq![view].drop_last() =~= Seq::<ContentView>::empty());
    assert(block_texts(seq![view].drop_last()) =~= Seq::<Seq<char>>::empty());
    assert(block_texts(seq![view]) =~= seq![text]);
    assert(result_text(seq![view]) =~= text) by {
        assert(seq![text].drop_last() =~= Seq::<Seq<char>>::empty());
        assert(seq![text].drop_first() =~= Seq::<Seq<char>>::empty());
        reveal_with_fuel(joined, 2);
    }
}

/// Whether a text is the answer to a request, and what it says.
pub open spec fn answers_with(text: Seq<char>, id: u64, answer: RpcView) -> bool {
    &&& parsed_json(text) is Ok
    &&& json_rpc(parsed_json(text)->Ok_0) == Some(answer)
    &&& answer.id == Some(id)
}

proof fn lemma_answer_is_read(id: u64, v: JsonView, text: Seq<char>)
    requires
        v != JsonView::Null,
        rereadable(v, 126),
        rereadable(
            response_json(JsonView::Number(NumberView::PosInt(id)), Ok(v)),
            127,
        ) ==> stands_for(text, response_json(JsonView::Number(NumberView::PosInt(id)), Ok(v))),
    ensures
        answers_with(
            text,
            id,
            RpcView { jsonrpc: JSONRPC_VERSION@, id: Some(id), result: Some(v), error: None },
        ),
{
    let given = JsonView::Number(NumberView::PosInt(id));
    let whole = response_json(given, Ok(v));
    let m = whole->Object_0;
    assert forall|k: Seq<char>| #[trigger] m.contains_key(k) implies rereadable(m[k], 126) by {
        assert(m[k] is Str || m[k] == given || m[k] == v);
    }
    client_reads_the_answer(id, Ok(v));
}

proof fn lemma_call_reply_is_readable(o: Outcome<OutputView>)
    ensures
        rereadable(call_reply(o), 126),
{
    let text = match o {
        Ok(output) => output.content,
        Err(e) => e.words(),
    };
    let block = object2("type"@, JsonView::Str("text"@), "text"@, JsonView::Str(text));
    assert(rereadable(block, 124)) by {
        let m = block->Object_0;
        assert forall|k: Seq<char>| #[trigger] m.contains_key(k) implies rereadable(m[k], 123) by {
            assert(m[k] is Str);
        }
    }
    let blocks = JsonView::Array(seq![block]);
    assert(rereadable(blocks, 125)) by {
        assert forall|i: int| 0 <= i < seq![block].len() implies rereadable(
            #[trigger] seq![block][i],
            124,
        ) by {
            assert(seq![block][i] == block);
        }
    }
    let m = call_reply(o)->Object_0;
    assert forall|k: Seq<char>| #[trigger] m.contains_key(k) implies rereadable(m[k], 125) by {
        assert(m[k] == blocks || m[k] is Bool);
    }
}

proof fn lemma_call_is_read(id: u64, name: Seq<char>, arguments: JsonView)
    requires
        rereadable(arguments, 125),
    ensures
        ({
            let params = call_params(name, arguments);
            &&& forall|body: Seq<char>| #[trigger]
                stands_for(body, request_json(JSONRPC_VERSION@, id, "tools/call"@, Some(params)))
                    ==> incoming(body) == Ok::<IncomingView, Seq<char>>(
                    IncomingView {
                        id: Some(JsonView::Number(NumberView::PosInt(id))),
                        method: "tools/call"@,
                        params: Some(params),
                    },
                )
            &&& text_at(params, "name"@) == Some(name)
            &&& call_arguments(params) == arguments
            &&& "tools/call"@ != "tools/list"@
            &&& "tools/call"@ != "initialize"@
        }),
{
    let params = call_params(name, arguments);
    reveal_strlit("name");
    reveal_strlit("arguments");
    assert("name"@.len() == 4 && "arguments"@.len() == 9);
    assert(rereadable(params, 126)) by {
        let m = params->Object_0;
        assert forall|k: Seq<char>| #[trigger] m.contains_key(k) implies rereadable(m[k], 125) by {
            assert(m[k] is Str || m[k] == arguments);
        }
    }
    server_reads_the_request(id, "tools/call"@, Some(params));
    assert(text_at(params, "name"@) == Some(name));
    assert(call_arguments(params) == arguments);
    reveal_strlit("initialize");
    reveal_strlit("tools/list");
    reveal_strlit("tools/call");
    assert("tools/call"@[6] == 'c' && "tools/list"@[6] == 'l');
    assert("tools/call"@[0] == 't' && "initialize"@[0] == 'i');
}

/// A call that goes over text runs the tool of that name on the given arguments,
/// and what the tool hands back is what the client gets: its output, or the words
/// of its error. The arguments hold no doubles and are nested at most so deep.
pub proof fn calls_reach_the_tool(
    server: McpServer,
    id: u64,
    name: Seq<char>,
    arguments: JsonView,
    body: Seq<char>,
    text: Seq<char>,
)
    requires
        rereadable(arguments, 125),
        server.tools.tools@.contains_key(name),
        stands_for(
            body,
            request_json(JSONRPC_VERSION@, id, "tools/call"@, Some(call_params(name, arguments))),
        ),
        may_reply(server, body, Ok(text)),
    ensures
        exists|o: Outcome<OutputView>, answer: RpcView|
            {
                &&& #[trigger] server.tools.tools@[name].tool.runs(arguments, o)
                &&& #[trigger] answers_with(text, id, answer)
                &&& bridged(answer) == match o {
                    Ok(_) => o,
                    Err(e) => Ok(OutputView { content: e.words(), is_error: true }),
                }
            },
{
    let params = call_params(name, arguments);
    lemma_call_is_read(id, name, arguments);
    let given = JsonView::Number(NumberView::PosInt(id));
    let reply = choose|reply: ReplyView|
        {
            &&& #[trigger] may_handle(server, "tools/call"@, Some(params), reply)
            &&& text == response_text(given, reply)
            &&& rereadable(response_json(given, reply), 127) ==> stands_for(
                text,
                response_json(given, reply),
            )
        };
    let o = choose|o: Outcome<OutputView>|
        {
            &&& #[trigger] server.tools.tools@[name].tool.runs(arguments, o)
            &&& reply == Ok::<JsonView, (i64, Seq<char>)>(call_reply(o))
        };
    lemma_call_reply_is_readable(o);
    lemma_answer_is_read(id, call_reply(o), text);
    let answer = RpcView {
        jsonrpc: JSONRPC_VERSION@,
        id: Some(id),
        result: Some(call_reply(o)),
        error: None,
    };
    client_reads_the_output(o, name, answer);
}

/// A question for the tools that goes over text is answered with all of them, if
/// what describes them holds no doubles and is nested at most so deep.
pub proof fn listings_reach_the_client(
    server: McpServer,
    id: u64,
    params: Option<JsonView>,
    body: Seq<char>,
    text: Seq<char>,
)
    requires
        params matches Some(p) ==> p != JsonView::Null && rereadable(p, 126),
        rereadable(tools_reply(server.tools.descriptions()), 126),
        stands_for(body, request_json(JSONRPC_VERSION@, id, "tools/list"@, params)),
        may_reply(server, body, Ok(text)),
    ensures
        exists|answer: RpcView| #[trigger]
            answers_with(text, id, answer) && page_of(answer) == Ok::<PageView, ErrorView>(
                PageView {
                    tools: Seq::new(
                        server.tools.descriptions().len(),
                        |i: int| offered(server.tools.descriptions()[i]),
                    ),
                    next: None,
                },
            ),
{
    server_reads_the_request(id, "tools/list"@, params);
    reveal_strlit("initialize");
    reveal_strlit("tools/list");
    assert("tools/list"@[0] == 't' && "initialize"@[0] == 'i');
    let v = tools_reply(server.tools.descriptions());
    lemma_answer_is_read(id, v, text);
    let answer = RpcView {
        jsonrpc: JSONRPC_VERSION@,
        id: Some(id),
        result: Some(v),
        error: None,
    };
    client_reads_the_tools(server.tools.descriptions(), answer);
}

proof fn lemma_refusal_is_read(id: u64, code: i64, message: Seq<char>, text: Seq<char>)
    requires
        rereadable(
            response_json(JsonView::Number(NumberView::PosInt(id)), Err((code, message))),
            127,
        ) ==> stands_for(
            text,
            response_json(JsonView::Number(NumberView::PosInt(id)), Err((code, message))),
        ),
    ensures
        answers_with(
            text,
            id,
            RpcView {
                jsonrpc: JSONRPC_VERSION@,
                id: Some(id),
                result: None,
                error: Some(RpcErrorView { code, message, data: None }),
            },
        ),
{
    let given = JsonView::Number(NumberView::PosInt(id));
    let number = JsonView::Number(signed_number(code));
    let error = object2("code"@, number, "message"@, JsonView::Str(message));
    assert(rereadable(error, 126)) by {
        let m = error->Object_0;
        assert forall|k: Seq<char>| #[trigger] m.contains_key(k) implies rereadable(m[k], 125) by {
            assert(m[k] is Str || m[k] == number);
        }
    }
    let m = response_json(given, Err((code, message)))->Object_0;
    assert forall|k: Seq<char>| #[trigger] m.contains_key(k) implies rereadable(m[k], 126) by {
        assert(m[k] is Str || m[k] == given || m[k] == error);
    }
    client_reads_the_answer(id, Err((code, message)));
}

/// A request for a method that there is not is answered with an error that names
/// it, under the identifier of the request.
pub proof fn unknown_methods_are_refused(
    server: McpServer,
    id: u64,
    method: Seq<char>,
    params: Option<JsonView>,
    body: Seq<char>,
    text: Seq<char>,
)
    requires
        method != "initialize"@ && method != "tools/list"@ && method != "tools/call"@,
        params matches Some(p) ==> p != JsonView::Null && rereadable(p, 126),
        stands_for(body, request_json(JSONRPC_VERSION@, id, method, params)),
        may_reply(server, body, Ok(text)),
    ensures
        answers_with(
            text,
            id,
            RpcView {
                jsonrpc: JSONRPC_VERSION@,
                id: Some(id),
                result: None,
                error: Some(
                    RpcErrorView {
                        code: METHOD_NOT_FOUND,
                        message: "method '"@ + method + "' not found"@,
                        data: None,
                    },
                ),
            },
        ),
{
    server_reads_the_request(id, method, params);
    lemma_refusal_is_read(id, METHOD_NOT_FOUND, "method '"@ + method + "' not found"@, text);
}

/// A call of a tool that there is not is answered with an error that names it,
/// under the identifier of the request.
pub proof fn unknown_tools_are_refused(
    server: McpServer,
    id: u64,
    name: Seq<char>,
    arguments: JsonView,
    body: Seq<char>,
    text: Seq<char>,
)
    requires
        rereadable(arguments, 125),
        !server.tools.tools@.contains_key(name),
        stands_for(
            body,
            request_json(JSONRPC_VERSION@, id, "tools/call"@, Some(call_params(name, arguments))),
        ),
        may_reply(server, body, Ok(text)),
    ensures
        answers_with(
            text,
            id,
            RpcView {
                jsonrpc: JSONRPC_VERSION@,
                id: Some(id),
                result: None,
                error: Some(
                    RpcErrorView {
                        code: INVALID_PARAMS,
                        message: "tool '"@ + name + "' not found"@,
                        data: None,
                    },
                ),
            },
        ),
{
    lemma_call_is_read(id, name, arguments);
    lemma_refusal_is_read(id, INVALID_PARAMS, "tool '"@ + name + "' not found"@, text);
}

/// The header that goes before a message is read as its length, once its case
/// is no matter.
pub proof fn header_is_understood(length: usize, lowered: Seq<char>)
    requires
        length <= MAX_MESSAGE_SIZE,
        after_prefix(lowered, "content-length:"@) is Some,
    ensures
        line_kind("Content-Length: "@ + decimal(length as nat), lowered) == Ok::<
            FirstLineView,
            ErrorView,
        >(FirstLineView::Framed(length)),
{
    let digits = decimal(length as nat);
    let key = "Content-Length"@;
    let value = seq![' '] + digits;
    let bare = "Content-Length: "@ + digits;
    reveal_strlit("Content-Length: ");
    reveal_strlit("Content-Length");
    lemma_decimal_digits(length as nat);
    decimal_round_trip(length as u64);
    assert("Content-Length: "@ =~= key + seq![':', ' ']);
    assert(bare[14] == ':');
    assert(bare.take(14) =~= key);
    assert(bare.skip(15) =~= value);
    lemma_first_line(bare, 14, ':');
    assert forall|i: int| 0 <= i < value.len() implies value[i] != ':' by {
        if i > 0 {
            assert(value[i] == digits[i - 1]);
            assert('0' <= digits[i - 1] <= '9');
        }
    }
    assert(!value.contains(':'));
    lemma_no_end(value, ':');
    assert(split(bare, ':').0 =~= seq![key]);
    assert(split(bare, ':').1 == value);
    assert(pieces(bare, ':')[1] == value);
    assert(value =~= seq![' '] + digits + Seq::<char>::empty());
    lemma_trimmed_between(seq![' '], digits, Seq::empty());
}

/// A first line that announces too much is refused, an empty one ends the input, and any
/// other that announces nothing is a message itself.
pub proof fn first_lines_are_told_apart(bare: Seq<char>, lowered: Seq<char>)
    ensures
        "content-length:"@.is_prefix_of(lowered) && announced(bare) > MAX_MESSAGE_SIZE
            ==> line_kind(bare, lowered) is Err,
        "content-length:"@.is_prefix_of(lowered) && announced(bare) <= MAX_MESSAGE_SIZE
            ==> line_kind(bare, lowered) == Ok::<FirstLineView, ErrorView>(
            FirstLineView::Framed(announced(bare)),
        ),
        !"content-length:"@.is_prefix_of(lowered) && bare.len() == 0 ==> line_kind(bare, lowered)
            == Ok::<FirstLineView, ErrorView>(FirstLineView::End),
        !"content-length:"@.is_prefix_of(lowered) && bare.len() > 0 ==> line_kind(bare, lowered)
            == Ok::<FirstLineView, ErrorView>(FirstLineView::Inline(bare)),
{
}

} // verus!
