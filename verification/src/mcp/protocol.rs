//! The messages of the protocol.

use crate::decode::{
    flag_at, opt_text_at, place2, place3, place4, placed, read_flag, read_opt_text, read_text,
    text_at,
};
use crate::json::{
    json_views, member_views, names_distinct, number_i64, pairs_map, record_text, record_to_text,
    rereadable, stands_for, Json, JsonMap, JsonView, NumberView,
};
use crate::text::{join, joined, opt_text, owned, parse_u64, same, texts, uint_value};
use vstd::prelude::*;

verus! {

/// The version of JSON-RPC.
pub const JSONRPC_VERSION: &'static str = "2.0";

/// A request.
#[derive(Debug, PartialEq)]
pub struct JsonRpcRequest {
    pub jsonrpc: String,
    pub id: u64,
    pub method: String,
    pub params: Option<Json>,
}

/// The model of an optional value.
pub open spec fn opt_json(j: Option<Json>) -> Option<JsonView> {
    match j {
        Some(v) => Some(v@),
        None => None,
    }
}

/// A request as JSON. Parameters that are missing have no member.
pub open spec fn request_json(
    jsonrpc: Seq<char>,
    id: u64,
    method: Seq<char>,
    params: Option<JsonView>,
) -> JsonView {
    let a = Map::<Seq<char>, JsonView>::empty().insert("jsonrpc"@, JsonView::Str(jsonrpc)).insert("id"@, JsonView::Number(NumberView::PosInt(id))).insert(
        "method"@,
        JsonView::Str(method),
    );
    JsonView::Object(
        match params {
            Some(p) => a.insert("params"@, p),
            None => a,
        },
    )
}

/// The members of a request, in the order in which they are sent.
pub open spec fn request_members(
    jsonrpc: Seq<char>,
    id: u64,
    method: Seq<char>,
    params: Option<JsonView>,
) -> Seq<(Seq<char>, JsonView)> {
    let a = seq![
        ("jsonrpc"@, JsonView::Str(jsonrpc)),
        ("id"@, JsonView::Number(NumberView::PosInt(id))),
        ("method"@, JsonView::Str(method)),
    ];
    match params {
        Some(p) => a.push(("params"@, p)),
        None => a,
    }
}

/// The text of a request.
pub open spec fn request_text(
    jsonrpc: Seq<char>,
    id: u64,
    method: Seq<char>,
    params: Option<JsonView>,
) -> Seq<char> {
    record_text(request_members(jsonrpc, id, method, params))
}

proof fn lemma_member_names()
    ensures
        "jsonrpc"@.len() == 7,
        "id"@.len() == 2,
        "method"@.len() == 6,
        "params"@.len() == 6,
        "method"@ != "params"@,
{
    reveal_strlit("jsonrpc");
    reveal_strlit("id");
    reveal_strlit("method");
    reveal_strlit("params");
    assert("method"@[0] != "params"@[0]);
}

proof fn lemma_request_members(
    jsonrpc: Seq<char>,
    id: u64,
    method: Seq<char>,
    params: Option<JsonView>,
)
    ensures
        names_distinct(request_members(jsonrpc, id, method, params)),
        JsonView::Object(pairs_map(request_members(jsonrpc, id, method, params))) == request_json(
            jsonrpc,
            id,
            method,
            params,
        ),
{
    lemma_member_names();
    reveal_with_fuel(pairs_map, 5);
    let a = request_members(jsonrpc, id, method, None);
    assert(a.drop_last().drop_last().drop_last() =~= Seq::<(Seq<char>, JsonView)>::empty());
    if let Some(p) = params {
        assert(a.push(("params"@, p)).drop_last() =~= a);
    }
}

impl JsonRpcRequest {
    /// A request with an identifier.
    pub fn new(id: u64, method: &str, params: Option<Json>) -> (r: Self)
        ensures
            r.jsonrpc@ == JSONRPC_VERSION@,
            r.id == id,
            r.method@ == method@,
            r.params == params,
    {
        JsonRpcRequest { jsonrpc: owned(JSONRPC_VERSION), id, method: owned(method), params }
    }

    /// The request as JSON.
    pub fn to_json(&self) -> (r: Json)
        ensures
            r@ == request_json(self.jsonrpc@, self.id, self.method@, opt_json(self.params)),
    {
        let a = JsonMap::new().with("jsonrpc", Json::text(&self.jsonrpc)).with(
            "id",
            Json::uint(self.id),
        ).with("method", Json::text(&self.method));
        Json::object(
            match &self.params {
                Some(p) => a.with("params", p.duplicate()),
                None => a,
            },
        )
    }

    /// The text that is sent.
    pub fn to_text(&self) -> (r: String)
        ensures
            r@ == request_text(self.jsonrpc@, self.id, self.method@, opt_json(self.params)),
            rereadable(
                request_json(self.jsonrpc@, self.id, self.method@, opt_json(self.params)),
                127,
            ) ==> stands_for(
                r@,
                request_json(self.jsonrpc@, self.id, self.method@, opt_json(self.params)),
            ),
    {
        let mut members: Vec<(&str, Json)> = Vec::new();
        members.push(("jsonrpc", Json::text(&self.jsonrpc)));
        members.push(("id", Json::uint(self.id)));
        members.push(("method", Json::text(&self.method)));
        if let Some(p) = &self.params {
            members.push(("params", p.duplicate()));
        }
        proof {
            assert(member_views(members@) =~= request_members(
                self.jsonrpc@,
                self.id,
                self.method@,
                opt_json(self.params),
            ));
            lemma_request_members(self.jsonrpc@, self.id, self.method@, opt_json(self.params));
        }
        record_to_text(&members)
    }
}

/// A message that asks for no answer.
#[derive(Debug, PartialEq)]
pub struct JsonRpcNotification {
    pub jsonrpc: String,
    pub method: String,
    pub params: Option<Json>,
}

/// A notification as JSON.
pub open spec fn notification_json(
    jsonrpc: Seq<char>,
    method: Seq<char>,
    params: Option<JsonView>,
) -> JsonView {
    let a = Map::<Seq<char>, JsonView>::empty().insert("jsonrpc"@, JsonView::Str(jsonrpc)).insert("method"@, JsonView::Str(method));
    JsonView::Object(
        match params {
            Some(p) => a.insert("params"@, p),
            None => a,
        },
    )
}

/// The members of a notification, in the order in which they are sent.
pub open spec fn notification_members(
    jsonrpc: Seq<char>,
    method: Seq<char>,
    params: Option<JsonView>,
) -> Seq<(Seq<char>, JsonView)> {
    let a = seq![("jsonrpc"@, JsonView::Str(jsonrpc)), ("method"@, JsonView::Str(method))];
    match params {
        Some(p) => a.push(("params"@, p)),
        None => a,
    }
}

/// The text of a notification.
pub open spec fn notification_text(
    jsonrpc: Seq<char>,
    method: Seq<char>,
    params: Option<JsonView>,
) -> Seq<char> {
    record_text(notification_members(jsonrpc, method, params))
}

proof fn lemma_notification_members(
    jsonrpc: Seq<char>,
    method: Seq<char>,
    params: Option<JsonView>,
)
    ensures
        names_distinct(notification_members(jsonrpc, method, params)),
        JsonView::Object(pairs_map(notification_members(jsonrpc, method, params)))
            == notification_json(jsonrpc, method, params),
{
    lemma_member_names();
    reveal_with_fuel(pairs_map, 4);
    let a = notification_members(jsonrpc, method, None);
    assert(a.drop_last().drop_last() =~= Seq::<(Seq<char>, JsonView)>::empty());
    if let Some(p) = params {
        assert(a.push(("params"@, p)).drop_last() =~= a);
    }
}

impl JsonRpcNotification {
    /// A notification without parameters.
    pub fn new(method: &str) -> (r: Self)
        ensures
            r.jsonrpc@ == JSONRPC_VERSION@,
            r.method@ == method@,
            r.params is None,
    {
        JsonRpcNotification {
            jsonrpc: owned(JSONRPC_VERSION),
            method: owned(method),
            params: None,
        }
    }

    /// The text that is sent.
    pub fn to_text(&self) -> (r: String)
        ensures
            r@ == notification_text(self.jsonrpc@, self.method@, opt_json(self.params)),
            rereadable(
                notification_json(self.jsonrpc@, self.method@, opt_json(self.params)),
                127,
            ) ==> stands_for(
                r@,
                notification_json(self.jsonrpc@, self.method@, opt_json(self.params)),
            ),
    {
        let mut members: Vec<(&str, Json)> = Vec::new();
        members.push(("jsonrpc", Json::text(&self.jsonrpc)));
        members.push(("method", Json::text(&self.method)));
        if let Some(p) = &self.params {
            members.push(("params", p.duplicate()));
        }
        proof {
            assert(member_views(members@) =~= notification_members(
                self.jsonrpc@,
                self.method@,
                opt_json(self.params),
            ));
            lemma_notification_members(self.jsonrpc@, self.method@, opt_json(self.params));
        }
        record_to_text(&members)
    }
}

// ---------------------------------------------------------------------
// Responses
// ---------------------------------------------------------------------

/// An error that the other side reports.
#[derive(Debug, PartialEq)]
pub struct JsonRpcError {
    pub code: i64,
    pub message: String,
    pub data: Option<Json>,
}

/// A message of the other side.
#[derive(Debug, PartialEq)]
pub struct JsonRpcResponse {
    pub jsonrpc: String,
    /// The identifier of the request that this answers, if it answers one.
    pub id: Option<u64>,
    pub result: Option<Json>,
    pub error: Option<JsonRpcError>,
}

/// An error, as contracts speak of it.
pub struct RpcErrorView {
    pub code: i64,
    pub message: Seq<char>,
    pub data: Option<JsonView>,
}

/// A message, as contracts speak of it.
pub struct RpcView {
    pub jsonrpc: Seq<char>,
    pub id: Option<u64>,
    pub result: Option<JsonView>,
    pub error: Option<RpcErrorView>,
}

impl View for JsonRpcError {
    type V = RpcErrorView;

    open spec fn view(&self) -> RpcErrorView {
        RpcErrorView { code: self.code, message: self.message@, data: opt_json(self.data) }
    }
}

impl View for JsonRpcResponse {
    type V = RpcView;

    open spec fn view(&self) -> RpcView {
        RpcView {
            jsonrpc: self.jsonrpc@,
            id: self.id,
            result: opt_json(self.result),
            error: match self.error {
                Some(e) => Some(e@),
                None => None,
            },
        }
    }
}

/// The identifier of a message: a number, or one in digits. Anything else is
/// none that was ever given out.
pub open spec fn response_id(v: Option<JsonView>) -> Option<u64> {
    match v {
        Some(JsonView::Number(n)) => match n {
            NumberView::PosInt(k) => Some(k),
            _ => None,
        },
        Some(JsonView::Str(s)) => match uint_value(s) {
            Ok(k) => Some(k),
            Err(_) => None,
        },
        _ => None,
    }
}

/// A member that may be missing or `null`.
pub open spec fn opt_value_at(v: JsonView, key: Seq<char>) -> Option<JsonView> {
    match v.field(key) {
        Some(JsonView::Null) => None,
        other => other,
    }
}

/// The error that a JSON object stands for.
pub open spec fn json_rpc_error(v: JsonView) -> Option<RpcErrorView> {
    let v = placed(v, seq!["code"@, "message"@, "data"@], 3);
    match (v.field("code"@), text_at(v, "message"@)) {
        (Some(JsonView::Number(n)), Some(message)) => match number_i64(n) {
            Some(code) => Some(RpcErrorView { code, message, data: opt_value_at(v, "data"@) }),
            None => None,
        },
        _ => None,
    }
}

/// An error that may be missing or `null`.
pub open spec fn opt_error_at(v: JsonView) -> Option<Option<RpcErrorView>> {
    match opt_value_at(v, "error"@) {
        None => Some(None),
        Some(e) => match json_rpc_error(e) {
            Some(e) => Some(Some(e)),
            None => None,
        },
    }
}

/// The message that a JSON object stands for.
pub open spec fn json_rpc(v: JsonView) -> Option<RpcView> {
    let v = placed(v, seq!["jsonrpc"@, "id"@, "result"@, "error"@], 4);
    match (text_at(v, "jsonrpc"@), opt_error_at(v)) {
        (Some(jsonrpc), Some(error)) => Some(
            RpcView {
                jsonrpc,
                id: response_id(v.field("id"@)),
                result: opt_value_at(v, "result"@),
                error,
            },
        ),
        _ => None,
    }
}

fn read_response_id(v: Option<&Json>) -> (r: Option<u64>)
    ensures
        r == response_id(
            match v {
                Some(j) => Some(j@),
                None => None,
            },
        ),
{
    match v {
        Some(Json::Number(n)) => n.as_u64(),
        Some(Json::Str(s)) => match parse_u64(s) {
            Ok(k) => Some(k),
            Err(_) => None,
        },
        _ => None,
    }
}

pub(crate) fn read_opt_value(v: &Json, key: &str) -> (r: Option<Json>)
    ensures
        opt_json(r) == opt_value_at(v@, key@),
{
    match v.get(key) {
        Some(Json::Null) => None,
        Some(j) => Some(j.duplicate()),
        None => None,
    }
}

fn read_rpc_error(v: &Json) -> (r: Option<JsonRpcError>)
    ensures
        match r {
            Some(e) => json_rpc_error(v@) == Some(e@),
            None => json_rpc_error(v@) is None,
        },
{
    let held = place3(v, "code", "message", "data", 3);
    let v = match &held {
        Some(p) => p,
        None => v,
    };
    match (v.get("code"), read_text(v, "message")) {
        (Some(Json::Number(n)), Some(message)) => match n.as_i64() {
            Some(code) => Some(JsonRpcError { code, message, data: read_opt_value(v, "data") }),
            None => None,
        },
        _ => None,
    }
}

fn read_opt_error(v: &Json) -> (r: Option<Option<JsonRpcError>>)
    ensures
        match r {
            Some(Some(e)) => opt_error_at(v@) == Some(Some(e@)),
            Some(None) => opt_error_at(v@) == Some(None::<RpcErrorView>),
            None => opt_error_at(v@) is None,
        },
{
    match v.get("error") {
        None => Some(None),
        Some(Json::Null) => Some(None),
        Some(e) => match read_rpc_error(e) {
            Some(e) => Some(Some(e)),
            None => None,
        },
    }
}

/// The message that a JSON object stands for.
pub fn read_response(v: &Json) -> (r: Option<JsonRpcResponse>)
    ensures
        match r {
            Some(m) => json_rpc(v@) == Some(m@),
            None => json_rpc(v@) is None,
        },
{
    let held = place4(v, "jsonrpc", "id", "result", "error", 4);
    let v = match &held {
        Some(p) => p,
        None => v,
    };
    match (read_text(v, "jsonrpc"), read_opt_error(v)) {
        (Some(jsonrpc), Some(error)) => Some(
            JsonRpcResponse {
                jsonrpc,
                id: read_response_id(v.get("id")),
                result: read_opt_value(v, "result"),
                error,
            },
        ),
        _ => None,
    }
}

// ---------------------------------------------------------------------
// Tools
// ---------------------------------------------------------------------

/// A tool that the other side offers.
#[derive(Debug, PartialEq)]
pub struct McpToolInfo {
    pub name: String,
    pub description: Option<String>,
    pub input_schema: Json,
}

/// A tool, as contracts speak of it.
pub struct ToolInfoView {
    pub name: Seq<char>,
    pub description: Option<Seq<char>>,
    pub input_schema: JsonView,
}

impl View for McpToolInfo {
    type V = ToolInfoView;

    open spec fn view(&self) -> ToolInfoView {
        ToolInfoView {
            name: self.name@,
            description: opt_text(self.description),
            input_schema: self.input_schema@,
        }
    }
}

/// The models of a list of tools.
pub open spec fn info_views(s: Seq<McpToolInfo>) -> Seq<ToolInfoView> {
    Seq::new(s.len(), |i: int| s[i]@)
}

impl Clone for McpToolInfo {
    fn clone(&self) -> (r: Self)
        ensures
            r@ == self@,
    {
        McpToolInfo {
            name: self.name.clone(),
            description: match &self.description {
                Some(d) => Some(d.clone()),
                None => None,
            },
            input_schema: self.input_schema.duplicate(),
        }
    }
}

/// A tool as JSON.
pub open spec fn info_json(t: ToolInfoView) -> JsonView {
    JsonView::Object(
        Map::<Seq<char>, JsonView>::empty().insert("name"@, JsonView::Str(t.name)).insert(
            "description"@,
            match t.description {
                Some(d) => JsonView::Str(d),
                None => JsonView::Null,
            },
        ).insert("inputSchema"@, t.input_schema),
    )
}

/// The tool that a JSON object stands for.
pub open spec fn json_info(v: JsonView) -> Option<ToolInfoView> {
    let v = placed(v, seq!["name"@, "description"@, "inputSchema"@], 1);
    match (text_at(v, "name"@), opt_text_at(v, "description"@)) {
        (Some(name), Some(description)) => Some(
            ToolInfoView {
                name,
                description,
                input_schema: match v.field("inputSchema"@) {
                    Some(s) => s,
                    None => JsonView::Null,
                },
            },
        ),
        _ => None,
    }
}

/// The tools that a JSON array stands for.
pub open spec fn json_infos(v: JsonView) -> Option<Seq<ToolInfoView>> {
    match v {
        JsonView::Array(items) => if forall|i: int|
            0 <= i < items.len() ==> json_info(#[trigger] items[i]) is Some {
            Some(Seq::new(items.len(), |i: int| json_info(items[i])->0))
        } else {
            None
        },
        _ => None,
    }
}

impl McpToolInfo {
    /// The tool as JSON.
    pub fn to_json(&self) -> (r: Json)
        ensures
            r@ == info_json(self@),
    {
        let description = match &self.description {
            Some(d) => Json::text(d),
            None => Json::Null,
        };
        Json::object(
            JsonMap::new().with("name", Json::text(&self.name)).with(
                "description",
                description,
            ).with("inputSchema", self.input_schema.duplicate()),
        )
    }
}

/// The tool that a JSON object stands for.
pub fn read_info(v: &Json) -> (r: Option<McpToolInfo>)
    ensures
        match r {
            Some(t) => json_info(v@) == Some(t@),
            None => json_info(v@) is None,
        },
{
    let held = place3(v, "name", "description", "inputSchema", 1);
    let v = match &held {
        Some(p) => p,
        None => v,
    };
    match (read_text(v, "name"), read_opt_text(v, "description")) {
        (Some(name), Some(description)) => Some(
            McpToolInfo {
                name,
                description,
                input_schema: match v.get("inputSchema") {
                    Some(s) => s.duplicate(),
                    None => Json::Null,
                },
            },
        ),
        _ => None,
    }
}

/// The tools that a JSON array stands for.
pub fn read_infos(v: &Json) -> (r: Option<Vec<McpToolInfo>>)
    ensures
        match r {
            Some(tools) => json_infos(v@) == Some(info_views(tools@)),
            None => json_infos(v@) is None,
        },
{
    match v {
        Json::Array(items) => {
            let ghost all = json_views(items@);
            assert(v@->Array_0 =~= all);
            let mut tools: Vec<McpToolInfo> = Vec::new();
            let mut i: usize = 0;
            while i < items.len()
                invariant
                    i <= items@.len(),
                    all == json_views(items@),
                    v@ == JsonView::Array(all),
                    tools@.len() == i,
                    forall|j: int| 0 <= j < i ==> json_info(all[j]) == Some((#[trigger] tools@[j])@),
                decreases items@.len() - i,
            {
                match read_info(&items[i]) {
                    Some(t) => {
                        tools.push(t);
                    },
                    None => {
                        assert(json_info(all[i as int]) is None);
                        return None;
                    },
                }
                i += 1;
            }
            proof {
                assert forall|j: int| 0 <= j < all.len() implies json_info(
                    #[trigger] all[j],
                ) is Some by {
                    assert(json_info(all[j]) == Some(tools@[j]@));
                }
                assert(json_infos(v@)->0 =~= info_views(tools@));
            }
            Some(tools)
        },
        _ => None,
    }
}

/// A tool that was written as JSON is read back as it was.
pub proof fn tool_round_trip(t: ToolInfoView)
    ensures
        json_info(info_json(t)) == Some(t),
{
    reveal_strlit("name");
    reveal_strlit("description");
    reveal_strlit("inputSchema");
    assert("name"@.len() == 4);
    assert("description"@.len() == 11 && "description"@[0] == 'd');
    assert("inputSchema"@.len() == 11 && "inputSchema"@[0] == 'i');
}

/// A block of a tool's result.
#[derive(Debug, PartialEq)]
pub struct McpContentBlock {
    pub content_type: String,
    pub text: Option<String>,
}

/// A block, as contracts speak of it.
pub struct ContentView {
    pub content_type: Seq<char>,
    pub text: Option<Seq<char>>,
}

impl View for McpContentBlock {
    type V = ContentView;

    open spec fn view(&self) -> ContentView {
        ContentView { content_type: self.content_type@, text: opt_text(self.text) }
    }
}

/// The models of a list of blocks.
pub open spec fn content_views(s: Seq<McpContentBlock>) -> Seq<ContentView> {
    Seq::new(s.len(), |i: int| s[i]@)
}

/// The result of a tool call.
#[derive(Debug, PartialEq)]
pub struct McpToolCallResult {
    pub content: Vec<McpContentBlock>,
    pub is_error: bool,
}

/// A result, as contracts speak of it.
pub struct CallResultView {
    pub content: Seq<ContentView>,
    pub is_error: bool,
}

impl View for McpToolCallResult {
    type V = CallResultView;

    open spec fn view(&self) -> CallResultView {
        CallResultView { content: content_views(self.content@), is_error: self.is_error }
    }
}

/// The block that a JSON object stands for.
pub open spec fn json_content(v: JsonView) -> Option<ContentView> {
    let v = placed(v, seq!["type"@, "text"@], 1);
    match (text_at(v, "type"@), opt_text_at(v, "text"@)) {
        (Some(content_type), Some(text)) => Some(ContentView { content_type, text }),
        _ => None,
    }
}

/// The result that a JSON object stands for.
pub open spec fn json_call_result(v: JsonView) -> Option<CallResultView> {
    let v = placed(v, seq!["content"@, "isError"@], 1);
    match (v.field("content"@), flag_at(v, "isError"@)) {
        (Some(JsonView::Array(items)), Some(is_error)) => if forall|i: int|
            0 <= i < items.len() ==> json_content(#[trigger] items[i]) is Some {
            Some(
                CallResultView {
                    content: Seq::new(items.len(), |i: int| json_content(items[i])->0),
                    is_error,
                },
            )
        } else {
            None
        },
        _ => None,
    }
}

fn read_content(v: &Json) -> (r: Option<McpContentBlock>)
    ensures
        match r {
            Some(b) => json_content(v@) == Some(b@),
            None => json_content(v@) is None,
        },
{
    let held = place2(v, "type", "text", 1);
    let v = match &held {
        Some(p) => p,
        None => v,
    };
    match (read_text(v, "type"), read_opt_text(v, "text")) {
        (Some(content_type), Some(text)) => Some(McpContentBlock { content_type, text }),
        _ => None,
    }
}

/// The result that a JSON object stands for.
pub fn read_call_result(v: &Json) -> (r: Option<McpToolCallResult>)
    ensures
        match r {
            Some(result) => json_call_result(v@) == Some(result@),
            None => json_call_result(v@) is None,
        },
{
    let held = place2(v, "content", "isError", 1);
    let o = match &held {
        Some(p) => p,
        None => v,
    };
    match (o.get("content"), read_flag(o, "isError")) {
        (Some(Json::Array(items)), Some(is_error)) => {
            let ghost all = json_views(items@);
            assert(o@.field("content"@)->0->Array_0 =~= all);
            let mut content: Vec<McpContentBlock> = Vec::new();
            let mut i: usize = 0;
            while i < items.len()
                invariant
                    i <= items@.len(),
                    all == json_views(items@),
                    o@ == placed(v@, seq!["content"@, "isError"@], 1),
                    o@.field("content"@) == Some(JsonView::Array(all)),
                    content@.len() == i,
                    forall|j: int|
                        0 <= j < i ==> json_content(all[j]) == Some((#[trigger] content@[j])@),
                decreases items@.len() - i,
            {
                match read_content(&items[i]) {
                    Some(b) => {
                        content.push(b);
                    },
                    None => {
                        assert(json_content(all[i as int]) is None);
                        return None;
                    },
                }
                i += 1;
            }
            proof {
                assert forall|j: int| 0 <= j < all.len() implies json_content(
                    #[trigger] all[j],
                ) is Some by {
                    assert(json_content(all[j]) == Some(content@[j]@));
                }
                assert(json_call_result(v@)->0.content =~= content_views(content@));
            }
            Some(McpToolCallResult { content, is_error })
        },
        _ => None,
    }
}

/// The texts of the blocks that are text.
pub open spec fn block_texts(s: Seq<ContentView>) -> Seq<Seq<char>>
    decreases s.len(),
{
    if s.len() == 0 {
        Seq::empty()
    } else {
        let before = block_texts(s.drop_last());
        match s.last().text {
            Some(t) => if s.last().content_type == "text"@ {
                before.push(t)
            } else {
                before
            },
            None => before,
        }
    }
}

/// The text of a result: that of its text blocks, one to a line.
pub open spec fn result_text(s: Seq<ContentView>) -> Seq<char> {
    joined(block_texts(s), "\n"@)
}

/// The text of a result: that of its text blocks, one to a line.
pub fn extract_text(blocks: &Vec<McpContentBlock>) -> (r: String)
    ensures
        r@ == result_text(content_views(blocks@)),
{
    let ghost all = content_views(blocks@);
    let mut parts: Vec<String> = Vec::new();
    let mut i: usize = 0;
    assert(all.take(0) =~= Seq::<ContentView>::empty());
    assert(texts(parts@) =~= block_texts(all.take(0)));
    while i < blocks.len()
        invariant
            i <= blocks@.len(),
            all == content_views(blocks@),
            texts(parts@) == block_texts(all.take(i as int)),
        decreases blocks@.len() - i,
    {
        let block = &blocks[i];
        assert(all.take(i + 1).drop_last() =~= all.take(i as int));
        assert(all.take(i + 1).last() == block@);
        if let Some(t) = &block.text {
            if same(&block.content_type, "text") {
                let ghost before = texts(parts@);
                parts.push(t.clone());
                assert(texts(parts@) =~= before.push(t@));
            }
        }
        i += 1;
    }
    assert(all.take(i as int) =~= all);
    join(&parts, "\n")
}

} // verus!
