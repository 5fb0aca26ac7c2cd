//! The protocol over gRPC: what the service answers, and what the client makes
//! of it.

pub mod proto;

use crate::error::{DaimonError, ErrorView, Result};
use crate::json::{
    json_text, parsed_json, rereadable, Json, JsonMap, JsonView,
};
use crate::mcp::bridge::{call_params, make_call_params};
use crate::mcp::client::empty_object;
use crate::mcp::grpc_transport::proto::{
    InitializeRequest, JsonRpcResult, RawJsonRpc, ToolsCallRequest, ToolsListRequest,
};
use crate::mcp::protocol::{
    opt_json, request_json, request_text, JsonRpcRequest, JsonRpcResponse, JSONRPC_VERSION,
};
use crate::mcp::server::{
    may_reply, may_respond, server_reads_the_request, IncomingView, McpServer,
};
use crate::mcp::transport::{response_from_text, response_in, response_outcome};
use crate::members::{counts, lacks, says};
use crate::text::cat2;
use vstd::prelude::*;

verus! {

/// A server whose requests come over gRPC.
pub struct McpGrpcServer {
    pub inner: McpServer,
}

/// The request that a call of the service stands for. The identifier is no
/// matter there.
pub open spec fn service_request(method: Seq<char>, params: Option<JsonView>) -> JsonView {
    request_json(JSONRPC_VERSION@, 1, method, params)
}

/// The arguments of a call by their text. A text that is no JSON counts as an
/// empty object.
pub open spec fn arguments_in(text: Seq<char>) -> JsonView {
    match parsed_json(text) {
        Ok(v) => v,
        Err(_) => empty_object(),
    }
}

fn service_text(method: &str, params: Option<Json>) -> (r: String)
    ensures
        r@ == json_text(service_request(method@, opt_json(params))),
        rereadable(service_request(method@, opt_json(params)), 127) ==> crate::json::stands_for(
            r@,
            service_request(method@, opt_json(params)),
        ),
{
    JsonRpcRequest::new(1, method, params).to_json().to_text()
}

impl McpGrpcServer {
    /// A server that answers as another one does.
    pub fn new(server: McpServer) -> (r: Self)
        ensures
            r.inner == server,
    {
        McpGrpcServer { inner: server }
    }

    /// Answers the call for the greeting.
    pub fn initialize(&self, request: &InitializeRequest) -> (r: std::result::Result<
        JsonRpcResult,
        String,
    >)
        ensures
            r is Ok,
            may_respond(
                self.inner,
                IncomingView {
                    id: Some(JsonView::Number(crate::json::NumberView::PosInt(1))),
                    method: "initialize"@,
                    params: Some(empty_object()),
                },
                r->Ok_0.result_json@,
            ),
    {
        let params = Json::object(JsonMap::new());
        let body = service_text("initialize", Some(params));
        proof {
            server_reads_the_request(1, "initialize"@, Some(empty_object()));
        }
        match self.inner.handle_request_raw(&body) {
            Ok(text) => Ok(JsonRpcResult { result_json: text }),
            Err(e) => Err(e),
        }
    }

    /// Answers the call for the tools.
    pub fn tools_list(&self, request: &ToolsListRequest) -> (r: std::result::Result<
        JsonRpcResult,
        String,
    >)
        ensures
            r is Ok,
            may_respond(
                self.inner,
                IncomingView {
                    id: Some(JsonView::Number(crate::json::NumberView::PosInt(1))),
                    method: "tools/list"@,
                    params: None,
                },
                r->Ok_0.result_json@,
            ),
    {
        let body = service_text("tools/list", None);
        proof {
            server_reads_the_request(1, "tools/list"@, None);
        }
        match self.inner.handle_request_raw(&body) {
            Ok(text) => Ok(JsonRpcResult { result_json: text }),
            Err(e) => Err(e),
        }
    }

    /// Answers a tool call. The arguments travel as text: what they are then read
    /// as is what the server works on.
    pub fn tools_call(&self, request: &ToolsCallRequest) -> (r: std::result::Result<
        JsonRpcResult,
        String,
    >)
        ensures
            may_reply(
                self.inner,
                json_text(
                    service_request(
                        "tools/call"@,
                        Some(call_params(request.name@, arguments_in(request.arguments_json@))),
                    ),
                ),
                match r {
                    Ok(result) => Ok(result.result_json@),
                    Err(e) => Err(e@),
                },
            ),
            rereadable(arguments_in(request.arguments_json@), 125) ==> r is Ok && may_respond(
                self.inner,
                IncomingView {
                    id: Some(JsonView::Number(crate::json::NumberView::PosInt(1))),
                    method: "tools/call"@,
                    params: Some(
                        call_params(request.name@, arguments_in(request.arguments_json@)),
                    ),
                },
                r->Ok_0.result_json@,
            ),
    {
        let arguments = match Json::parse(&request.arguments_json) {
            Ok(v) => v,
            Err(_) => Json::object(JsonMap::new()),
        };
        let ghost given = arguments_in(request.arguments_json@);
        assert(arguments@ == given);
        let params = make_call_params(&request.name, &arguments);
        let ghost asked = params@;
        let body = service_text("tools/call", Some(params));
        proof {
            if rereadable(given, 125) {
                lemma_call_params(request.name@, given);
                server_reads_the_request(1, "tools/call"@, Some(asked));
            }
        }
        match self.inner.handle_request_raw(&body) {
            Ok(text) => Ok(JsonRpcResult { result_json: text }),
            Err(e) => Err(e),
        }
    }

    /// Answers a message of the protocol.
    pub fn handle_raw(&self, request: &RawJsonRpc) -> (r: std::result::Result<RawJsonRpc, String>)
        ensures
            may_reply(
                self.inner,
                request.body@,
                match r {
                    Ok(reply) => Ok(reply.body@),
                    Err(e) => Err(e@),
                },
            ),
    {
        match self.inner.handle_request_raw(&request.body) {
            Ok(body) => Ok(RawJsonRpc { body }),
            Err(e) => Err(e),
        }
    }
}

proof fn lemma_call_params(name: Seq<char>, arguments: JsonView)
    requires
        rereadable(arguments, 125),
    ensures
        rereadable(call_params(name, arguments), 126),
{
    let m = call_params(name, arguments)->Object_0;
    assert forall|k: Seq<char>| #[trigger] m.contains_key(k) implies rereadable(m[k], 125) by {
        assert(m[k] == arguments || m[k] == JsonView::Str(name));
    }
}

// ---------------------------------------------------------------------
// The client
// ---------------------------------------------------------------------

/// The message that carries a request.
pub fn raw_request(request: &JsonRpcRequest) -> (r: RawJsonRpc)
    ensures
        r.body@ == request_text(
            request.jsonrpc@,
            request.id,
            request.method@,
            opt_json(request.params),
        ),
{
    RawJsonRpc { body: request.to_text() }
}

/// What a call of the service came to: a message of the protocol, or the words
/// of the service's refusal.
pub fn response_from_service(reply: std::result::Result<RawJsonRpc, String>) -> (r: Result<
    JsonRpcResponse,
>)
    ensures
        match reply {
            Ok(raw) => response_outcome(r) == response_in(raw.body@),
            Err(e) => r is Err && r->Err_0@ == ErrorView::Mcp("grpc send: "@ + e@),
        },
{
    match reply {
        Ok(raw) => response_from_text(&raw.body),
        Err(e) => Err(DaimonError::Mcp(cat2("grpc send: ", &e))),
    }
}

/// A call of the service becomes a request of the protocol with its method and its
/// parameters, and the arguments of a tool call are those that their text stands for.
pub proof fn service_calls_are_requests(
    method: Seq<char>,
    params: Option<JsonView>,
    text: Seq<char>,
)
    ensures
        says(service_request(method, params), "jsonrpc"@, "2.0"@),
        says(service_request(method, params), "method"@, method),
        counts(service_request(method, params), "id"@, 1),
        service_request(method, params).field("params"@) == params,
        parsed_json(text) matches Ok(v) ==> arguments_in(text) == v,
        parsed_json(text) is Err ==> arguments_in(text) is Object && forall|key: Seq<char>|
            #[trigger] lacks(arguments_in(text), key),
{
    reveal_strlit("jsonrpc");
    reveal_strlit("id");
    reveal_strlit("method");
    reveal_strlit("params");
    assert("jsonrpc"@.len() == 7 && "id"@.len() == 2);
    assert("method"@.len() == 6 && "method"@[0] == 'm');
    assert("params"@.len() == 6 && "params"@[0] == 'p');
}

} // verus!
