use daimon::error::{DaimonError, Result};
use daimon::json::Json;
use daimon::mcp::bridge::McpToolBridge;
use daimon::mcp::client::McpClient;
use daimon::mcp::grpc_transport::proto;
use daimon::mcp::grpc_transport::{raw_request, response_from_service, McpGrpcServer};
use daimon::mcp::protocol::{
    read_response, JsonRpcNotification, JsonRpcRequest, JsonRpcResponse, McpToolInfo,
};
use daimon::mcp::server::{classify_bare, classify_line, FirstLine, McpServer};
use daimon::mcp::transport::{make_frame_header, McpTransport, MAX_MESSAGE_SIZE};
use daimon::mcp::ws_server::{McpWsServer, ServerAction, ServerFrame};
use daimon::tool::{Tool, ToolOutput, ToolRegistry};
use std::cell::RefCell;
use std::collections::VecDeque;
use std::rc::Rc;
use std::sync::Arc;

fn json(text: &str) -> Json {
    Json::parse(text).unwrap()
}

fn at<'a>(v: &'a Json, path: &[&str]) -> &'a Json {
    let mut v = v;
    for p in path {
        v = match p.parse::<usize>() {
            Ok(i) => &v.as_array().unwrap()[i],
            Err(_) => v.get(p).unwrap(),
        };
    }
    v
}

// ---- a tool, a server --------------------------------------------------

struct GreetTool;

impl Tool for GreetTool {
    fn name(&self) -> &str {
        "greet"
    }
    fn description(&self) -> &str {
        "Greets a person"
    }
    fn parameters_schema(&self) -> Json {
        json(r#"{"type":"object","properties":{"name":{"type":"string"}},"required":["name"]}"#)
    }
    fn execute(&self, input: &Json) -> Result<ToolOutput> {
        let name = input.get("name").and_then(|v| v.as_str()).unwrap_or("World");
        Ok(ToolOutput::text(&format!("Hello, {name}!")))
    }
}

struct BrokenTool;

impl Tool for BrokenTool {
    fn name(&self) -> &str {
        "broken"
    }
    fn description(&self) -> &str {
        ""
    }
    fn parameters_schema(&self) -> Json {
        Json::Null
    }
    fn execute(&self, _input: &Json) -> Result<ToolOutput> {
        Err(DaimonError::Other("out of order".to_string()))
    }
}

fn make_server() -> McpServer {
    let mut registry = ToolRegistry::new();
    registry.register(GreetTool).unwrap();
    McpServer::new(registry)
}

fn reply(server: &McpServer, body: &str) -> Json {
    json(&server.handle_request_raw(body).unwrap())
}

#[test]
fn test_initialize() {
    let parsed = reply(
        &make_server(),
        r#"{"jsonrpc":"2.0","id":1,"method":"initialize","params":{}}"#,
    );
    assert!(matches!(at(&parsed, &["result", "capabilities", "tools"]), Json::Object(_)));
    assert_eq!(at(&parsed, &["result", "serverInfo", "name"]).as_str(), Some("daimon"));
    assert_eq!(
        at(&parsed, &["result", "protocolVersion"]).as_str(),
        Some("2024-11-05")
    );
}

#[test]
fn a_server_gives_the_name_that_it_was_given() {
    let server = make_server().with_name("mine").with_version("9.1");
    let parsed = reply(&server, r#"{"jsonrpc":"2.0","id":1,"method":"initialize"}"#);
    assert!(at(&parsed, &["result", "serverInfo"]).equals(&json(r#"{"name":"mine","version":"9.1"}"#)));
}

#[test]
fn test_tools_list() {
    let parsed = reply(&make_server(), r#"{"jsonrpc":"2.0","id":2,"method":"tools/list"}"#);
    let tools = at(&parsed, &["result", "tools"]).as_array().unwrap();
    assert_eq!(tools.len(), 1);
    assert_eq!(at(&tools[0], &["name"]).as_str(), Some("greet"));
    assert_eq!(at(&tools[0], &["description"]).as_str(), Some("Greets a person"));
}

#[test]
fn test_tools_call() {
    let parsed = reply(
        &make_server(),
        r#"{"jsonrpc":"2.0","id":3,"method":"tools/call","params":{"name":"greet","arguments":{"name":"Daimon"}}}"#,
    );
    assert_eq!(
        at(&parsed, &["result", "content", "0", "text"]).as_str(),
        Some("Hello, Daimon!")
    );
    assert_eq!(at(&parsed, &["result", "isError"]).as_bool(), Some(false));
}

#[test]
fn test_tools_call_unknown_tool() {
    let parsed = reply(
        &make_server(),
        r#"{"jsonrpc":"2.0","id":4,"method":"tools/call","params":{"name":"nonexistent","arguments":{}}}"#,
    );
    assert!(at(&parsed, &["error"])
        .equals(&json(r#"{"code":-32602,"message":"tool 'nonexistent' not found"}"#)));
    assert_eq!(at(&parsed, &["id"]).as_u64(), Some(4));
}

#[test]
fn test_unknown_method() {
    let parsed = reply(&make_server(), r#"{"jsonrpc":"2.0","id":5,"method":"unknown/method"}"#);
    assert!(at(&parsed, &["error"])
        .equals(&json(r#"{"code":-32601,"message":"method 'unknown/method' not found"}"#)));
}

#[test]
fn calls_without_what_they_need_are_refused() {
    let s = make_server();
    let words = |body: &str| at(&reply(&s, body), &["error", "message"]).as_str().unwrap().to_string();
    assert_eq!(
        words(r#"{"jsonrpc":"2.0","id":1,"method":"tools/call"}"#),
        "missing params"
    );
    assert_eq!(
        words(r#"{"jsonrpc":"2.0","id":1,"method":"tools/call","params":{"name":3}}"#),
        "missing 'name' in params"
    );
}

#[test]
fn a_failing_tool_is_an_answer() {
    let mut registry = ToolRegistry::new();
    registry.register(BrokenTool).unwrap();
    let server = McpServer::new(registry);
    let parsed = reply(
        &server,
        r#"{"jsonrpc":"2.0","id":"x","method":"tools/call","params":{"name":"broken"}}"#,
    );
    assert!(parsed.equals(&json(
        r#"{"jsonrpc":"2.0","id":"x","result":{"content":[{"type":"text","text":"out of order"}],"isError":true}}"#
    )));
}

#[test]
fn a_call_without_arguments_gets_an_empty_object() {
    let parsed = reply(
        &make_server(),
        r#"{"jsonrpc":"2.0","id":3,"method":"tools/call","params":{"name":"greet"}}"#,
    );
    assert_eq!(
        at(&parsed, &["result", "content", "0", "text"]).as_str(),
        Some("Hello, World!")
    );
}

#[test]
fn a_name_is_registered_once() {
    let mut registry = ToolRegistry::new();
    registry.register(GreetTool).unwrap();
    assert_eq!(
        registry.register(GreetTool).unwrap_err(),
        DaimonError::Builder("tool 'greet' is already registered".to_string())
    );
    registry.register(BrokenTool).unwrap();
    let names: Vec<String> = registry.tool_specs().into_iter().map(|s| s.name).collect();
    assert_eq!(names, ["greet", "broken"]);
    assert!(registry.get("greet").is_some());
    assert!(registry.get("other").is_none());
}

#[test]
fn streams_pass_over_what_asks_for_nothing() {
    let s = make_server();
    assert!(s.handle_stream_message("not json").is_none());
    assert!(s.handle_stream_message(r#"{"jsonrpc":"2.0"}"#).is_none());
    assert!(s
        .handle_stream_message(r#"{"jsonrpc":"2.0","method":"notifications/initialized"}"#)
        .is_none());
    assert!(s
        .handle_stream_message(r#"{"jsonrpc":"2.0","id":null,"method":"initialize"}"#)
        .is_none());
    let r = s
        .handle_stream_message(r#"{"jsonrpc":"2.0","id":8,"method":"tools/list"}"#)
        .unwrap();
    assert_eq!(at(&json(&r), &["id"]).as_u64(), Some(8));
    assert!(s.handle_request_raw("not json").unwrap_err().starts_with("parse error: "));
    assert_eq!(
        s.handle_request_raw("{}").unwrap_err(),
        "parse error: not a JSON-RPC request"
    );
    let unnamed = reply(&s, r#"{"jsonrpc":"2.0","method":"tools/list"}"#);
    assert!(at(&unnamed, &["id"]).is_null());
}

#[test]
fn test_read_message_rejects_oversized_content_length() {
    let framed = make_frame_header(MAX_MESSAGE_SIZE + 1);
    let err = classify_line(Some(framed.lines().next().unwrap())).unwrap_err();
    assert_eq!(
        err.message(),
        "Content-Length 33554433 exceeds maximum allowed message size 33554432"
    );
}

#[test]
fn test_read_message_accepts_normal_content_length() {
    let framed = format!("{}{{}}", make_frame_header(2));
    let (header, body) = framed.split_once("\r\n\r\n").unwrap();
    assert_eq!(classify_line(Some(header)).unwrap(), FirstLine::Framed(2));
    assert_eq!(body, "{}");
}

#[test]
fn first_lines_are_told_apart() {
    assert_eq!(classify_line(None).unwrap(), FirstLine::End);
    assert_eq!(classify_line(Some(" \r\n")).unwrap(), FirstLine::End);
    assert_eq!(
        classify_line(Some(" {\"a\":1}\n")).unwrap(),
        FirstLine::Inline("{\"a\":1}".to_string())
    );
    assert_eq!(classify_line(Some("CONTENT-length: 7\n")).unwrap(), FirstLine::Framed(7));
    assert_eq!(classify_line(Some("content-length: x\n")).unwrap(), FirstLine::Framed(0));
    assert_eq!(classify_line(Some("content-length:5:9\n")).unwrap(), FirstLine::Framed(5));
    assert_eq!(classify_bare("Content-Length: 3", "content-length: 3").unwrap(), FirstLine::Framed(3));
}

// ---- WebSocket and gRPC servers -----------------------------------------

fn sent(server: &McpWsServer, frame: ServerFrame) -> Json {
    match server.handle_frame(frame).unwrap() {
        ServerAction::Send(text) => json(&text),
        other => panic!("{other:?}"),
    }
}

#[test]
fn test_ws_server_initialize_and_call() {
    let server = McpWsServer::from_server(make_server());
    let body = sent(
        &server,
        ServerFrame::Text(r#"{"jsonrpc":"2.0","id":1,"method":"initialize","params":{}}"#.into()),
    );
    assert!(matches!(at(&body, &["result", "capabilities", "tools"]), Json::Object(_)));
    let body = sent(
        &server,
        ServerFrame::Text(
            r#"{"jsonrpc":"2.0","id":2,"method":"tools/call","params":{"name":"greet","arguments":{}}}"#
                .into(),
        ),
    );
    assert_eq!(
        at(&body, &["result", "content", "0", "text"]).as_str(),
        Some("Hello, World!")
    );
    assert!(matches!(server.handle_frame(ServerFrame::Close).unwrap(), ServerAction::Stop));
}

#[test]
fn test_ws_server_tools_list() {
    let mut registry = ToolRegistry::new();
    registry.register(GreetTool).unwrap();
    let server = McpWsServer::new(registry);
    let body = sent(
        &server,
        ServerFrame::Binary(Ok(r#"{"jsonrpc":"2.0","id":1,"method":"tools/list"}"#.into())),
    );
    let tools = at(&body, &["result", "tools"]).as_array().unwrap();
    assert_eq!(tools.len(), 1);
    assert_eq!(at(&tools[0], &["name"]).as_str(), Some("greet"));
}

#[test]
fn ws_server_answers_what_it_cannot_read() {
    let server = McpWsServer::from_server(make_server());
    let body = sent(&server, ServerFrame::Text("{}".into()));
    assert!(body.equals(&json(
        r#"{"jsonrpc":"2.0","id":null,"error":{"code":-32603,"message":"parse error: not a JSON-RPC request"}}"#
    )));
    assert!(matches!(server.handle_frame(ServerFrame::Other).unwrap(), ServerAction::Skip));
    assert_eq!(
        server
            .handle_frame(ServerFrame::Binary(Err("bad byte".into())))
            .unwrap_err(),
        DaimonError::Mcp("invalid utf-8: bad byte".to_string())
    );
}

#[test]
fn test_proto_types_compile() {
    let _ = proto::InitializeRequest {};
    let _ = proto::ToolsListRequest {};
    let _ = proto::ToolsCallRequest {
        name: "test".into(),
        arguments_json: "{}".into(),
    };
    let _ = proto::RawJsonRpc { body: "{}".into() };
    let _ = proto::JsonRpcResult {
        result_json: "{}".into(),
    };
}

struct EchoTool;

impl Tool for EchoTool {
    fn name(&self) -> &str {
        "echo"
    }
    fn description(&self) -> &str {
        "Echoes input"
    }
    fn parameters_schema(&self) -> Json {
        json(r#"{"type":"object","properties":{"text":{"type":"string"}}}"#)
    }
    fn execute(&self, input: &Json) -> Result<ToolOutput> {
        let text = input.get("text").and_then(|v| v.as_str()).unwrap_or("?");
        Ok(ToolOutput::text(text))
    }
}

#[test]
fn test_grpc_mcp_server_and_client() {
    let mut registry = ToolRegistry::new();
    registry.register(EchoTool).unwrap();
    let server = McpGrpcServer::new(McpServer::new(registry));
    let send = |request: JsonRpcRequest| {
        response_from_service(server.handle_raw(&raw_request(&request))).unwrap()
    };
    let resp = send(JsonRpcRequest::new(1, "initialize", Some(json("{}"))));
    let result = resp.result.unwrap();
    assert!(matches!(at(&result, &["capabilities", "tools"]), Json::Object(_)));
    let resp = send(JsonRpcRequest::new(2, "tools/list", None));
    assert_eq!(resp.id, Some(2));
    let result = resp.result.unwrap();
    let tools = at(&result, &["tools"]).as_array().unwrap();
    assert_eq!(tools.len(), 1);
    assert_eq!(at(&tools[0], &["name"]).as_str(), Some("echo"));
    let resp = send(JsonRpcRequest::new(
        3,
        "tools/call",
        Some(json(r#"{"name":"echo","arguments":{"text":"hello grpc"}}"#)),
    ));
    let result = resp.result.unwrap();
    assert_eq!(at(&result, &["content", "0", "text"]).as_str(), Some("hello grpc"));
}

#[test]
fn answers_list_their_members_in_order() {
    let server = make_server();
    assert_eq!(
        server.handle_request_raw(r#"{"jsonrpc":"2.0","id":"x","method":"nope"}"#).unwrap(),
        r#"{"jsonrpc":"2.0","id":"x","error":{"code":-32601,"message":"method 'nope' not found"}}"#
    );
    assert_eq!(
        server
            .handle_request_raw(
                r#"{"jsonrpc":"2.0","id":7,"method":"tools/call","params":{"name":"greet"}}"#
            )
            .unwrap(),
        r#"{"jsonrpc":"2.0","id":7,"result":{"content":[{"text":"Hello, World!","type":"text"}],"isError":false}}"#
    );
}

#[test]
fn requests_may_be_written_as_arrays() {
    let server = make_server();
    assert_eq!(
        server.handle_request_raw(r#"["2.0",7,"tools/call",{"name":"greet"}]"#).unwrap(),
        server
            .handle_request_raw(
                r#"{"jsonrpc":"2.0","id":7,"method":"tools/call","params":{"name":"greet"}}"#
            )
            .unwrap()
    );
    assert!(server.handle_request_raw(r#"["2.0",7,"tools/list"]"#).is_ok());
    assert!(server.handle_request_raw(r#"["2.0",7]"#).is_err());
}

#[test]
fn grpc_calls_are_requests() {
    let server = McpGrpcServer::new(make_server());
    let r = json(&server.initialize(&proto::InitializeRequest {}).unwrap().result_json);
    assert_eq!(at(&r, &["id"]).as_u64(), Some(1));
    assert_eq!(at(&r, &["result", "serverInfo", "name"]).as_str(), Some("daimon"));
    let r = json(&server.tools_list(&proto::ToolsListRequest {}).unwrap().result_json);
    assert_eq!(at(&r, &["result", "tools", "0", "name"]).as_str(), Some("greet"));
    let call = |arguments: &str| {
        let request = proto::ToolsCallRequest {
            name: "greet".into(),
            arguments_json: arguments.into(),
        };
        let r = json(&server.tools_call(&request).unwrap().result_json);
        at(&r, &["result", "content", "0", "text"]).as_str().unwrap().to_string()
    };
    assert_eq!(call(r#"{"name":"you"}"#), "Hello, you!");
    assert_eq!(call("no json"), "Hello, World!");
    assert_eq!(
        server.handle_raw(&proto::RawJsonRpc { body: "{}".into() }).unwrap_err(),
        "parse error: not a JSON-RPC request"
    );
    assert_eq!(
        response_from_service(Err("down".into())).unwrap_err().message(),
        "grpc send: down"
    );
}

// ---- the client ----------------------------------------------------------

#[derive(Clone)]
struct ScriptedTransport {
    results: Rc<RefCell<VecDeque<JsonRpcResponse>>>,
    requests: Rc<RefCell<Vec<(String, Option<Json>)>>>,
    told: Rc<RefCell<Vec<String>>>,
}

impl ScriptedTransport {
    fn new(results: &[&str]) -> Self {
        let queue = results
            .iter()
            .map(|r| JsonRpcResponse {
                jsonrpc: "2.0".into(),
                id: Some(1),
                result: Some(json(r)),
                error: None,
            })
            .collect();
        ScriptedTransport {
            results: Rc::new(RefCell::new(queue)),
            requests: Rc::new(RefCell::new(Vec::new())),
            told: Rc::new(RefCell::new(Vec::new())),
        }
    }

    fn push(&self, text: &str) {
        self.results.borrow_mut().push_back(read_response(&json(text)).unwrap());
    }
}

impl McpTransport for ScriptedTransport {
    fn request(&self, method: &str, params: Option<Json>) -> Result<JsonRpcResponse> {
        self.requests.borrow_mut().push((method.to_string(), params));
        self.results
            .borrow_mut()
            .pop_front()
            .ok_or_else(|| DaimonError::Mcp("scripted transport exhausted".into()))
    }

    fn notify(&self, notification: &JsonRpcNotification) -> Result<()> {
        self.told.borrow_mut().push(notification.method.clone());
        Ok(())
    }

    fn close(&self) -> Result<()> {
        Ok(())
    }
}

const INIT: &str = r#"{"protocolVersion":"2024-11-05","capabilities":{"tools":{}},"serverInfo":{"name":"test","version":"0.0.0"}}"#;

#[test]
fn test_list_tools_follows_next_cursor_pagination() {
    let transport = ScriptedTransport::new(&[
        INIT,
        r#"{"tools":[{"name":"tool_one","inputSchema":{"type":"object"}}],"nextCursor":"page-2"}"#,
        r#"{"tools":[{"name":"tool_two","inputSchema":{"type":"object"}}]}"#,
    ]);
    let client = McpClient::connect(transport).unwrap();
    let names: Vec<&str> = client.tool_infos().iter().map(|t| t.name.as_str()).collect();
    assert_eq!(names, ["tool_one", "tool_two"]);
}

#[test]
fn test_list_tools_passes_cursor_param_on_second_page() {
    let transport =
        ScriptedTransport::new(&[INIT, r#"{"tools":[],"nextCursor":"abc"}"#, r#"{"tools":[]}"#]);
    let _client = McpClient::connect(transport.clone()).unwrap();
    let requests = transport.requests.borrow();
    assert_eq!(requests[0].0, "initialize");
    assert!(requests[0].1.as_ref().unwrap().equals(&json(
        r#"{"protocolVersion":"2024-11-05","capabilities":{},"clientInfo":{"name":"daimon","version":"0.1.0"}}"#
    )));
    assert_eq!(requests[1], ("tools/list".to_string(), None));
    assert_eq!(
        requests[2],
        ("tools/list".to_string(), Some(json(r#"{"cursor":"abc"}"#)))
    );
    assert_eq!(*transport.told.borrow(), ["notifications/initialized"]);
}

#[test]
fn test_list_tools_malformed_result_is_an_error_not_empty() {
    let transport = ScriptedTransport::new(&[INIT, r#"{"tools":"not an array"}"#]);
    let err = McpClient::connect(transport).err().unwrap();
    assert!(matches!(err, DaimonError::Mcp(_)));
    assert!(err.message().contains("tools/list"));
}

#[test]
fn test_list_tools_missing_tools_key_is_an_error() {
    let transport = ScriptedTransport::new(&[INIT, "{}"]);
    let err = McpClient::connect(transport).err().unwrap();
    assert_eq!(
        err,
        DaimonError::Mcp("tools/list result missing 'tools'".to_string())
    );
}

#[test]
fn endless_pages_are_given_up() {
    let mut script = vec![INIT];
    for _ in 0..1024 {
        script.push(r#"{"tools":[],"nextCursor":"again"}"#);
    }
    let transport = ScriptedTransport::new(&script);
    let err = McpClient::connect(transport.clone()).err().unwrap();
    assert_eq!(err.message(), "tools/list pagination exceeded 1024 pages");
    assert_eq!(transport.requests.borrow().len(), 1025);
}

#[test]
fn refusals_of_the_other_side_are_errors() {
    let transport = ScriptedTransport::new(&[]);
    transport.push(r#"{"jsonrpc":"2.0","id":1,"error":{"code":-1,"message":"no"}}"#);
    let err = McpClient::connect(transport.clone()).err().unwrap();
    assert_eq!(err.message(), "initialize failed: no (code -1)");
    assert!(transport.told.borrow().is_empty());

    let transport = ScriptedTransport::new(&[INIT]);
    transport.push(r#"{"jsonrpc":"2.0","id":1,"error":{"code":7,"message":"later"}}"#);
    let err = McpClient::connect(transport).err().unwrap();
    assert_eq!(err.message(), "tools/list failed: later (code 7)");

    let transport = ScriptedTransport::new(&[INIT]);
    transport.push(r#"{"jsonrpc":"2.0","id":1}"#);
    let err = McpClient::connect(transport).err().unwrap();
    assert_eq!(err.message(), "tools/list returned no result");
}

fn connected() -> (McpClient<ScriptedTransport>, ScriptedTransport) {
    let transport = ScriptedTransport::new(&[INIT, r#"{"tools":[{"name":"t"}]}"#]);
    (McpClient::connect(transport.clone()).unwrap(), transport)
}

#[test]
fn client_calls_come_to_text_or_an_error() {
    let (client, transport) = connected();
    transport.push(
        r#"{"jsonrpc":"2.0","id":1,"result":{"content":[{"type":"text","text":"a"},{"type":"text","text":"b"}]}}"#,
    );
    assert_eq!(client.call_tool("t", &json(r#"{"x":1}"#)).unwrap(), "a\nb");
    let last = transport.requests.borrow().last().unwrap().1.as_ref().unwrap().duplicate();
    assert!(last.equals(&json(r#"{"name":"t","arguments":{"x":1}}"#)));

    let fails = |text: &str| {
        transport.push(text);
        client.call_tool("t", &Json::Null).unwrap_err().message()
    };
    assert_eq!(
        fails(r#"{"jsonrpc":"2.0","error":{"code":-32602,"message":"bad"}}"#),
        "tools/call 't' failed: bad (code -32602)"
    );
    assert_eq!(fails(r#"{"jsonrpc":"2.0"}"#), "tools/call 't' returned no result");
    assert_eq!(
        fails(r#"{"jsonrpc":"2.0","result":{"isError":true}}"#),
        "parse tools/call result: not a tool result"
    );
    assert_eq!(
        fails(r#"{"jsonrpc":"2.0","result":{"content":[{"type":"text","text":"boom"}],"isError":true}}"#),
        "MCP tool 't' returned error: boom"
    );
    assert_eq!(
        client.call_tool("t", &Json::Null).unwrap_err().message(),
        "scripted transport exhausted"
    );
    client.close().unwrap();
}

#[test]
fn bridged_tools_hand_failures_to_the_model() {
    let (client, transport) = connected();
    let tools = client.tools();
    assert_eq!(tools.len(), 1);
    let run = |text: &str| {
        transport.push(text);
        tools[0].execute(&json(r#"{"k":2}"#))
    };
    let out = run(r#"{"jsonrpc":"2.0","error":{"code":5,"message":"bad"}}"#).unwrap();
    assert!(out.is_error);
    assert_eq!(out.content, "MCP error: bad (code 5)");
    let out = run(r#"{"jsonrpc":"2.0","result":{"content":[{"type":"text","text":"boom"}],"isError":true}}"#)
        .unwrap();
    assert!(out.is_error);
    assert_eq!(out.content, "boom");
    let out = run(r#"{"jsonrpc":"2.0","result":{"content":[{"type":"text","text":"fine"}]}}"#).unwrap();
    assert!(!out.is_error);
    assert_eq!(out.content, "fine");
    assert_eq!(
        run(r#"{"jsonrpc":"2.0"}"#).unwrap_err().message(),
        "tools/call returned no result"
    );
    assert_eq!(
        run(r#"{"jsonrpc":"2.0","result":3}"#).unwrap_err().message(),
        "parse result: not a tool result"
    );
    let asked = transport.requests.borrow().last().unwrap().1.as_ref().unwrap().duplicate();
    assert!(asked.equals(&json(r#"{"name":"t","arguments":{"k":2}}"#)));
}

struct NullTransport;

impl McpTransport for NullTransport {
    fn request(&self, _method: &str, _params: Option<Json>) -> Result<JsonRpcResponse> {
        Err(DaimonError::Mcp("null transport".into()))
    }

    fn notify(&self, _notification: &JsonRpcNotification) -> Result<()> {
        Ok(())
    }

    fn close(&self) -> Result<()> {
        Ok(())
    }
}

#[test]
fn test_bridge_name() {
    let info = McpToolInfo {
        name: "read_file".into(),
        description: Some("Reads a file".into()),
        input_schema: json(r#"{"type": "object"}"#),
    };
    let bridge = McpToolBridge::new(Arc::new(NullTransport), info);
    assert_eq!(bridge.name(), "read_file");
    assert_eq!(bridge.description(), "Reads a file");
}

#[test]
fn test_bridge_schema_null_fallback() {
    let info = McpToolInfo {
        name: "test".into(),
        description: None,
        input_schema: Json::Null,
    };
    let bridge = McpToolBridge::new(Arc::new(NullTransport), info);
    assert!(bridge.parameters_schema().equals(&json(r#"{"type": "object"}"#)));
}

#[test]
fn test_bridge_description_none() {
    let info = McpToolInfo {
        name: "test".into(),
        description: None,
        input_schema: json("{}"),
    };
    let bridge = McpToolBridge::new(Arc::new(NullTransport), info);
    assert_eq!(bridge.description(), "");
    assert_eq!(
        bridge.execute(&Json::Null).unwrap_err(),
        DaimonError::Mcp("null transport".to_string())
    );
}

/// A way to a server in the same process.
struct Local {
    server: McpServer,
}

impl McpTransport for Local {
    fn request(&self, method: &str, params: Option<Json>) -> Result<JsonRpcResponse> {
        let request = JsonRpcRequest::new(11, method, params);
        let text = self.server.handle_request_raw(&request.to_text()).unwrap();
        Ok(read_response(&json(&text)).unwrap())
    }

    fn notify(&self, notification: &JsonRpcNotification) -> Result<()> {
        assert!(self.server.handle_stream_message(&notification.to_text()).is_none());
        Ok(())
    }

    fn close(&self) -> Result<()> {
        Ok(())
    }
}

#[test]
fn both_sides_understand_each_other() {
    let client = McpClient::connect(Local { server: make_server() }).unwrap();
    let infos = client.tool_infos();
    assert_eq!(infos.len(), 1);
    assert_eq!(infos[0].name, "greet");
    assert!(infos[0].input_schema.equals(&GreetTool.parameters_schema()));
    assert_eq!(
        client.call_tool("greet", &json(r#"{"name":"both"}"#)).unwrap(),
        "Hello, both!"
    );
    let tools = client.tools();
    let out = tools[0].execute(&json(r#"{"name":"bridge"}"#)).unwrap();
    assert_eq!(out.content, "Hello, bridge!");
    assert_eq!(
        client.call_tool("none", &Json::Null).unwrap_err().message(),
        "tools/call 'none' failed: tool 'none' not found (code -32602)"
    );
}
