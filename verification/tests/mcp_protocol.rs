use daimon::error::DaimonError;
use daimon::json::Json;
use daimon::mcp::protocol::{
    extract_text, read_info, read_response, JsonRpcNotification, JsonRpcRequest, JsonRpcResponse,
    McpContentBlock, McpToolInfo,
};
use daimon::mcp::transport::{
    check_content_length, make_frame_header, response_from_http, HeaderReader, HeaderStep,
    HttpTransport, RequestIds, ResponseWait, DEFAULT_HTTP_TIMEOUT_SECS, MAX_MESSAGE_SIZE,
    MAX_SKIPPED_MESSAGES,
};
use daimon::mcp::websocket::{receive, WebSocketTransport, WsEvent, WsFault, WsStep};
use std::time::Duration;

fn json(text: &str) -> Json {
    Json::parse(text).unwrap()
}

fn response(text: &str) -> JsonRpcResponse {
    read_response(&json(text)).unwrap()
}

#[test]
fn test_request_serialization() {
    let req = JsonRpcRequest::new(1, "tools/list", None);
    let json = req.to_text();
    assert!(json.contains("\"jsonrpc\":\"2.0\""));
    assert!(json.contains("\"method\":\"tools/list\""));
    assert!(!json.contains("\"params\""));
}

#[test]
fn test_request_with_params() {
    let req = JsonRpcRequest::new(
        2,
        "tools/call",
        Some(json(r#"{"name": "test", "arguments": {}}"#)),
    );
    let text = req.to_text();
    assert!(text.contains("\"params\""));
    assert!(json(&text).equals(&json(
        r#"{"jsonrpc":"2.0","id":2,"method":"tools/call","params":{"name":"test","arguments":{}}}"#
    )));
}

#[test]
fn test_response_deserialization() {
    let resp = response(r#"{"jsonrpc":"2.0","id":1,"result":{"tools":[]}}"#);
    assert!(resp.result.is_some());
    assert!(resp.error.is_none());
}

#[test]
fn test_error_response() {
    let resp = response(
        r#"{"jsonrpc":"2.0","id":1,"error":{"code":-32600,"message":"Invalid Request"}}"#,
    );
    assert!(resp.error.is_some());
    assert_eq!(resp.error.unwrap().code, -32600);
}

#[test]
fn test_tool_info_deserialization() {
    let info = read_info(&json(
        r#"{"name":"read_file","description":"Read a file","inputSchema":{"type":"object","properties":{"path":{"type":"string"}}}}"#,
    ))
    .unwrap();
    assert_eq!(info.name, "read_file");
    assert_eq!(info.description.as_deref(), Some("Read a file"));
}

#[test]
fn test_response_string_id_normalized_to_u64() {
    let resp = response(r#"{"jsonrpc":"2.0","id":"1000","result":{}}"#);
    assert_eq!(resp.id, Some(1000));
}

#[test]
fn test_response_non_numeric_string_id_maps_to_none() {
    let resp = response(r#"{"jsonrpc":"2.0","id":"abc","result":{}}"#);
    assert_eq!(resp.id, None);
}

#[test]
fn test_response_missing_and_null_id_map_to_none() {
    let resp = response(r#"{"jsonrpc":"2.0","result":{}}"#);
    assert_eq!(resp.id, None);
    let resp = response(r#"{"jsonrpc":"2.0","id":null,"result":{}}"#);
    assert_eq!(resp.id, None);
}

#[test]
fn test_notification() {
    let n = JsonRpcNotification::new("notifications/initialized");
    let json = n.to_text();
    assert!(json.contains("\"method\":\"notifications/initialized\""));
    assert!(!json.contains("\"id\""));
}

#[test]
fn responses_of_the_wrong_shape_are_refused() {
    assert!(read_response(&json(r#"{"id":1}"#)).is_none());
    assert!(read_response(&json(r#"{"jsonrpc":2}"#)).is_none());
    assert!(read_response(&json(r#"{"jsonrpc":"2.0","error":{"code":"x"}}"#)).is_none());
    assert!(read_response(&json("[]")).is_none());
}

#[test]
fn a_tool_is_written_and_read_back() {
    let info = McpToolInfo {
        name: "n".to_string(),
        description: None,
        input_schema: json(r#"{"type":"object"}"#),
    };
    let back = read_info(&info.to_json()).unwrap();
    assert_eq!(back.name, "n");
    assert_eq!(back.description, None);
    assert!(back.input_schema.equals(&info.input_schema));
}

#[test]
fn test_extract_text_single() {
    let blocks = vec![McpContentBlock {
        content_type: "text".into(),
        text: Some("hello".into()),
    }];
    assert_eq!(extract_text(&blocks), "hello");
}

#[test]
fn test_extract_text_multiple() {
    let blocks = vec![
        McpContentBlock {
            content_type: "text".into(),
            text: Some("a".into()),
        },
        McpContentBlock {
            content_type: "image".into(),
            text: None,
        },
        McpContentBlock {
            content_type: "text".into(),
            text: Some("b".into()),
        },
    ];
    assert_eq!(extract_text(&blocks), "a\nb");
}

#[test]
fn test_extract_text_empty() {
    assert_eq!(extract_text(&vec![]), "");
}

#[test]
fn test_content_length_within_cap_ok() {
    assert!(check_content_length(0).is_ok());
    assert!(check_content_length(1024).is_ok());
    assert!(check_content_length(MAX_MESSAGE_SIZE).is_ok());
}

#[test]
fn test_content_length_over_cap_rejected() {
    let err = check_content_length(MAX_MESSAGE_SIZE + 1).unwrap_err();
    assert!(matches!(err, DaimonError::Mcp(_)));
    assert_eq!(
        err.message(),
        "Content-Length 33554433 exceeds maximum allowed message size 33554432"
    );
    assert!(check_content_length(usize::MAX).is_err());
}

#[test]
fn test_http_transport_new() {
    let t = HttpTransport::new("http://localhost:8080/mcp");
    assert_eq!(t.url, "http://localhost:8080/mcp");
    assert_eq!(t.ids.next, 1);
}

#[test]
fn test_http_transport_with_header() {
    let t = HttpTransport::new("http://localhost:8080")
        .with_header("Authorization", "Bearer token123");
    assert_eq!(
        t.headers.get("Authorization"),
        Some(&"Bearer token123".to_string())
    );
}

#[test]
fn test_http_transport_default_timeout() {
    let t = HttpTransport::new("http://localhost:8080");
    assert_eq!(DEFAULT_HTTP_TIMEOUT_SECS, 30);
    assert_eq!(t.timeout, Duration::from_secs(30));
}

#[test]
fn test_http_transport_with_timeout() {
    let t = HttpTransport::new("http://localhost:8080").with_timeout(Duration::from_secs(5));
    assert_eq!(t.timeout, Duration::from_secs(5));
}

#[test]
fn http_answers_are_read_or_refused() {
    let ok = response_from_http(200, "200 OK", r#"{"jsonrpc":"2.0","id":4}"#).unwrap();
    assert_eq!(ok.id, Some(4));
    let bad = response_from_http(503, "503 Service Unavailable", "busy").unwrap_err();
    assert_eq!(
        bad,
        DaimonError::Mcp("HTTP 503 Service Unavailable: busy".to_string())
    );
    let garbled = response_from_http(200, "200 OK", "nope").unwrap_err();
    assert!(garbled.message().starts_with("deserialize response: "));
    assert_eq!(
        response_from_http(299, "", "{}").unwrap_err().message(),
        "deserialize response: not a JSON-RPC response"
    );
}

fn read_frames(input: &str, expected_id: u64) -> Result<JsonRpcResponse, DaimonError> {
    let mut wait = ResponseWait::new(expected_id);
    let mut rest = input;
    loop {
        let mut header = HeaderReader::new();
        let length = loop {
            let end = match rest.find('\n') {
                Some(i) => i + 1,
                None => return Err(header.ended()),
            };
            let (line, behind) = rest.split_at(end);
            rest = behind;
            match header.take_line(line)? {
                HeaderStep::More => {}
                HeaderStep::Body(n) => break n,
            }
        };
        let (body, behind) = rest.split_at(length);
        rest = behind;
        if let Some(m) = wait.take_bytes(body.as_bytes())? {
            return Ok(m);
        }
    }
}

fn frame(body: &str) -> String {
    format!("{}{}", make_frame_header(body.len()), body)
}

#[test]
fn frame_headers_are_exact() {
    assert_eq!(make_frame_header(0), "Content-Length: 0\r\n\r\n");
    assert_eq!(make_frame_header(1234), "Content-Length: 1234\r\n\r\n");
}

#[test]
fn test_read_matching_response_skips_interleaved_notification() {
    let input = format!(
        "{}{}",
        frame(r#"{"jsonrpc":"2.0","method":"notifications/progress","params":{}}"#),
        frame(r#"{"jsonrpc":"2.0","id":1,"result":{"ok":true}}"#),
    );
    let response = read_frames(&input, 1).unwrap();
    assert_eq!(response.id, Some(1));
    assert_eq!(response.result.unwrap().get("ok").unwrap().as_bool(), Some(true));
}

#[test]
fn test_read_matching_response_skips_non_matching_id() {
    let input = format!(
        "{}{}",
        frame(r#"{"jsonrpc":"2.0","id":99,"result":{"ok":false}}"#),
        frame(r#"{"jsonrpc":"2.0","id":7,"result":{"ok":true}}"#),
    );
    let response = read_frames(&input, 7).unwrap();
    assert_eq!(response.id, Some(7));
    assert_eq!(response.result.unwrap().get("ok").unwrap().as_bool(), Some(true));
}

#[test]
fn test_read_matching_response_bounded_by_skip_limit() {
    let notification = frame(r#"{"jsonrpc":"2.0","method":"notifications/progress"}"#);
    let input = notification.repeat(MAX_SKIPPED_MESSAGES + 1);
    let err = read_frames(&input, 1).unwrap_err();
    assert_eq!(
        err,
        DaimonError::Mcp("no response for request id 1 within 1024 messages".to_string())
    );
}

#[test]
fn header_lines_are_held_to_their_rules() {
    let mut h = HeaderReader::new();
    assert_eq!(h.take_line("X-Other: 1\r\n").unwrap(), HeaderStep::More);
    assert_eq!(
        h.take_line("\r\n").unwrap_err().message(),
        "missing Content-Length header"
    );
    assert_eq!(
        h.take_line("Content-Length: twelve\r\n").unwrap_err().message(),
        "invalid Content-Length: invalid digit found in string"
    );
    assert_eq!(
        h.take_line("Content-Length:\r\n").unwrap_err().message(),
        "invalid Content-Length: cannot parse integer from empty string"
    );
    assert_eq!(
        h.take_line("Content-Length: 99999999999999999999999\r\n")
            .unwrap_err()
            .message(),
        "invalid Content-Length: number too large to fit in target type"
    );
    assert_eq!(h.take_line("Content-Length: 33554433\r\n").unwrap(), HeaderStep::More);
    assert!(h.take_line("\r\n").is_err());
    assert_eq!(h.take_line("  Content-Length:  12 \n").unwrap(), HeaderStep::More);
    assert_eq!(h.take_line("\n").unwrap(), HeaderStep::Body(12));
    assert_eq!(h.ended().message(), "server closed connection");
}

#[test]
fn unreadable_messages_end_the_wait() {
    let mut w = ResponseWait::new(3);
    assert!(w.take_bytes(b"nope").unwrap_err().message().starts_with("deserialize response: "));
    assert!(w.take_bytes(&[0xff, 0xfe]).is_err());
    assert_eq!(
        w.take_text("{}").unwrap_err().message(),
        "deserialize response: not a JSON-RPC response"
    );
    assert_eq!(w.skipped, 0);
}

#[test]
fn identifiers_count_up() {
    let mut ids = RequestIds::new();
    assert_eq!(ids.request("a", None).id, 1);
    assert_eq!(ids.request("b", None).id, 2);
    let mut last = RequestIds { next: u64::MAX };
    assert_eq!(last.request("a", None).id, u64::MAX);
    assert_eq!(last.request("a", None).id, 0);
}

#[test]
fn test_transport_types_are_send_sync() {
    fn assert_send_sync<T: Send + Sync>() {}
    assert_send_sync::<WebSocketTransport>();
}

fn answer(events: Vec<WsEvent>, expected: u64) -> (Result<JsonRpcResponse, DaimonError>, usize) {
    let mut wait = ResponseWait::new(expected);
    let mut pongs = 0;
    for event in events {
        match receive(&mut wait, event) {
            Ok(WsStep::More) => {}
            Ok(WsStep::Pong) => pongs += 1,
            Ok(WsStep::Answer(m)) => return (Ok(m), pongs),
            Err(e) => return (Err(e), pongs),
        }
    }
    panic!("no answer")
}

#[test]
fn test_notification_before_response_is_skipped() {
    let mut ws = WebSocketTransport::new();
    let (text, wait) = ws.ask("tools/list", None).unwrap();
    assert!(text.contains("\"id\":1"));
    let id = wait.expected_id;
    let (r, pongs) = answer(
        vec![
            WsEvent::Text(
                r#"{"jsonrpc":"2.0","method":"notifications/progress","params":{"p":1}}"#.into(),
            ),
            WsEvent::Ping,
            WsEvent::Other,
            WsEvent::Text(format!(r#"{{"jsonrpc":"2.0","id":{id},"result":{{"ok":true}}}}"#)),
        ],
        id,
    );
    assert_eq!(pongs, 1);
    assert_eq!(r.unwrap().result.unwrap().get("ok").unwrap().as_bool(), Some(true));
}

#[test]
fn test_non_matching_id_before_response_is_skipped() {
    let (r, _) = answer(
        vec![
            WsEvent::Text(r#"{"jsonrpc":"2.0","id":999999,"result":{"ok":false}}"#.into()),
            WsEvent::Text(r#"{"jsonrpc":"2.0","id":1,"result":{"ok":true}}"#.into()),
        ],
        1,
    );
    assert_eq!(r.unwrap().result.unwrap().get("ok").unwrap().as_bool(), Some(true));
}

#[test]
fn websocket_failures_are_named() {
    let fail = |e: WsEvent| answer(vec![e], 1).0.unwrap_err().message();
    assert_eq!(fail(WsEvent::Close), "WebSocket server closed connection");
    assert_eq!(fail(WsEvent::End), "WebSocket stream ended");
    assert_eq!(fail(WsEvent::Failed("reset".into())), "WebSocket receive error: reset");
    assert!(fail(WsEvent::Text("x".into())).starts_with("deserialize response: "));
    assert_eq!(WsFault::Connect.error("x").message(), "WebSocket connect failed: x");
    assert_eq!(WsFault::Send.error("x").message(), "WebSocket send failed: x");
    assert_eq!(WsFault::Pong.error("x").message(), "WebSocket pong failed: x");
}

#[test]
fn a_websocket_gives_up_after_too_many_messages() {
    let mut wait = ResponseWait::new(1);
    for _ in 0..1023 {
        let r = receive(&mut wait, WsEvent::Text(r#"{"jsonrpc":"2.0"}"#.into())).unwrap();
        assert!(matches!(r, WsStep::More));
    }
    let e = receive(&mut wait, WsEvent::Text(r#"{"jsonrpc":"2.0"}"#.into())).unwrap_err();
    assert_eq!(e.message(), "no response for request id 1 within 1024 messages");
}

#[test]
fn a_closed_websocket_refuses() {
    let mut ws = WebSocketTransport::new();
    assert!(ws.tell(&JsonRpcNotification::new("n")).unwrap().contains("\"method\":\"n\""));
    assert!(ws.close());
    assert!(!ws.close());
    assert_eq!(ws.ask("m", None).unwrap_err().message(), "WebSocket transport closed");
    assert_eq!(
        ws.tell(&JsonRpcNotification::new("n")).unwrap_err().message(),
        "WebSocket transport closed"
    );
}

#[test]
fn requests_list_their_members_in_order() {
    let params = Json::parse(r#"{"b":1,"a":{"d":2,"c":3}}"#).unwrap();
    assert_eq!(
        JsonRpcRequest::new(7, "say \"hi\"", Some(params)).to_text(),
        r#"{"jsonrpc":"2.0","id":7,"method":"say \"hi\"","params":{"a":{"c":3,"d":2},"b":1}}"#
    );
    assert_eq!(
        JsonRpcRequest::new(1, "m", None).to_text(),
        r#"{"jsonrpc":"2.0","id":1,"method":"m"}"#
    );
    assert_eq!(JsonRpcNotification::new("n").to_text(), r#"{"jsonrpc":"2.0","method":"n"}"#);
}

#[test]
fn two_waits_on_one_socket_end_with_their_own_answers() {
    let mut socket = WebSocketTransport::new();
    let (first, wait) = socket.ask("tools/call", None).unwrap();
    let (second, later) = socket.ask("tools/call", None).unwrap();
    assert_ne!(first, second);
    let reply = |id: u64| WsEvent::Text(format!(r#"{{"jsonrpc":"2.0","id":{id},"result":{id}}}"#));
    let (a, b) = (wait.expected_id, later.expected_id);
    for (own, other) in [(a, b), (b, a)] {
        let frames = vec![WsEvent::Ping, reply(other), WsEvent::Ping, reply(own), WsEvent::Close];
        let (got, pongs) = answer(frames, own);
        assert_eq!(got.unwrap().result.unwrap().as_u64(), Some(own));
        assert_eq!(pongs, 2);
    }
}

#[test]
fn messages_may_be_written_as_arrays() {
    assert_eq!(
        read_response(&json(r#"["2.0","7",{"ok":true},null]"#)),
        read_response(&json(r#"{"jsonrpc":"2.0","id":7,"result":{"ok":true}}"#))
    );
    assert_eq!(
        read_response(&json(r#"["2.0",null,null,[1,"m",null]]"#)).unwrap().error.unwrap().message,
        "m"
    );
    assert!(read_response(&json(r#"["2.0",1,{}]"#)).is_none());
    assert_eq!(read_info(&json(r#"["n"]"#)), read_info(&json(r#"{"name":"n"}"#)));
    assert!(read_info(&json(r#"["n",null,{},1]"#)).is_none());
}
