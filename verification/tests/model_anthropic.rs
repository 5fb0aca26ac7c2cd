use daimon::error::DaimonError;
use daimon::json::Json;
use daimon::model::anthropic::{
    handle_anthropic_stream_event, make_tool, parse_response, read_response, read_stream_event,
    response_from_body, Anthropic, AnthropicResponse, AnthropicResponseBlock, AnthropicStream,
    AnthropicStreamEvent, AnthropicUsage, Exchange, DEFAULT_BASE_URL,
};
use daimon::model::types::{ChatRequest, Message, Role, StopReason, ToolSpec};
use daimon::stream::StreamEvent;
use daimon::tool::ToolCall;
use std::collections::HashMap;
use std::time::Duration;

fn json(text: &str) -> Json {
    Json::parse(text).unwrap()
}

fn spec(name: &str, description: &str) -> ToolSpec {
    ToolSpec {
        name: name.into(),
        description: description.into(),
        parameters: json(r#"{"type": "object"}"#),
    }
}

fn model() -> Anthropic {
    Anthropic::with_api_key("test", "key")
}

#[test]
fn anthropic_test_parse_response_text() {
    let raw = AnthropicResponse {
        content: vec![AnthropicResponseBlock::Text {
            text: "hello world".into(),
        }],
        stop_reason: Some("end_turn".into()),
        usage: Some(AnthropicUsage {
            input_tokens: 10,
            output_tokens: 5,
            cache_creation_input_tokens: 0,
            cache_read_input_tokens: 0,
        }),
    };
    let resp = parse_response(raw).unwrap();
    assert_eq!(resp.text(), "hello world");
    assert_eq!(resp.stop_reason, StopReason::EndTurn);
    assert!(!resp.has_tool_calls());
}

#[test]
fn anthropic_test_parse_response_tool_use() {
    let raw = AnthropicResponse {
        content: vec![AnthropicResponseBlock::ToolUse {
            id: "tu_1".into(),
            name: "calc".into(),
            input: json(r#"{"expr": "2+2"}"#),
        }],
        stop_reason: Some("tool_use".into()),
        usage: None,
    };
    let resp = parse_response(raw).unwrap();
    assert!(resp.has_tool_calls());
    assert_eq!(resp.tool_calls()[0].name, "calc");
    assert_eq!(resp.stop_reason, StopReason::ToolUse);
}

#[test]
fn test_parse_response_mixed_content() {
    let raw = AnthropicResponse {
        content: vec![
            AnthropicResponseBlock::Text {
                text: "Let me calculate".into(),
            },
            AnthropicResponseBlock::ToolUse {
                id: "tu_1".into(),
                name: "calc".into(),
                input: json("{}"),
            },
        ],
        stop_reason: Some("tool_use".into()),
        usage: None,
    };
    let resp = parse_response(raw).unwrap();
    assert!(resp.has_tool_calls());
    assert_eq!(resp.message.content.as_deref(), Some("Let me calculate"));
}

#[test]
fn test_anthropic_new_default() {
    let model = Anthropic::with_api_key("sonnet-4-20250514", "");
    assert_eq!(model.model_id, "sonnet-4-20250514");
    assert_eq!(model.base_url, DEFAULT_BASE_URL);
    assert_eq!(model.messages_url(), "https://api.anthropic.com/v1/messages");
}

#[test]
fn test_with_timeout_sets_timeout() {
    let timeout = Duration::from_secs(60);
    let model = model().with_timeout(timeout);
    assert_eq!(model.timeout, Some(timeout));
}

#[test]
fn test_with_max_retries_sets_retries() {
    assert_eq!(model().with_max_retries(5).max_retries, 5);
}

#[test]
fn test_with_prompt_caching_enables_caching() {
    assert!(model().with_prompt_caching().use_prompt_caching);
}

#[test]
fn test_builder_chain_preserves_all_options() {
    let timeout = Duration::from_secs(30);
    let model = model()
        .with_base_url("https://custom.example.com")
        .with_timeout(timeout)
        .with_max_retries(2)
        .with_prompt_caching();
    assert_eq!(model.model_id, "test");
    assert_eq!(model.base_url, "https://custom.example.com");
    assert_eq!(model.timeout, Some(timeout));
    assert_eq!(model.max_retries, 2);
    assert!(model.use_prompt_caching);
}

#[test]
fn anthropic_test_tool_spec_conversion() {
    let tool = make_tool(&spec("search", "Web search"), false);
    assert_eq!(tool.get("name").unwrap().as_str(), Some("search"));
    assert_eq!(tool.get("description").unwrap().as_str(), Some("Web search"));
    assert!(tool.get("input_schema").unwrap().equals(&json(r#"{"type": "object"}"#)));
}

#[test]
fn test_message_conversion_preserves_system_prompt() {
    let request = ChatRequest {
        messages: vec![Message::system("Be helpful"), Message::user("hi")],
        tools: vec![],
        temperature: None,
        max_tokens: None,
    };
    let body = model().build_request_body(&request, false);
    assert_eq!(body.get("system").unwrap().as_str(), Some("Be helpful"));
    assert_eq!(body.get("messages").unwrap().as_array().unwrap().len(), 1);
}

#[test]
fn test_prompt_caching_system_block() {
    let request = ChatRequest {
        messages: vec![Message::system("Be helpful"), Message::user("hi")],
        tools: vec![],
        temperature: None,
        max_tokens: None,
    };
    let body = model().with_prompt_caching().build_request_body(&request, false);
    let blocks = body.get("system").unwrap().as_array().unwrap();
    assert_eq!(blocks[0].get("type").unwrap().as_str(), Some("text"));
    assert_eq!(blocks[0].get("text").unwrap().as_str(), Some("Be helpful"));
    assert!(matches!(blocks[0].get("cache_control").unwrap(), Json::Object(_)));
}

#[test]
fn test_assistant_text_preserved_with_tool_call() {
    let assistant = Message {
        role: Role::Assistant,
        content: Some("Let me look that up.".to_string()),
        tool_calls: vec![ToolCall {
            id: "toolu_1".into(),
            name: "search".into(),
            arguments: json(r#"{"q": "rust"}"#),
        }],
        tool_call_id: None,
    };
    let request = ChatRequest::new(vec![Message::user("hi"), assistant]);
    let body = model().build_request_body(&request, false);
    let blocks = body.get("messages").unwrap().as_array().unwrap()[1]
        .get("content")
        .unwrap()
        .as_array()
        .unwrap();
    assert_eq!(blocks.len(), 2, "text block + tool_use block");
    assert_eq!(blocks[0].get("type").unwrap().as_str(), Some("text"));
    assert_eq!(blocks[0].get("text").unwrap().as_str(), Some("Let me look that up."));
    assert_eq!(blocks[1].get("type").unwrap().as_str(), Some("tool_use"));
    assert_eq!(blocks[1].get("id").unwrap().as_str(), Some("toolu_1"));
    assert_eq!(blocks[1].get("name").unwrap().as_str(), Some("search"));
}

#[test]
fn test_assistant_tool_call_without_text_has_no_text_block() {
    let assistant = Message::assistant_with_tool_calls(vec![ToolCall {
        id: "toolu_1".into(),
        name: "search".into(),
        arguments: json("{}"),
    }]);
    let body = model().build_request_body(&ChatRequest::new(vec![assistant]), false);
    let blocks = body.get("messages").unwrap().as_array().unwrap()[0]
        .get("content")
        .unwrap()
        .as_array()
        .unwrap();
    assert_eq!(blocks.len(), 1, "only the tool_use block");
    assert_eq!(blocks[0].get("type").unwrap().as_str(), Some("tool_use"));
}

#[test]
fn test_prompt_caching_tool_cache_control() {
    let request = ChatRequest {
        messages: vec![Message::user("hi")],
        tools: vec![spec("a", "first"), spec("b", "second")],
        temperature: None,
        max_tokens: None,
    };
    let body = model().with_prompt_caching().build_request_body(&request, false);
    let tools = body.get("tools").unwrap().as_array().unwrap();
    assert!(tools[0].get("cache_control").is_none(), "only last tool gets cache_control");
    assert!(tools[1].get("cache_control").is_some(), "last tool should have cache_control");
}

#[test]
fn the_whole_request_is_exact() {
    let request = ChatRequest {
        messages: vec![
            Message::user("hi"),
            Message::tool_result("toolu_1", "42"),
        ],
        tools: vec![spec("a", "first")],
        temperature: Some(json("0.5")),
        max_tokens: Some(9),
    };
    let body = model().build_request_body(&request, true);
    assert!(
        body.equals(&json(
            r#"{"model":"test","max_tokens":9,"temperature":0.5,"stream":true,
                "messages":[{"role":"user","content":"hi"},
                  {"role":"user","content":[{"type":"tool_result","tool_use_id":"toolu_1","content":"42"}]}],
                "tools":[{"name":"a","description":"first","input_schema":{"type":"object"}}]}"#
        )),
        "{}",
        body.to_text()
    );
}

#[test]
fn answers_are_retried_or_given_back() {
    let m = model().with_max_retries(2);
    for code in [429u16, 529, 500, 599] {
        assert_eq!(m.after_answer(1, code, "x", "y"), Exchange::Retry);
        assert_eq!(
            m.after_answer(2, code, "418 words", "y"),
            Exchange::Finished(Err(DaimonError::Model(
                "Anthropic API error (418 words): y".to_string()
            )))
        );
    }
    assert!(matches!(m.after_answer(0, 400, "x", "y"), Exchange::Finished(Err(_))));
    let body = r#"{"content":[{"type":"text","text":"ok"}],"stop_reason":"max_tokens","usage":{"input_tokens":3,"output_tokens":4}}"#;
    match m.after_answer(0, 200, "", body) {
        Exchange::Finished(Ok(r)) => {
            assert_eq!(r.text(), "ok");
            assert_eq!(r.stop_reason, StopReason::MaxTokens);
            assert_eq!(r.usage.unwrap().output_tokens, 4);
        }
        other => panic!("{other:?}"),
    }
    assert!(m.stream_refused(200, "", "").is_none());
    assert_eq!(
        m.stream_refused(404, "404 Not Found", "b").unwrap().message(),
        "Anthropic API error (404 Not Found): b"
    );
    assert!(matches!(response_from_body("x"), Err(DaimonError::Serialization(_))));
    assert_eq!(
        response_from_body("{}").unwrap_err(),
        DaimonError::Serialization("not an Anthropic response".to_string())
    );
    assert!(read_response(&json(r#"{"content":[{"type":"odd"}]}"#)).is_none());
}

fn event(text: &str) -> AnthropicStreamEvent {
    read_stream_event(&json(text)).unwrap()
}

#[test]
fn test_stream_event_tool_use_start_maps_index_to_id() {
    let mut idx = HashMap::new();
    let out = handle_anthropic_stream_event(
        &mut idx,
        event(
            r#"{"type":"content_block_start","index":0,
                "content_block":{"type":"tool_use","id":"toolu_A","name":"f","input":{}}}"#,
        ),
    );
    assert_eq!(out.len(), 1);
    match &out[0] {
        StreamEvent::ToolCallStart { id, name } => {
            assert_eq!(id, "toolu_A");
            assert_eq!(name, "f");
        }
        other => panic!("expected ToolCallStart, got {other:?}"),
    }
    assert_eq!(idx.get(&0).map(String::as_str), Some("toolu_A"));
}

#[test]
fn test_stream_event_deltas_carry_correlated_id_and_concatenate() {
    let mut idx = HashMap::new();
    handle_anthropic_stream_event(
        &mut idx,
        event(
            r#"{"type":"content_block_start","index":0,
                "content_block":{"type":"tool_use","id":"toolu_A","name":"f","input":{}}}"#,
        ),
    );
    let mut assembled = String::new();
    for fragment in [r#"{\"x\":"#, "1}"] {
        let text = format!(
            r#"{{"type":"content_block_delta","index":0,
                 "delta":{{"type":"input_json_delta","partial_json":"{fragment}"}}}}"#
        );
        let out = handle_anthropic_stream_event(&mut idx, event(&text));
        assert_eq!(out.len(), 1);
        match &out[0] {
            StreamEvent::ToolCallDelta {
                id,
                arguments_delta,
            } => {
                assert_eq!(id, "toolu_A", "delta must resolve to the opening block's id");
                assembled.push_str(arguments_delta);
            }
            other => panic!("expected ToolCallDelta, got {other:?}"),
        }
    }
    assert_eq!(assembled, r#"{"x":1}"#);
}

#[test]
fn test_stream_event_stop_emits_end_and_clears_mapping() {
    let mut idx = HashMap::new();
    handle_anthropic_stream_event(
        &mut idx,
        event(
            r#"{"type":"content_block_start","index":0,
                "content_block":{"type":"tool_use","id":"toolu_A","name":"f","input":{}}}"#,
        ),
    );
    let out = handle_anthropic_stream_event(
        &mut idx,
        event(r#"{"type":"content_block_stop","index":0}"#),
    );
    assert_eq!(out.len(), 1);
    match &out[0] {
        StreamEvent::ToolCallEnd { id } => assert_eq!(id, "toolu_A"),
        other => panic!("expected ToolCallEnd, got {other:?}"),
    }
    assert!(idx.is_empty(), "index mapping must be cleared on stop");
}

#[test]
fn test_stream_event_full_tool_call_lifecycle() {
    let mut idx = HashMap::new();
    let mut events = Vec::new();
    for text in [
        r#"{"type":"message_start"}"#,
        r#"{"type":"content_block_start","index":0,
            "content_block":{"type":"tool_use","id":"toolu_A","name":"f","input":{}}}"#,
        r#"{"type":"content_block_delta","index":0,
            "delta":{"type":"input_json_delta","partial_json":"{\"x\":"}}"#,
        r#"{"type":"content_block_delta","index":0,
            "delta":{"type":"input_json_delta","partial_json":"1}"}}"#,
        r#"{"type":"content_block_stop","index":0}"#,
        r#"{"type":"message_delta"}"#,
        r#"{"type":"message_stop"}"#,
    ] {
        events.extend(handle_anthropic_stream_event(&mut idx, event(text)));
    }
    assert_eq!(events.len(), 5, "got {events:?}");
    assert!(matches!(&events[0], StreamEvent::ToolCallStart { id, name }
        if id == "toolu_A" && name == "f"));
    assert!(matches!(&events[1], StreamEvent::ToolCallDelta { id, .. } if id == "toolu_A"));
    assert!(matches!(&events[2], StreamEvent::ToolCallDelta { id, .. } if id == "toolu_A"));
    assert!(matches!(&events[3], StreamEvent::ToolCallEnd { id } if id == "toolu_A"));
    assert!(matches!(&events[4], StreamEvent::Done));
}

#[test]
fn test_stream_event_text_block_index_not_confused_with_tool() {
    let mut idx = HashMap::new();
    let start_text = handle_anthropic_stream_event(
        &mut idx,
        event(
            r#"{"type":"content_block_start","index":0,
                 "content_block":{"type":"text","text":""}}"#,
        ),
    );
    assert!(start_text.is_empty(), "text block start yields no StreamEvent");
    assert!(idx.is_empty(), "text block index must not be mapped to a tool id");
    let text_delta = handle_anthropic_stream_event(
        &mut idx,
        event(
            r#"{"type":"content_block_delta","index":0,
                 "delta":{"type":"text_delta","text":"hi"}}"#,
        ),
    );
    assert!(matches!(text_delta.as_slice(), [StreamEvent::TextDelta(t)] if t == "hi"));
    handle_anthropic_stream_event(
        &mut idx,
        event(
            r#"{"type":"content_block_start","index":1,
                 "content_block":{"type":"tool_use","id":"toolu_B","name":"g","input":{}}}"#,
        ),
    );
    let tool_delta = handle_anthropic_stream_event(
        &mut idx,
        event(
            r#"{"type":"content_block_delta","index":1,
                 "delta":{"type":"input_json_delta","partial_json":"{}"}}"#,
        ),
    );
    assert!(
        matches!(tool_delta.as_slice(), [StreamEvent::ToolCallDelta { id, .. }] if id == "toolu_B"),
        "tool delta at index 1 must resolve to toolu_B, got {tool_delta:?}"
    );
}

#[test]
fn test_stream_event_interleaved_tool_blocks_route_by_index() {
    let mut idx = HashMap::new();
    for text in [
        r#"{"type":"content_block_start","index":0,
            "content_block":{"type":"tool_use","id":"toolu_A","name":"f","input":{}}}"#,
        r#"{"type":"content_block_start","index":1,
            "content_block":{"type":"tool_use","id":"toolu_B","name":"g","input":{}}}"#,
    ] {
        handle_anthropic_stream_event(&mut idx, event(text));
    }
    let mut delta = |index: u64, piece: &str| {
        let text = format!(
            r#"{{"type":"content_block_delta","index":{index},
                 "delta":{{"type":"input_json_delta","partial_json":"{piece}"}}}}"#
        );
        handle_anthropic_stream_event(&mut idx, event(&text))
    };
    let d0 = delta(0, "a");
    let d1 = delta(1, "b");
    let d0b = delta(0, "c");
    assert!(matches!(d0.as_slice(),
        [StreamEvent::ToolCallDelta { id, arguments_delta }] if id == "toolu_A" && arguments_delta == "a"));
    assert!(matches!(d1.as_slice(),
        [StreamEvent::ToolCallDelta { id, arguments_delta }] if id == "toolu_B" && arguments_delta == "b"));
    assert!(matches!(d0b.as_slice(),
        [StreamEvent::ToolCallDelta { id, arguments_delta }] if id == "toolu_A" && arguments_delta == "c"));
}

#[test]
fn a_stream_may_be_cut_anywhere() {
    let text = "event: x\ndata: {\"type\":\"content_block_start\",\"index\":0,\"content_block\":{\"type\":\"tool_use\",\"id\":\"A\",\"name\":\"f\"}}\n\n\
                data: {\"type\":\"content_block_delta\",\"index\":0,\"delta\":{\"partial_json\":\"\u{e9}\"}}\n\
                data: garbled\n\
                data: {\"type\":\"message_stop\"}";
    let mut whole = AnthropicStream::new();
    let mut expected = whole.push(text.as_bytes());
    expected.extend(whole.finish());
    assert_eq!(expected.len(), 3);
    assert!(matches!(&expected[1], StreamEvent::ToolCallDelta { arguments_delta, .. } if arguments_delta == "\u{e9}"));
    for cut in 0..text.len() {
        let mut s = AnthropicStream::new();
        let mut got = s.push(&text.as_bytes()[..cut]);
        got.extend(s.push(&text.as_bytes()[cut..]));
        got.extend(s.finish());
        assert_eq!(got, expected, "cut at {cut}");
    }
}

#[test]
fn anthropic_records_may_be_written_as_arrays() {
    let named = r#"{"content":[{"type":"text","text":"hi"},{"type":"tool_use","id":"i","name":"n","input":{"a":1}}],"stop_reason":null,"usage":{"input_tokens":1,"output_tokens":2}}"#;
    let placed = r#"[[["text","hi"],["tool_use","i","n",{"a":1}]],null,[1,2]]"#;
    let read = |text: &str| read_response(&Json::parse(text).unwrap());
    assert!(read(named).is_some());
    assert_eq!(read(placed), read(named));
    assert!(read("[[],null]").is_none());
    assert!(read("[[],null,null,null]").is_none());
    assert!(read(r#"[[["text","hi",1]],null,null]"#).is_none());
    let event = |text: &str| read_stream_event(&Json::parse(text).unwrap());
    assert_eq!(
        event(r#"["content_block_start",0,["tool_use","i","n"],null]"#),
        event(r#"{"type":"content_block_start","index":0,"content_block":{"type":"tool_use","id":"i","name":"n"}}"#)
    );
    assert!(event(r#"["ping",null,null,["x",null]]"#).unwrap().delta.is_some());
    assert!(event(r#"["ping"]"#).is_none());
}
