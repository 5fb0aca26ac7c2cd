use daimon::error::DaimonError;
use daimon::json::Json;
use daimon::model::openai::{
    backoff_ms, parse_response, read_response, response_from_body, Exchange, OpenAi, OpenAiChoice,
    OpenAiChoiceMessage, OpenAiFunction, OpenAiMessage, OpenAiResponse, OpenAiStream, OpenAiTool,
    OpenAiToolCall, OpenAiUsage, DEFAULT_BASE_URL, DEFAULT_MAX_RETRIES,
};
use daimon::model::types::{ChatRequest, Message, StopReason, ToolSpec};
use daimon::stream::StreamEvent;
use daimon::tool::ToolCall;
use std::time::Duration;

fn json(text: &str) -> Json {
    Json::parse(text).unwrap()
}

fn model() -> OpenAi {
    OpenAi::with_api_key("gpt-4o", "key")
}

#[test]
fn test_message_conversion_user() {
    let oai = OpenAiMessage::of(&Message::user("hello"));
    assert_eq!(oai.role, "user");
    assert_eq!(oai.content.as_deref(), Some("hello"));
    assert!(oai.tool_calls.is_none());
}

#[test]
fn test_message_conversion_assistant_with_tools() {
    let msg = Message::assistant_with_tool_calls(vec![ToolCall {
        id: "tc_1".into(),
        name: "calc".into(),
        arguments: json(r#"{"x": 1}"#),
    }]);
    let oai = OpenAiMessage::of(&msg);
    assert_eq!(oai.role, "assistant");
    assert!(oai.tool_calls.is_some());
    let calls = oai.tool_calls.unwrap();
    assert_eq!(calls.len(), 1);
    assert_eq!(calls[0].function.arguments, r#"{"x":1}"#);
}

#[test]
fn test_message_conversion_tool_result() {
    let oai = OpenAiMessage::of(&Message::tool_result("tc_1", "42"));
    assert_eq!(oai.role, "tool");
    assert_eq!(oai.tool_call_id.as_deref(), Some("tc_1"));
    assert_eq!(oai.content.as_deref(), Some("42"));
}

#[test]
fn openai_test_tool_spec_conversion() {
    let spec = ToolSpec {
        name: "calc".into(),
        description: "Calculator".into(),
        parameters: json(r#"{"type": "object"}"#),
    };
    let oai = OpenAiTool::of(&spec);
    assert_eq!(oai.kind, "function");
    assert_eq!(oai.function.name, "calc");
}

#[test]
fn test_parse_response_end_turn() {
    let raw = OpenAiResponse {
        choices: vec![OpenAiChoice {
            message: OpenAiChoiceMessage {
                content: Some("hello".into()),
                tool_calls: None,
            },
            finish_reason: Some("stop".into()),
        }],
        usage: Some(OpenAiUsage {
            prompt_tokens: 10,
            completion_tokens: 5,
            prompt_tokens_details: None,
        }),
    };
    let resp = parse_response(raw).unwrap();
    assert_eq!(resp.text(), "hello");
    assert_eq!(resp.stop_reason, StopReason::EndTurn);
    assert!(!resp.has_tool_calls());
    assert_eq!(resp.usage.unwrap().input_tokens, 10);
}

#[test]
fn openai_test_parse_response_tool_use() {
    let raw = OpenAiResponse {
        choices: vec![OpenAiChoice {
            message: OpenAiChoiceMessage {
                content: None,
                tool_calls: Some(vec![OpenAiToolCall {
                    id: "tc_1".into(),
                    kind: "function".into(),
                    function: OpenAiFunction {
                        name: "calc".into(),
                        arguments: r#"{"x":1}"#.into(),
                    },
                    index: 0,
                }]),
            },
            finish_reason: Some("tool_calls".into()),
        }],
        usage: None,
    };
    let resp = parse_response(raw).unwrap();
    assert!(resp.has_tool_calls());
    assert_eq!(resp.tool_calls()[0].name, "calc");
    assert!(resp.tool_calls()[0].arguments.equals(&json(r#"{"x":1}"#)));
    assert_eq!(resp.stop_reason, StopReason::ToolUse);
}

#[test]
fn test_parse_response_no_choices() {
    let raw = OpenAiResponse {
        choices: vec![],
        usage: None,
    };
    assert!(parse_response(raw).is_err());
}

#[test]
fn test_openai_new_default() {
    let model = OpenAi::with_api_key("gpt-4o", "");
    assert_eq!(model.model_id, "gpt-4o");
    assert_eq!(model.base_url, DEFAULT_BASE_URL);
    assert_eq!(model.max_retries, DEFAULT_MAX_RETRIES);
}

#[test]
fn test_openai_with_base_url() {
    let model = model().with_base_url("http://localhost:8080");
    assert_eq!(model.base_url, "http://localhost:8080");
    assert_eq!(model.completions_url(), "http://localhost:8080/chat/completions");
    assert_eq!(model.authorization(), "Bearer key");
}

#[test]
fn test_with_timeout() {
    let model = model().with_timeout(Duration::from_secs(60));
    assert_eq!(model.timeout, Some(Duration::from_secs(60)));
}

#[test]
fn test_with_max_retries() {
    assert_eq!(model().with_max_retries(5).max_retries, 5);
}

#[test]
fn test_with_response_format() {
    let model = model().with_response_format("json_object");
    assert_eq!(model.response_format.as_deref(), Some("json_object"));
}

#[test]
fn test_with_parallel_tool_calls() {
    assert_eq!(model().with_parallel_tool_calls(true).parallel_tool_calls, Some(true));
}

#[test]
fn the_request_holds_what_was_asked() {
    let request = ChatRequest {
        messages: vec![Message::system("s"), Message::user("u")],
        tools: vec![],
        temperature: Some(json("0.5")),
        max_tokens: Some(7),
    };
    let body = model().with_response_format("json_object").build_request_body(&request, true);
    assert_eq!(body.get("model").unwrap().as_str(), Some("gpt-4o"));
    assert_eq!(body.get("max_tokens").unwrap().as_u64(), Some(7));
    assert_eq!(body.get("stream").unwrap().as_bool(), Some(true));
    assert_eq!(
        body.get("response_format").unwrap().get("type").unwrap().as_str(),
        Some("json_object")
    );
    let messages = body.get("messages").unwrap().as_array().unwrap();
    assert!(messages[0].equals(&json(r#"{"role":"system","content":"s"}"#)), "{}", messages[0].to_text());
    assert_eq!(messages.len(), 2);
}

#[test]
fn waits_double() {
    let waits: Vec<u64> = (1..5).map(backoff_ms).collect();
    assert!(waits.windows(2).all(|w| w[1] == 2 * w[0]), "{waits:?}");
}

#[test]
fn answers_are_retried_until_the_last_attempt() {
    let m = model().with_max_retries(1);
    assert_eq!(m.after_answer(0, 429, "x", "y"), Exchange::Retry);
    assert_eq!(m.after_answer(0, 503, "x", "y"), Exchange::Retry);
    assert!(matches!(m.after_answer(1, 503, "503 s", "b"), Exchange::Finished(Err(DaimonError::Model(w))) if w.contains("503 s") && w.contains("b")));
    assert!(matches!(m.after_answer(0, 401, "x", "y"), Exchange::Finished(Err(_))));
    assert!(m.stream_refused(200, "", "").is_none());
    assert!(m.stream_refused(500, "", "").is_some());
    assert!(response_from_body("x").is_err());
    assert!(response_from_body("{}").is_err());
}

#[test]
fn a_stream_may_be_cut_between_characters() {
    let text = "data: {\"choices\":[{\"delta\":{\"content\":\"hi\"}}]}\n\n\
                data: {\"choices\":[{\"delta\":{\"tool_calls\":[{\"index\":0,\"id\":\"c\",\"function\":{\"name\":\"f\",\"arguments\":\"\"}}]}}]}\n\n\
                data: {\"choices\":[{\"delta\":{\"tool_calls\":[{\"index\":0,\"function\":{\"arguments\":\"{}\"}}]}}]}\n\n\
                data: [DONE]\n\n";
    let mut whole = OpenAiStream::new();
    let expected = whole.push(text.as_bytes());
    assert!(matches!(&expected[0], StreamEvent::TextDelta(t) if t == "hi"));
    assert!(expected.iter().any(|e| matches!(e, StreamEvent::ToolCallStart { name, .. } if name == "f")));
    assert!(matches!(expected.last(), Some(StreamEvent::Done)));
    for cut in 0..text.len() {
        let mut s = OpenAiStream::new();
        let mut got = s.push_text(&text[..cut]);
        got.extend(s.push(&text.as_bytes()[cut..]));
        assert_eq!(got, expected, "cut at {cut}");
    }
}

#[test]
fn openai_records_may_be_written_as_arrays() {
    let read = |text: &str| read_response(&Json::parse(text).unwrap());
    assert_eq!(
        read(r#"[[[["hi",[["c","function",["f","{}"],1],[]]],"stop"]],[1,2,[3]]]"#).unwrap(),
        read(
            r#"{"choices":[{"message":{"content":"hi","tool_calls":[{"id":"c","type":"function","function":{"name":"f","arguments":"{}"},"index":1},{}]},"finish_reason":"stop"}],"usage":{"prompt_tokens":1,"completion_tokens":2,"prompt_tokens_details":{"cached_tokens":3}}}"#
        )
        .unwrap()
    );
    assert!(read("[[]]").is_none());
    assert!(read("[[],null,1]").is_none());
    let line = |text: &str| OpenAiStream::new().push(format!("data: {text}\n").as_bytes());
    assert_eq!(
        line(r#"[[[["a",[[0,["f",null]]]]]]]"#),
        line(
            r#"{"choices":[{"delta":{"content":"a","tool_calls":[{"index":0,"function":{"name":"f"}}]}}]}"#
        )
    );
    assert!(!line(r#"[[[["a",null]]]]"#).is_empty());
    assert!(line(r#"[[[["a"]]]]"#).is_empty());
}
