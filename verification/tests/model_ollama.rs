use daimon::error::DaimonError;
use daimon::json::Json;
use daimon::model::ollama::{
    convert_message, convert_tool_spec, parse_response, read_body, record_from_text,
    response_from_answer, Ollama, OllamaFunction, OllamaMessage, OllamaResponse, OllamaStream,
    OllamaToolCall, DEFAULT_TIMEOUT_SECS,
};
use daimon::model::types::{ChatRequest, Message, StopReason, ToolSpec};
use daimon::stream::StreamEvent;
use daimon::tool::ToolCall;
use std::time::Duration;

fn json(text: &str) -> Json {
    Json::parse(text).unwrap()
}

#[test]
fn test_ollama_new() {
    let model = Ollama::new("llama3.1");
    assert_eq!(model.model, "llama3.1");
    assert_eq!(model.base_url, "http://localhost:11434");
    assert_eq!(model.chat_url(), "http://localhost:11434/api/chat");
    assert_eq!(DEFAULT_TIMEOUT_SECS, 300);
}

#[test]
fn test_with_base_url() {
    let model = Ollama::new("llama3.1").with_base_url("http://remote:11434/");
    assert_eq!(model.base_url, "http://remote:11434");
}

#[test]
fn test_convert_message_user() {
    let json = convert_message(&Message::user("hello"));
    assert_eq!(json.get("role").unwrap().as_str(), Some("user"));
    assert_eq!(json.get("content").unwrap().as_str(), Some("hello"));
}

#[test]
fn test_convert_message_assistant_with_tool_calls() {
    let msg = Message::assistant_with_tool_calls(vec![ToolCall {
        id: "1".into(),
        name: "test".into(),
        arguments: json(r#"{"a": 1}"#),
    }]);
    let json = convert_message(&msg);
    assert_eq!(json.get("role").unwrap().as_str(), Some("assistant"));
    assert!(json.get("tool_calls").unwrap().as_array().is_some());
}

#[test]
fn test_convert_tool_spec() {
    let spec = ToolSpec {
        name: "calc".into(),
        description: "Calculator".into(),
        parameters: json(r#"{"type": "object"}"#),
    };
    let json = convert_tool_spec(&spec);
    assert_eq!(json.get("type").unwrap().as_str(), Some("function"));
    assert_eq!(json.get("function").unwrap().get("name").unwrap().as_str(), Some("calc"));
}

#[test]
fn ollama_test_parse_response_text() {
    let resp = OllamaResponse {
        message: Some(OllamaMessage {
            content: Some("Hello!".into()),
            tool_calls: vec![],
        }),
        done: true,
        prompt_eval_count: Some(10),
        eval_count: Some(5),
    };
    let result = parse_response(resp).unwrap();
    assert_eq!(result.message.content.as_deref(), Some("Hello!"));
    assert_eq!(result.stop_reason, StopReason::EndTurn);
    assert_eq!(result.usage.as_ref().unwrap().input_tokens, 10);
}

#[test]
fn test_parse_response_tool_call() {
    let resp = OllamaResponse {
        message: Some(OllamaMessage {
            content: None,
            tool_calls: vec![OllamaToolCall {
                function: OllamaFunction {
                    name: "calc".into(),
                    arguments: json(r#"{"expr": "1+1"}"#),
                },
            }],
        }),
        done: true,
        prompt_eval_count: None,
        eval_count: None,
    };
    let result = parse_response(resp).unwrap();
    assert_eq!(result.stop_reason, StopReason::ToolUse);
    assert_eq!(result.message.tool_calls.len(), 1);
    assert_eq!(result.message.tool_calls[0].name, "calc");
}

#[test]
fn test_build_request_body() {
    let model = Ollama::new("llama3.1");
    let body = model.build_request_body(&ChatRequest::new(vec![Message::user("hi")]), false);
    assert_eq!(body.get("model").unwrap().as_str(), Some("llama3.1"));
    assert_eq!(body.get("stream").unwrap().as_bool(), Some(false));
}

#[test]
fn test_build_request_body_with_tools() {
    let request = ChatRequest {
        messages: vec![Message::user("hi")],
        tools: vec![ToolSpec {
            name: "test".into(),
            description: "test".into(),
            parameters: json(r#"{"type": "object"}"#),
        }],
        temperature: Some(json("0.5")),
        max_tokens: None,
    };
    let body = Ollama::new("llama3.1").build_request_body(&request, true);
    assert!(body.get("tools").unwrap().as_array().is_some());
    assert!(body.get("options").unwrap().get("temperature").unwrap().equals(&json("0.5")));
}

#[test]
fn test_build_request_body_maps_max_tokens() {
    let request = ChatRequest {
        messages: vec![Message::user("hi")],
        tools: vec![],
        temperature: Some(json("0.5")),
        max_tokens: Some(256),
    };
    let body = Ollama::new("llama3.1").build_request_body(&request, false);
    let options = body.get("options").unwrap();
    assert_eq!(options.get("num_predict").unwrap().as_u64(), Some(256));
    assert!(options.get("temperature").unwrap().equals(&json("0.5")));
}

#[test]
fn test_build_request_body_no_max_tokens() {
    let body =
        Ollama::new("llama3.1").build_request_body(&ChatRequest::new(vec![Message::user("hi")]), false);
    assert!(body
        .get("options")
        .and_then(|o| o.get("num_predict"))
        .map(|v| v.is_null())
        .unwrap_or(true));
}

#[test]
fn the_settings_are_kept() {
    let m = Ollama::new("m")
        .with_timeout(Duration::from_secs(9))
        .with_keep_alive("5m");
    assert_eq!(m.timeout, Some(Duration::from_secs(9)));
    let body = m.build_request_body(&ChatRequest::new(vec![]), true);
    assert_eq!(body.get("keep_alive").unwrap().as_str(), Some("5m"));
    assert_eq!(m.model_id(), "m");
}

#[test]
fn answers_are_read_or_refused() {
    let ok = response_from_answer(
        200,
        "200 OK",
        r#"{"message":{"role":"assistant","content":"hi"},"done":true,"eval_count":2}"#,
    )
    .unwrap();
    assert_eq!(ok.text(), "hi");
    assert!(matches!(
        response_from_answer(500, "500 Internal Server Error", "oops"),
        Err(DaimonError::Model(m)) if m.contains("500 Internal Server Error") && m.contains("oops")
    ));
    assert!(response_from_answer(200, "", "nope").is_err());
    assert!(response_from_answer(200, "", "[]").is_err());
    assert!(record_from_text("{").is_err());
    assert!(record_from_text("{\"done\":1}").is_err());
}

fn run(chunks: &[&[u8]]) -> (Vec<StreamEvent>, Option<DaimonError>) {
    let mut s = OllamaStream::new();
    let mut events = Vec::new();
    for c in chunks {
        let step = s.push(c);
        events.extend(step.events);
        if step.failure.is_some() {
            return (events, step.failure);
        }
    }
    let step = s.finish();
    events.extend(step.events);
    (events, step.failure)
}

#[test]
fn a_stream_becomes_events_however_it_is_cut() {
    let text = "{\"message\":{\"content\":\"h\u{e9}\"},\"done\":false}\n\
                {\"message\":{\"content\":\"\",\"tool_calls\":[{\"function\":{\"name\":\"f\",\"arguments\":{\"a\":1}}},{\"function\":{\"name\":\"g\",\"arguments\":{}}}]},\"done\":false}\n\
                {\"done\":true}";
    let (whole, failure) = run(&[text.as_bytes()]);
    assert!(failure.is_none());
    assert!(matches!(&whole[0], StreamEvent::TextDelta(t) if t == "h\u{e9}"));
    let starts: Vec<&str> = whole
        .iter()
        .filter_map(|e| match e {
            StreamEvent::ToolCallStart { id, .. } => Some(id.as_str()),
            _ => None,
        })
        .collect();
    assert_eq!(starts.len(), 2);
    assert_ne!(starts[0], starts[1]);
    assert!(matches!(whole.last(), Some(StreamEvent::Done)));
    for cut in 0..text.len() {
        let (got, failure) = run(&[&text.as_bytes()[..cut], &text.as_bytes()[cut..]]);
        assert!(failure.is_none());
        assert_eq!(got, whole, "cut at {cut}");
    }
}

#[test]
fn a_garbled_line_ends_the_stream() {
    let (events, failure) = run(&[b"{\"message\":{\"content\":\"a\"}}\nnot json\n{\"done\":true}\n"]);
    assert_eq!(events.len(), 1);
    assert!(failure.is_some());
}

#[test]
fn calls_are_numbered_over_the_whole_stream() {
    let call = |name: &str| {
        format!(
            "{{\"message\":{{\"content\":\"x\",\"tool_calls\":[{{\"function\":{{\"name\":\"{name}\",\"arguments\":{{}}}}}}]}},\"done\":false}}\n"
        )
    };
    let body = format!("{}{}\n{}", call("f"), call("g"), call("h"));
    let (events, failure) = run(&[body.as_bytes()]);
    assert!(failure.is_none());
    for (i, name) in ["f", "g", "h"].iter().enumerate() {
        let expected = format!("ollama_tc_{i}");
        let at = 4 * i;
        assert!(matches!(&events[at], StreamEvent::ToolCallStart { id, name: n }
            if id == &expected && n == name));
        assert!(matches!(&events[at + 1], StreamEvent::ToolCallDelta { id, arguments_delta }
            if id == &expected && arguments_delta == "{}"));
        assert!(matches!(&events[at + 2], StreamEvent::ToolCallEnd { id } if id == &expected));
        assert!(matches!(&events[at + 3], StreamEvent::TextDelta(t) if t == "x"));
    }
    assert_eq!(events.len(), 12);
    let open = &body[..body.len() - 1];
    assert_eq!(read_body(body.as_bytes()), read_body(open.as_bytes()));
    assert_eq!(read_body(open.as_bytes()).events, events);
    assert_eq!(run(&[open.as_bytes()]), (events, None));
    assert_eq!(run(&[b"\n\n"]), run(&[b"\n"]));
    assert_eq!(run(&[b"nonsense\n"]), run(&[b"nonsense"]));
}

#[test]
fn ollama_records_may_be_written_as_arrays() {
    let read = |text: &str| record_from_text(text).unwrap();
    assert_eq!(
        read(r#"[["hi",[[["f",{"a":1}]],[["g"]]]],true,3]"#),
        read(
            r#"{"message":{"content":"hi","tool_calls":[{"function":{"name":"f","arguments":{"a":1}}},{"function":{"name":"g"}}]},"done":true,"prompt_eval_count":3}"#
        )
    );
    assert_eq!(read("[]"), read("{}"));
    assert!(record_from_text("[null,true,1,2,3]").is_err());
    assert!(record_from_text("[[null,[[]]]]").is_err());
}
