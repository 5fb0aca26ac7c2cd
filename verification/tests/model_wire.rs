use daimon::json::Json;
use daimon::memory::sqlite::str_to_role;
use daimon::model::embedding::{
    ollama_vectors_from_answer, openai_vectors_from_answer, OllamaEmbedding, OpenAiEmbedding,
};
use daimon::model::line_buffer::LineBuffer;
use daimon::model::types::{Message, Role};
use daimon::model::wire::{
    message_from_json, message_from_text, message_to_json, message_to_text, role_named, role_to_str,
};
use daimon::tool::ToolCall;

fn json(text: &str) -> Json {
    Json::parse(text).unwrap()
}

#[test]
fn test_role_round_trip() {
    for role in [Role::System, Role::User, Role::Assistant, Role::Tool] {
        assert_eq!(str_to_role(role_to_str(&role)), role);
    }
}

#[test]
fn roles_are_named_in_lower_case() {
    assert_eq!(role_to_str(&Role::Assistant), "assistant");
    assert_eq!(role_named("tool"), Some(Role::Tool));
    assert_eq!(role_named("Tool"), None);
    assert_eq!(str_to_role("nobody"), Role::User);
}

#[test]
fn messages_come_back_as_they_were() {
    let mut m = Message::assistant_with_tool_calls(vec![ToolCall {
        id: "1".into(),
        name: "f".into(),
        arguments: json(r#"{"a":[1,-2,"x",null,true]}"#),
    }]);
    m.content = Some("text \u{1F600} \"quoted\"".into());
    for m in [m, Message::user(""), Message::tool_result("id", "r")] {
        let back = message_from_text(&message_to_text(&m)).unwrap();
        assert_eq!(back.role, m.role);
        assert_eq!(back.content, m.content);
        assert_eq!(back.tool_call_id, m.tool_call_id);
        assert_eq!(back.tool_calls.len(), m.tool_calls.len());
        for (a, b) in back.tool_calls.iter().zip(&m.tool_calls) {
            assert_eq!((&a.id, &a.name), (&b.id, &b.name));
            assert!(a.arguments.equals(&b.arguments));
        }
        assert!(message_from_json(&message_to_json(&m)).is_some());
    }
    assert!(message_from_text("{").is_err());
    assert!(message_from_text(r#"{"role":"nobody"}"#).is_err());
}

#[test]
fn lines_are_cut_at_newlines_only() {
    let mut b = LineBuffer::new();
    b.push("a\u{e9}".as_bytes());
    assert_eq!(b.next_line(), None);
    b.push(b"b\n\nrest");
    assert_eq!(b.next_line().as_deref(), Some("a\u{e9}b"));
    assert_eq!(b.next_line().as_deref(), Some(""));
    assert_eq!(b.next_line(), None);
    assert_eq!(b.take_remaining().as_deref(), Some("rest"));
    assert_eq!(b.take_remaining(), None);
    let e = "\u{e9}\n".as_bytes();
    b.push(&e[..1]);
    b.push(&e[1..]);
    assert_eq!(b.next_line().as_deref(), Some("\u{e9}"));
    b.push(&[0xff, 10]);
    assert_eq!(b.next_line().as_deref(), Some("\u{fffd}"));
}

#[test]
fn embeddings_are_asked_for_and_read() {
    let o = OllamaEmbedding::at("m", "http://h").with_dimensions(3);
    assert_eq!(o.dimensions(), 3);
    assert_eq!(o.embed_url(), "http://h/api/embed");
    assert!(o
        .request_body(&vec!["a".into(), "b".into()])
        .equals(&json(r#"{"model":"m","input":["a","b"]}"#)));
    let v = ollama_vectors_from_answer(200, "", r#"{"embeddings":[[1.0,2.5],[0.0,-1.0]]}"#).unwrap();
    assert_eq!(v.len(), 2);
    assert_eq!(v[0].len(), 2);
    assert!(ollama_vectors_from_answer(500, "500 x", "y").is_err());
    assert!(ollama_vectors_from_answer(200, "", "{}").is_err());

    let a = OpenAiEmbedding::keyed("text-embedding-3-small", "k").with_base_url("http://h/v1");
    assert_eq!(a.embed_url(), "http://h/v1/embeddings");
    let v = openai_vectors_from_answer(
        200,
        "",
        r#"{"data":[{"embedding":[1.0],"index":0},{"embedding":[2.0],"index":1}]}"#,
    )
    .unwrap();
    assert_eq!(v.len(), 2);
    assert!(openai_vectors_from_answer(400, "400 x", "y").is_err());
    assert!(openai_vectors_from_answer(200, "", "nope").is_err());
}

#[test]
fn vectors_may_come_in_arrays() {
    assert_eq!(ollama_vectors_from_answer(200, "200 OK", "[[[1,2]]]").unwrap().len(), 1);
    assert_eq!(openai_vectors_from_answer(200, "200 OK", "[[[[1,2]],[[3]]]]").unwrap().len(), 2);
    assert!(openai_vectors_from_answer(200, "200 OK", "[[[]]]").is_err());
}
