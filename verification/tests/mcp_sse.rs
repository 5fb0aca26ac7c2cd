use daimon::error::DaimonError;
use daimon::json::Json;
use daimon::mcp::bridge::output_from_response;
use daimon::mcp::protocol::JsonRpcNotification;
use daimon::mcp::sse::{
    accept_endpoint, check_connected, check_posted, is_same_origin, parse_sse_frame,
    resolve_endpoint_url, SseTransport, UrlParts,
};

const BASE: &str = "http://localhost:3000/sse";

fn ok(v: &Option<Json>) -> String {
    let v = v.as_ref().unwrap().get("ok").unwrap();
    match v {
        Json::Str(s) => s.clone(),
        Json::Bool(b) => b.to_string(),
        _ => panic!(),
    }
}

#[test]
fn test_resolve_endpoint_url_same_origin() {
    assert_eq!(
        resolve_endpoint_url("http://localhost:3000/sse", "/messages?sessionId=x").unwrap(),
        "http://localhost:3000/messages?sessionId=x"
    );
    assert_eq!(
        resolve_endpoint_url("http://localhost:3000/sse", "http://localhost:3000/messages").unwrap(),
        "http://localhost:3000/messages"
    );
    assert_eq!(
        resolve_endpoint_url("http://localhost/sse", "http://localhost:80/messages").unwrap(),
        "http://localhost/messages"
    );
}

#[test]
fn test_resolve_endpoint_url_rejects_cross_origin() {
    assert!(resolve_endpoint_url("http://localhost:3000/sse", "http://evil.example.com/m").is_err());
    assert!(resolve_endpoint_url("http://localhost:3000/sse", "http://localhost:4000/m").is_err());
    assert!(resolve_endpoint_url("https://localhost:3000/sse", "http://localhost:3000/m").is_err());
    assert!(resolve_endpoint_url("http://localhost:3000/sse", "http://[bad").is_err());
}

#[test]
fn refused_endpoints_are_named() {
    assert_eq!(
        resolve_endpoint_url(BASE, "http://evil.example.com/m").unwrap_err().message(),
        "SSE endpoint 'http://evil.example.com/m' is not same-origin with 'http://localhost:3000/sse'"
    );
    assert!(resolve_endpoint_url("no url", "/m")
        .unwrap_err()
        .message()
        .starts_with("invalid SSE base URL 'no url': "));
    assert!(resolve_endpoint_url(BASE, "http://[bad")
        .unwrap_err()
        .message()
        .starts_with("invalid SSE endpoint 'http://[bad': "));
}

fn parts(scheme: &str, host: Option<&str>, port: Option<u16>) -> UrlParts {
    UrlParts {
        scheme: scheme.to_string(),
        host: host.map(|h| h.to_string()),
        port,
        text: format!("{scheme}:x"),
    }
}

#[test]
fn origins_are_scheme_host_and_port() {
    let a = parts("http", Some("h"), Some(80));
    assert!(is_same_origin(&a, &parts("http", Some("h"), Some(80))));
    assert!(!is_same_origin(&a, &parts("https", Some("h"), Some(80))));
    assert!(!is_same_origin(&a, &parts("http", Some("i"), Some(80))));
    assert!(!is_same_origin(&a, &parts("http", None, Some(80))));
    assert!(!is_same_origin(&a, &parts("http", Some("h"), None)));
    assert!(is_same_origin(&parts("x", None, None), &parts("x", None, None)));
    assert_eq!(accept_endpoint(&a, parts("http", Some("h"), Some(80))).unwrap(), "http:x");
    assert_eq!(
        accept_endpoint(&a, parts("ws", Some("h"), Some(80))).unwrap_err().message(),
        "SSE endpoint 'ws:x' is not same-origin with 'http:x'"
    );
}

#[test]
fn frames_are_read_line_by_line() {
    let f = parse_sse_frame("data: one\ndata:two").unwrap();
    assert_eq!(f.event, "message");
    assert_eq!(f.data, "one\ntwo");
    let f = parse_sse_frame(": comment\nevent:  endpoint \nid: 4\ndata:  x ").unwrap();
    assert_eq!(f.event, "endpoint");
    assert_eq!(f.data, "x ");
    let f = parse_sse_frame("event: a\nevent: b\ndata:").unwrap();
    assert_eq!(f.event, "b");
    assert_eq!(f.data, "");
    assert!(parse_sse_frame(": only a comment").is_none());
    assert!(parse_sse_frame("event: x").is_none());
    assert!(parse_sse_frame("").is_none());
}

#[test]
fn test_endpoint_discovery_updates_post_target() {
    let mut t = SseTransport::new("http://127.0.0.1:8123/sse");
    assert!(t.feed(b"event: endpoint\ndata: /messages?sessionId=abc\n\n").is_empty());
    assert_eq!(t.post_url, "http://127.0.0.1:8123/messages?sessionId=abc");
}

#[test]
fn test_falls_back_to_connect_url_without_endpoint_frame() {
    let mut t = SseTransport::new(BASE);
    let (_, _, target) = t.ask("m", None).unwrap();
    assert_eq!(target, BASE);
}

#[test]
fn test_correlates_responses_including_out_of_order() {
    let mut t = SseTransport::new(BASE);
    let (id_a, body_a, _) = t.ask("a/method", None).unwrap();
    let (id_b, body_b, _) = t.ask("b/method", None).unwrap();
    assert_ne!(id_a, id_b);
    assert!(body_a.contains("a/method") && body_b.contains("b/method"));
    let got = t.feed(
        format!("data: {{\"jsonrpc\":\"2.0\",\"id\":{id_b},\"result\":{{\"ok\":\"b\"}}}}\n\n").as_bytes(),
    );
    assert_eq!(got.len(), 1);
    assert_eq!(got[0].0, id_b);
    assert_eq!(ok(&got[0].1.result), "b");
    let got = t.feed(
        format!("data: {{\"jsonrpc\":\"2.0\",\"id\":{id_a},\"result\":{{\"ok\":\"a\"}}}}\n\n").as_bytes(),
    );
    assert_eq!(got[0].0, id_a);
    assert_eq!(ok(&got[0].1.result), "a");
    assert!(t.pending.is_empty());
}

#[test]
fn test_malformed_frame_is_skipped_not_fatal() {
    let mut t = SseTransport::new(BASE);
    let (id, _, _) = t.ask("tools/list", None).unwrap();
    assert_eq!(id, 1);
    assert!(t.feed(b"data: not valid json at all\n\n").is_empty());
    let got = t.feed(b"data: {\"jsonrpc\":\"2.0\",\"id\":1,\"result\":{\"ok\":true}}\n\n");
    assert_eq!(ok(&got[0].1.result), "true");
}

#[test]
fn test_connect_failure_surfaces_as_mcp_error() {
    assert!(check_connected(200, "200 OK").is_ok());
    assert_eq!(
        check_connected(404, "404 Not Found").unwrap_err(),
        DaimonError::Mcp("SSE connect failed: HTTP 404 Not Found".to_string())
    );
}

#[test]
fn posts_with_a_bad_status_are_refused() {
    assert!(check_posted(202, "202 Accepted", "").is_ok());
    assert_eq!(
        check_posted(500, "500 Internal Server Error", "oops").unwrap_err().message(),
        "SSE POST failed: HTTP 500 Internal Server Error: oops"
    );
    let mut t = SseTransport::new(BASE);
    let (id, _, _) = t.ask("m", None).unwrap();
    t.forget(id);
    assert!(t.pending.is_empty());
}

#[test]
fn test_close_fails_pending_sends() {
    let mut t = SseTransport::new(BASE);
    t.ask("tools/list", None).unwrap();
    t.close();
    assert!(t.pending.is_empty());
    assert_eq!(
        t.closed_error().message(),
        "SSE transport closed: transport closed"
    );
}

#[test]
fn test_dead_stream_fails_subsequent_requests_fast() {
    let mut t = SseTransport::new(BASE);
    t.ended();
    assert_eq!(
        t.ask("tools/list", None).unwrap_err(),
        DaimonError::Mcp("SSE transport closed: SSE stream ended".to_string())
    );
    assert!(t.tell(&JsonRpcNotification::new("n")).is_err());
    t.close();
    assert_eq!(
        t.closed_error().message(),
        "SSE transport closed: SSE stream ended"
    );
}

#[test]
fn test_cross_origin_endpoint_event_closes_transport() {
    let mut t = SseTransport::new(BASE);
    t.ask("waits", None).unwrap();
    let got = t.feed(
        b"event: endpoint\ndata: http://attacker.example.com/messages\n\ndata: {\"jsonrpc\":\"2.0\",\"id\":1}\n\n",
    );
    assert!(got.is_empty());
    assert!(t.closed);
    assert_eq!(t.post_url, BASE);
    assert!(t
        .ask("tools/list", None)
        .unwrap_err()
        .message()
        .starts_with("SSE transport closed: SSE endpoint 'http://attacker.example.com/messages'"));
    assert!(t.feed(b"data: {\"jsonrpc\":\"2.0\",\"id\":1}\n\n").is_empty());
}

#[test]
fn test_unparseable_endpoint_event_closes_transport() {
    let mut t = SseTransport::new(BASE);
    t.feed(b"event: endpoint\ndata: http://[not a url\n\n");
    assert!(t.closed);
    assert_eq!(t.post_url, BASE);
}

#[test]
fn events_survive_cuts_and_line_ends() {
    let text = "data: {\"jsonrpc\":\"2.0\",\r\ndata: \"id\":1}\r\n\r\ndata: x";
    let mut whole = SseTransport::new(BASE);
    whole.ask("m", None).unwrap();
    assert_eq!(whole.feed(text.as_bytes()).len(), 1);
    let plain = text.replace("\r\n", "\n");
    for cut in 0..plain.len() {
        let mut t = SseTransport::new(BASE);
        t.ask("m", None).unwrap();
        let mut n = t.feed(&plain.as_bytes()[..cut]).len();
        n += t.feed(&plain.as_bytes()[cut..]).len();
        assert_eq!(n, 1, "cut at {cut}");
        assert_eq!(t.buffer, "data: x");
    }
}

#[test]
fn an_answer_is_handed_out_once() {
    let mut t = SseTransport::new(BASE);
    t.ask("m", None).unwrap();
    let event = b"data: {\"jsonrpc\":\"2.0\",\"id\":\"1\"}\n\n";
    assert_eq!(t.feed(event).len(), 1);
    assert!(t.feed(event).is_empty());
    assert!(t.feed(b"data: {\"jsonrpc\":\"2.0\",\"method\":\"x\"}\n\n").is_empty());
}

#[test]
fn test_two_bridges_sharing_one_transport_get_distinct_responses() {
    let mut t = SseTransport::new(BASE);
    let (a, body_a, _) = t.ask("tools/call", Some(Json::text("tool_a"))).unwrap();
    let (b, body_b, _) = t.ask("tools/call", Some(Json::text("tool_b"))).unwrap();
    assert_ne!(a, b);
    assert!(body_a.contains("tool_a") && body_b.contains("tool_b"));
    let reply = |id: u64, label: &str| {
        format!(
            "data: {{\"jsonrpc\":\"2.0\",\"id\":{id},\"result\":{{\"content\":[{{\"type\":\"text\",\"text\":\"from-{label}\"}}],\"isError\":false}}}}\n\n"
        )
    };
    let got = t.feed(format!("{}{}", reply(b, "b"), reply(a, "a")).as_bytes());
    let texts: Vec<(u64, String)> = got
        .iter()
        .map(|(id, m)| (*id, output_from_response(m).unwrap().content))
        .collect();
    assert_eq!(texts, [(b, "from-b".to_string()), (a, "from-a".to_string())]);
}

#[test]
fn notifications_go_where_requests_go() {
    let mut t = SseTransport::new(BASE);
    t.feed(b"event: endpoint\ndata: /p\n\n");
    let (body, target) = t.tell(&JsonRpcNotification::new("n")).unwrap();
    assert_eq!(target, "http://localhost:3000/p");
    assert!(body.contains("\"method\":\"n\""));
}
