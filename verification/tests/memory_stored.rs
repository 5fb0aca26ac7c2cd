use daimon::error::DaimonError;
use daimon::json::Json;
use daimon::memory::episodic_memory::EpisodicQuery;
use daimon::memory::redis::{command_error, HistoryCache};
use daimon::memory::sqlite::{
    message_from_row, messages_from_rows, row_from_message, session_id_at, MessageRow,
};
use daimon::memory::sqlite_tiered::{
    append_to_stored, check_stored_limit, default_session_id, event_from_row, events_statement,
    fact_from_row, limit_from_column, limit_to_column, metadata_to_text, search_query, sequence_id,
    SqlValue,
};
use daimon::model::types::{Message, Role};
use daimon::model::wire::message_to_text;
use daimon::tool::ToolCall;
use rusqlite::types::Value;
use rusqlite::{params_from_iter, Connection};

fn json(text: &str) -> Json {
    Json::parse(text).unwrap()
}

// ---- conversations -------------------------------------------------------

fn stored(messages: &[Message]) -> Vec<Message> {
    messages_from_rows(messages.iter().map(row_from_message).collect())
}

#[test]
fn test_in_memory_add_and_get() {
    let messages = stored(&[Message::user("hello"), Message::assistant("hi")]);
    assert_eq!(messages.len(), 2);
    assert_eq!(messages[0].content.as_deref(), Some("hello"));
    assert_eq!(messages[1].content.as_deref(), Some("hi"));
}

#[test]
fn test_roles_preserved() {
    let messages = stored(&[
        Message::system("sys"),
        Message::user("usr"),
        Message::assistant("ast"),
        Message::tool_result("id1", "result"),
    ]);
    assert_eq!(messages[0].role, Role::System);
    assert_eq!(messages[1].role, Role::User);
    assert_eq!(messages[2].role, Role::Assistant);
    assert_eq!(messages[3].role, Role::Tool);
    assert_eq!(messages[3].tool_call_id.as_deref(), Some("id1"));
}

#[test]
fn test_tool_calls_round_trip() {
    let messages = stored(&[Message::assistant_with_tool_calls(vec![ToolCall {
        id: "tc_1".into(),
        name: "calc".into(),
        arguments: json(r#"{"expr": "1+1"}"#),
    }])]);
    assert_eq!(messages[0].tool_calls.len(), 1);
    assert_eq!(messages[0].tool_calls[0].name, "calc");
    assert_eq!(
        messages[0].tool_calls[0].arguments.get("expr").unwrap().as_str(),
        Some("1+1")
    );
}

#[test]
fn rows_that_make_no_sense_are_read_all_the_same() {
    let m = message_from_row(MessageRow {
        role: "nobody".into(),
        content: None,
        tool_calls: Some("not json".into()),
        tool_call_id: None,
    });
    assert_eq!(m.role, Role::User);
    assert!(m.tool_calls.is_empty());
    assert_eq!(row_from_message(&Message::user("x")).tool_calls, None);
}

#[test]
fn sessions_are_named_after_their_moment() {
    assert_eq!(session_id_at(0x2a), "0000000000000000000000000000002a");
    assert_eq!(
        default_session_id(1, 2, 3, 0xabc),
        "00000000000000000000000000000001-00000002-0000000000000003-0000000000000abc"
    );
    assert_eq!(sequence_id("archival", 12), "archival-12");
}

// ---- Redis ---------------------------------------------------------------

#[test]
fn a_copy_follows_the_list() {
    let entry = |t: &str| message_to_text(&Message::user(t));
    let mut c = HistoryCache::new();
    assert_eq!(c.resume(0), None);
    assert_eq!(c.resume(2), Some(0));
    c.absorb(&vec![entry("a"), entry("b")]).unwrap();
    assert_eq!(c.resume(2), None);
    assert_eq!(c.resume(3), Some(2));
    c.absorb(&vec![entry("c")]).unwrap();
    let texts: Vec<String> = c.messages().into_iter().filter_map(|m| m.content).collect();
    assert_eq!(texts, ["a", "b", "c"]);
    assert_eq!(c.resume(1), Some(0));
    assert!(c.messages().is_empty());
    assert!(c.absorb(&vec![entry("x"), "garbled".into(), entry("y")]).is_err());
    assert_eq!(c.messages().len(), 1);
    c.clear();
    assert!(c.messages().is_empty());
}

#[test]
fn redis_failures_name_the_command() {
    assert_eq!(
        command_error("connection", "refused"),
        DaimonError::Other("redis connection: refused".to_string())
    );
}

// ---- core tier -----------------------------------------------------------

#[test]
fn core_append_respects_limit() {
    let limit = limit_to_column(Some(5));
    let (value, limit) = append_to_stored("notes", Some(("1234".into(), limit)), "5").unwrap();
    assert_eq!(value, "12345");
    let err = append_to_stored("notes", Some((value, limit)), "6").unwrap_err();
    assert_eq!(
        err,
        DaimonError::Other("core memory block 'notes' exceeds limit of 5 characters".to_string())
    );
    assert_eq!(append_to_stored("new", None, "text").unwrap(), ("text".to_string(), None));
}

#[test]
fn stored_limits_count_characters() {
    assert!(check_stored_limit("b", "\u{e9}\u{e9}", Some(2)).is_ok());
    assert!(check_stored_limit("b", "abc", Some(2)).is_err());
    assert!(check_stored_limit("b", "", Some(-1)).is_err());
    assert!(check_stored_limit("b", "abc", None).is_ok());
    assert_eq!(limit_from_column(limit_to_column(Some(7))), Some(7));
    assert_eq!(limit_from_column(None), None);
}

// ---- archival tier, on a real database -----------------------------------

fn facts(texts: &[&str]) -> Connection {
    let db = Connection::open_in_memory().unwrap();
    db.execute_batch("CREATE VIRTUAL TABLE facts USING fts5(text);").unwrap();
    for t in texts {
        db.execute("INSERT INTO facts(text) VALUES (?1)", [t]).unwrap();
    }
    db
}

fn search(db: &Connection, query: &str, top_k: usize) -> Vec<String> {
    let Some(q) = search_query(query, top_k) else {
        return vec![];
    };
    let mut s = db
        .prepare("SELECT text FROM facts WHERE facts MATCH ?1 ORDER BY bm25(facts) LIMIT ?2")
        .unwrap();
    let rows = s
        .query_map((q, top_k as i64), |r| r.get::<_, String>(0))
        .unwrap();
    rows.map(|r| r.unwrap()).collect()
}

#[test]
fn archival_insert_and_search() {
    let db = facts(&["the sky is blue", "grass is green"]);
    assert_eq!(search(&db, "sky", 5), ["the sky is blue"]);
}

#[test]
fn archival_search_empty_query_returns_empty() {
    let db = facts(&["fact"]);
    assert!(search(&db, "   ", 5).is_empty());
    assert!(search(&db, "fact", 0).is_empty());
}

#[test]
fn archival_more_relevant_fact_ranks_first() {
    let db = facts(&["the ocean is deep and blue", "sky blue sky blue sky blue"]);
    let found = search(&db, "sky blue", 5);
    assert_eq!(found, ["sky blue sky blue sky blue", "the ocean is deep and blue"]);
}

#[test]
fn archival_query_with_punctuation_does_not_error() {
    let db = facts(&["cost is $5.00 (approx)"]);
    assert!(!search(&db, "$5.00 (approx)?", 5).is_empty());
    assert!(search(&db, "say \"quoted\" words", 5).is_empty());
}

#[test]
fn search_terms_are_quoted() {
    assert_eq!(search_query(" a  b\"c ", 1).as_deref(), Some("\"a\" OR \"b\"\"c\""));
}

#[test]
fn archival_metadata_round_trips() {
    let stored = metadata_to_text(Json::parse_object(r#"{"source":"wiki"}"#).unwrap());
    assert_eq!(stored, r#"{"source":"wiki"}"#);
    let f = fact_from_row("i".into(), "t".into(), &stored, json("0.5")).unwrap();
    assert_eq!(f.metadata.get("source").unwrap().as_str(), Some("wiki"));
    assert_eq!((f.id.as_str(), f.text.as_str()), ("i", "t"));
    assert!(fact_from_row("i".into(), "t".into(), "[1]", Json::Null)
        .unwrap_err()
        .message()
        .starts_with("corrupted metadata JSON: "));
    assert!(fact_from_row("i".into(), "t".into(), "{", Json::Null).is_err());
}

// ---- episodic tier, on a real database -----------------------------------

fn recorded(events: &[(&str, &str, &str, i64)]) -> Connection {
    let db = Connection::open_in_memory().unwrap();
    db.execute_batch(
        "CREATE TABLE episodic_events (id TEXT, session_id TEXT, event_type TEXT, payload TEXT, timestamp_ms INTEGER);",
    )
    .unwrap();
    for (i, (session, kind, payload, at)) in events.iter().enumerate() {
        db.execute(
            "INSERT INTO episodic_events VALUES (?1, ?2, ?3, ?4, ?5)",
            (format!("e{i}"), session, kind, payload, at),
        )
        .unwrap();
    }
    db
}

fn episodes() -> Connection {
    recorded(&[
        ("s", "login", "{\"i\":0}", 10),
        ("s", "logout", "{\"i\":1}", 20),
        ("other", "login", "{\"i\":2}", 15),
        ("s", "login", "{\"i\":3}", 20),
    ])
}

fn recall(db: &Connection, query: EpisodicQuery) -> Vec<u64> {
    payloads(db, query).iter().map(|p| p.get("i").unwrap().as_u64().unwrap()).collect()
}

fn payloads(db: &Connection, query: EpisodicQuery) -> Vec<Json> {
    let statement = events_statement("s", &query);
    let params: Vec<Value> = statement
        .params
        .iter()
        .map(|p| match p {
            SqlValue::Text(t) => Value::Text(t.clone()),
            SqlValue::Int(n) => Value::Integer(*n),
        })
        .collect();
    let mut s = db.prepare(&statement.sql).unwrap();
    let rows = s
        .query_map(params_from_iter(params), |r| {
            Ok((
                r.get::<_, String>(0)?,
                r.get::<_, String>(1)?,
                r.get::<_, String>(2)?,
                r.get::<_, i64>(3)?,
            ))
        })
        .unwrap();
    rows.map(|r| {
        let (id, kind, payload, at) = r.unwrap();
        event_from_row(id, kind, &payload, at).unwrap().payload
    })
    .collect()
}

#[test]
fn episodic_record_and_query() {
    let db = recorded(&[
        ("s", "login", "{\"user\":\"a\"}", 1),
        ("s", "logout", "{\"user\":\"a\"}", 2),
    ]);
    assert_eq!(payloads(&db, EpisodicQuery::all()).len(), 2);
    let logins = payloads(&db, EpisodicQuery::all().of_type("login"));
    assert_eq!(logins.len(), 1);
    assert_eq!(logins[0].get("user").unwrap().as_str(), Some("a"));
}

#[test]
fn episodic_query_respects_limit_and_recency() {
    let ticks: Vec<String> = (0..5).map(|i| format!("{{\"i\":{i}}}")).collect();
    let rows: Vec<(&str, &str, &str, i64)> =
        ticks.iter().map(|p| ("s", "tick", p.as_str(), 7)).collect();
    let recent = recall(&recorded(&rows), EpisodicQuery::all().limit(2));
    assert_eq!(recent.len(), 2);
    assert_eq!(recent[0], 4);
}

#[test]
fn episodic_queries_narrow_by_type_and_time() {
    let db = episodes();
    assert_eq!(recall(&db, EpisodicQuery::all()), [3, 1, 0]);
    assert_eq!(recall(&db, EpisodicQuery::all().of_type("login")), [3, 0]);
    assert_eq!(recall(&db, EpisodicQuery::all().between(10, 15)), [0]);
    assert_eq!(
        recall(&db, EpisodicQuery::all().of_type("login").between(11, 99)),
        [3]
    );
}

#[test]
fn episodic_session_isolation() {
    let db = recorded(&[("other", "tick", "null", 1)]);
    assert!(payloads(&db, EpisodicQuery::all()).is_empty());
    assert!(!recall(&episodes(), EpisodicQuery::all()).contains(&2));
    assert_eq!(recall(&episodes(), EpisodicQuery::all().limit(2)), [3, 1]);
}

#[test]
fn a_garbled_payload_is_an_error() {
    assert!(event_from_row("i".into(), "t".into(), "{", 1)
        .unwrap_err()
        .message()
        .starts_with("corrupted payload JSON: "));
}
