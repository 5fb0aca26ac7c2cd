use daimon::error::{DaimonError, Result};
use daimon::json::{Json, JsonMap};
use daimon::memory::archival_memory::{ArchivalMemory, InMemoryArchivalMemory, VectorArchivalMemory};
use daimon::memory::core_memory::{CoreMemory, CoreMemoryBlock, InMemoryCoreMemory};
use daimon::memory::episodic_memory::{EpisodicMemory, EpisodicQuery, InMemoryEpisodicMemory};
use daimon::memory::sliding_window::SlidingWindowMemory;
use daimon::memory::summary::{SummaryMemory, DEFAULT_SUMMARY_PROMPT};
use daimon::memory::tiered::TieredMemory;
use daimon::memory::token_window::{
    default_estimate_tokens, json_value_len, TokenCounter, TokenWindowMemory,
};
use daimon::memory::traits::{ErasedMemory, Memory};
use daimon::model::traits::Model;
use daimon::model::types::{ChatRequest, ChatResponse, Message, Role, StopReason, Usage};
use daimon::retriever::in_memory_store::Judgement;
use daimon::retriever::{
    Document, EmbeddingModel, InMemoryVectorStoreBackend, ScoredDocument, VectorStore,
};
use daimon::stream::StreamEvent;
use daimon::tool::ToolCall;
use std::cell::RefCell;
use std::rc::Rc;
use std::sync::Arc;

fn json(text: &str) -> Json {
    Json::parse(text).unwrap()
}

fn call() -> ToolCall {
    ToolCall {
        id: "tc_1".into(),
        name: "calc".into(),
        arguments: json(r#"{"expr": "1+1"}"#),
    }
}

fn contents<M: Memory>(m: &M) -> Vec<String> {
    m.get_messages()
        .unwrap()
        .into_iter()
        .map(|m| m.content.unwrap_or_default())
        .collect()
}

// ---- sliding window ------------------------------------------------------

#[test]
fn sliding_window_test_add_and_get_messages() {
    let mut memory = SlidingWindowMemory::new(10);
    memory.add_message(&Message::user("hello")).unwrap();
    memory.add_message(&Message::assistant("hi there")).unwrap();
    let messages = memory.get_messages().unwrap();
    assert_eq!(messages.len(), 2);
    assert_eq!(messages[0].role, Role::User);
    assert_eq!(messages[1].role, Role::Assistant);
}

#[test]
fn test_sliding_window_evicts_old_messages() {
    let mut memory = SlidingWindowMemory::new(3);
    for i in 0..5 {
        memory.add_message(&Message::user(&format!("msg {i}"))).unwrap();
    }
    assert_eq!(contents(&memory), ["msg 2", "msg 3", "msg 4"]);
}

#[test]
fn test_clear_removes_all_messages() {
    let mut memory = SlidingWindowMemory::new(10);
    memory.add_message(&Message::user("hello")).unwrap();
    memory.clear().unwrap();
    assert!(memory.get_messages().unwrap().is_empty());
}

#[test]
fn test_default_window_size() {
    assert_eq!(SlidingWindowMemory::default().max_messages(), 50);
}

#[test]
fn test_empty_memory_returns_empty_vec() {
    assert!(SlidingWindowMemory::new(10).get_messages().unwrap().is_empty());
}

#[test]
fn test_window_size_of_one() {
    let mut memory = SlidingWindowMemory::new(1);
    memory.add_message(&Message::user("first")).unwrap();
    memory.add_message(&Message::user("second")).unwrap();
    assert_eq!(contents(&memory), ["second"]);
}

#[test]
fn sliding_window_test_eviction_drops_tool_call_group_atomically() {
    let mut memory = SlidingWindowMemory::new(3);
    memory.add_message(&Message::user("question")).unwrap();
    memory.add_message(&Message::assistant_with_tool_calls(vec![call()])).unwrap();
    memory.add_message(&Message::tool_result("tc_1", "result one")).unwrap();
    memory.add_message(&Message::tool_result("tc_1", "result two")).unwrap();
    memory.add_message(&Message::assistant("final answer")).unwrap();
    let messages = memory.get_messages().unwrap();
    assert_eq!(messages.len(), 1);
    assert_eq!(messages[0].role, Role::Assistant);
    assert_eq!(messages[0].content.as_deref(), Some("final answer"));
    assert!(messages.iter().all(|m| m.role != Role::Tool));
}

#[test]
fn sliding_window_test_tool_call_group_spanning_window_is_kept() {
    let mut memory = SlidingWindowMemory::new(2);
    memory.add_message(&Message::assistant_with_tool_calls(vec![call()])).unwrap();
    memory.add_message(&Message::tool_result("tc_1", "result one")).unwrap();
    memory.add_message(&Message::tool_result("tc_1", "result two")).unwrap();
    let messages = memory.get_messages().unwrap();
    assert_eq!(messages.len(), 3);
    assert_eq!(messages[0].role, Role::Assistant);
    assert!(!messages[0].tool_calls.is_empty());
}

#[test]
fn test_messages_at_exact_capacity() {
    let mut memory = SlidingWindowMemory::new(3);
    for t in ["a", "b", "c"] {
        memory.add_message(&Message::user(t)).unwrap();
    }
    assert_eq!(contents(&memory), ["a", "b", "c"]);
}

#[test]
fn an_erased_memory_is_the_memory() {
    let mut memory = SlidingWindowMemory::new(2);
    memory.add_message_erased(&Message::user("x")).unwrap();
    assert_eq!(memory.get_messages_erased().unwrap().len(), 1);
    memory.clear_erased().unwrap();
    assert!(memory.get_messages_erased().unwrap().is_empty());
}

// ---- token window --------------------------------------------------------

struct Chars;

impl TokenCounter for Chars {
    fn count(&self, message: &Message) -> usize {
        message.content.as_ref().map_or(0, |c| c.len())
    }
}

struct One;

impl TokenCounter for One {
    fn count(&self, _message: &Message) -> usize {
        1
    }
}

#[test]
fn token_window_test_add_and_get_messages() {
    let mut memory = TokenWindowMemory::new(10_000);
    memory.add_message(&Message::user("hello")).unwrap();
    memory.add_message(&Message::assistant("hi")).unwrap();
    let msgs = memory.get_messages().unwrap();
    assert_eq!(msgs.len(), 2);
    assert_eq!(msgs[0].role, Role::User);
    assert_eq!(msgs[1].role, Role::Assistant);
}

#[test]
fn test_evicts_old_messages_when_over_budget() {
    let mut memory = TokenWindowMemory::new(20).with_token_counter(Chars);
    memory.add_message(&Message::user("aaaaaaaaaa")).unwrap();
    memory.add_message(&Message::user("bbbbbbbbbb")).unwrap();
    assert_eq!(memory.get_messages().unwrap().len(), 2);
    memory.add_message(&Message::user("cccccccccc")).unwrap();
    assert_eq!(contents(&memory), ["bbbbbbbbbb", "cccccccccc"]);
}

#[test]
fn test_evicts_multiple_to_fit() {
    let mut memory = TokenWindowMemory::new(15).with_token_counter(Chars);
    for t in ["aaa", "bbb", "ccc", "dddddddd"] {
        memory.add_message(&Message::user(t)).unwrap();
    }
    assert_eq!(contents(&memory), ["bbb", "ccc", "dddddddd"]);
}

#[test]
fn test_clear_resets_tokens() {
    let mut memory = TokenWindowMemory::new(100);
    memory.add_message(&Message::user("hello")).unwrap();
    assert!(memory.current_tokens() > 0);
    memory.clear().unwrap();
    assert_eq!(memory.current_tokens(), 0);
    assert!(memory.get_messages().unwrap().is_empty());
}

#[test]
fn test_default_estimator_counts_tool_calls() {
    let mut memory = TokenWindowMemory::new(10_000);
    let msg = Message::assistant_with_tool_calls(vec![ToolCall {
        id: "tc_1".into(),
        name: "calculator".into(),
        arguments: json(r#"{"expression": "2+2"}"#),
    }]);
    memory.add_message(&msg).unwrap();
    assert!(memory.current_tokens() > 0);
}

#[test]
fn test_custom_token_counter() {
    let mut memory = TokenWindowMemory::new(5).with_token_counter(One);
    for i in 0..7 {
        memory.add_message(&Message::user(&format!("msg{i}"))).unwrap();
    }
    let got = contents(&memory);
    assert_eq!(got.len(), 5);
    assert_eq!(got[0], "msg2");
}

#[test]
fn token_window_test_eviction_drops_tool_call_group_atomically() {
    let mut memory = TokenWindowMemory::new(3).with_token_counter(One);
    memory.add_message(&Message::user("question")).unwrap();
    memory.add_message(&Message::assistant_with_tool_calls(vec![call()])).unwrap();
    memory.add_message(&Message::tool_result("tc_1", "result one")).unwrap();
    memory.add_message(&Message::tool_result("tc_1", "result two")).unwrap();
    memory.add_message(&Message::assistant("final answer")).unwrap();
    let msgs = memory.get_messages().unwrap();
    assert_eq!(msgs.len(), 1);
    assert_eq!(msgs[0].role, Role::Assistant);
    assert_eq!(msgs[0].content.as_deref(), Some("final answer"));
    assert_eq!(memory.current_tokens(), 1);
}

#[test]
fn token_window_test_tool_call_group_spanning_window_is_kept() {
    let mut memory = TokenWindowMemory::new(2).with_token_counter(One);
    memory.add_message(&Message::assistant_with_tool_calls(vec![call()])).unwrap();
    memory.add_message(&Message::tool_result("tc_1", "result one")).unwrap();
    memory.add_message(&Message::tool_result("tc_1", "result two")).unwrap();
    assert_eq!(memory.get_messages().unwrap().len(), 3);
    assert_eq!(memory.current_tokens(), 3);
}

#[test]
fn test_single_message_exceeds_budget() {
    let mut memory = TokenWindowMemory::new(5).with_token_counter(Chars);
    memory.add_message(&Message::user("short")).unwrap();
    memory.add_message(&Message::user("this is a very long message")).unwrap();
    assert_eq!(contents(&memory), ["this is a very long message"]);
}

#[test]
fn test_with_messages_matches_get_messages_after_eviction() {
    let mut memory = TokenWindowMemory::new(3).with_token_counter(One);
    for i in 0..5 {
        memory.add_message(&Message::user(&format!("msg{i}"))).unwrap();
    }
    let owned = memory.get_messages().unwrap();
    let borrowed: Vec<Message> = memory.with_messages(|messages: &Vec<Message>| messages.to_vec()).unwrap();
    assert_eq!(borrowed.len(), owned.len());
    for (b, o) in borrowed.iter().zip(&owned) {
        assert_eq!(b.role, o.role);
        assert_eq!(b.content, o.content);
    }
    assert_eq!(borrowed.len(), 3);
    assert_eq!(borrowed[0].content.as_deref(), Some("msg2"));
}

#[test]
fn token_window_test_empty_memory() {
    let memory = TokenWindowMemory::new(100);
    assert_eq!(memory.current_tokens(), 0);
    assert!(memory.get_messages().unwrap().is_empty());
}

#[test]
fn the_fewest_groups_leave() {
    let mut memory = TokenWindowMemory::new(6).with_token_counter(Chars);
    for text in ["aaa", "bb", "c"] {
        memory.add_message(&Message::user(text)).unwrap();
    }
    assert_eq!(memory.current_tokens(), 6);
    memory.add_message(&Message::user("dd")).unwrap();
    assert_eq!(memory.current_tokens(), 5);
    memory.add_message(&Message::user("eeee")).unwrap();
    assert_eq!(memory.current_tokens(), 6);
    let left: Vec<Option<String>> =
        memory.get_messages().unwrap().into_iter().map(|m| m.content).collect();
    assert_eq!(left, [Some("dd".to_string()), Some("eeee".to_string())]);
}

#[test]
fn a_total_that_overflows_is_refused() {
    struct Huge;
    impl TokenCounter for Huge {
        fn count(&self, _message: &Message) -> usize {
            usize::MAX
        }
    }
    let mut memory = TokenWindowMemory::new(10).with_token_counter(Huge);
    memory.add_message(&Message::user("a")).unwrap();
    assert_eq!(
        memory.add_message(&Message::user("b")).unwrap_err(),
        DaimonError::Other("token total overflow".to_string())
    );
}

#[test]
fn json_lengths_are_those_of_the_text() {
    for text in [
        "null",
        "true",
        "false",
        "0",
        "18446744073709551615",
        "-9223372036854775808",
        "0.5",
        "-1250.25",
        r#""plain""#,
        "[]",
        "{}",
    ] {
        let v = json(text);
        assert_eq!(json_value_len(&v), v.to_text().len(), "{text}");
    }
    // Each item and each member counts with a comma behind it.
    let list = json(r#"[1,[2,"x"],{}]"#);
    assert_eq!(json_value_len(&list), list.to_text().len() + 2);
    let object = json(r#"{"a":1,"b":[null,{"c":"d"}]}"#);
    assert_eq!(json_value_len(&object), object.to_text().len() + 3);
    assert_eq!(default_estimate_tokens(&Message::user("")), 2);
    assert_eq!(default_estimate_tokens(&Message::user("12345678")), 4);
}

// ---- summary -------------------------------------------------------------

#[derive(Clone)]
struct FakeSummarizer {
    asked: Rc<RefCell<Vec<String>>>,
    fail: bool,
}

impl FakeSummarizer {
    fn new(fail: bool) -> Self {
        FakeSummarizer {
            asked: Rc::new(RefCell::new(Vec::new())),
            fail,
        }
    }
}

impl Model for FakeSummarizer {
    fn generate(&self, request: &ChatRequest) -> Result<ChatResponse> {
        if self.fail {
            return Err(DaimonError::Model("summarizer unavailable".to_string()));
        }
        let has_previous = request.messages.iter().any(|m| {
            m.content
                .as_ref()
                .is_some_and(|c| c.contains("Previous conversation summary"))
        });
        let last = request.messages.last().and_then(|m| m.content.clone()).unwrap_or_default();
        let count = last.lines().count();
        self.asked
            .borrow_mut()
            .extend(last.lines().filter_map(|l| l.strip_prefix("User: ")).map(str::to_string));
        let text = if has_previous {
            format!("Extended summary incorporating {count} new lines.")
        } else {
            format!("Summary of {count} conversation lines.")
        };
        Ok(ChatResponse {
            message: Message::assistant(&text),
            stop_reason: StopReason::EndTurn,
            usage: Some(Usage::default()),
        })
    }

    fn generate_stream(&self, _request: &ChatRequest) -> Result<Vec<StreamEvent>> {
        Ok(vec![])
    }
}

fn make_memory(max_messages: usize, retain_recent: usize) -> SummaryMemory<FakeSummarizer> {
    SummaryMemory::new(FakeSummarizer::new(false))
        .with_max_messages(max_messages)
        .with_retain_recent(retain_recent)
}

#[test]
fn memories_share_a_summarizer() {
    let model = Arc::new(FakeSummarizer::new(false));
    for _ in 0..2 {
        let mut memory =
            SummaryMemory::new(model.clone()).with_max_messages(2).with_retain_recent(1);
        for t in ["a", "b", "c"] {
            memory.add_message(&Message::user(t)).unwrap();
        }
        assert!(memory.current_summary().is_some());
    }
    assert_eq!(*model.asked.borrow(), ["a", "b", "a", "b"]);
}

#[test]
fn test_add_and_get_below_threshold() {
    let mut memory = make_memory(10, 5);
    memory.add_message(&Message::user("hello")).unwrap();
    memory.add_message(&Message::assistant("hi")).unwrap();
    assert_eq!(memory.get_messages().unwrap().len(), 2);
    assert!(memory.current_summary().is_none());
}

#[test]
fn test_summarizes_when_exceeding_threshold() {
    let mut memory = make_memory(5, 2);
    for i in 0..6 {
        memory.add_message(&Message::user(&format!("message {i}"))).unwrap();
    }
    assert!(memory.current_summary().is_some());
    let msgs = memory.get_messages().unwrap();
    assert_eq!(msgs[0].role, Role::System);
    assert!(msgs[0].content.as_ref().unwrap().contains("Summary"));
}

#[test]
fn test_retains_recent_messages() {
    let mut memory = make_memory(4, 2);
    for i in 0..5 {
        memory.add_message(&Message::user(&format!("msg {i}"))).unwrap();
    }
    let msgs = memory.get_messages().unwrap();
    assert_eq!(msgs.len(), 3);
    assert_eq!(msgs[0].role, Role::System);
    assert_eq!(msgs[1].content.as_deref(), Some("msg 3"));
    assert_eq!(msgs[2].content.as_deref(), Some("msg 4"));
}

#[test]
fn test_clear_resets_summary() {
    let mut memory = make_memory(3, 1);
    for i in 0..5 {
        memory.add_message(&Message::user(&format!("msg {i}"))).unwrap();
    }
    assert!(memory.current_summary().is_some());
    memory.clear().unwrap();
    assert!(memory.current_summary().is_none());
    assert!(memory.get_messages().unwrap().is_empty());
}

#[test]
fn test_incremental_summarization() {
    let mut memory = make_memory(4, 2);
    for i in 0..5 {
        memory.add_message(&Message::user(&format!("batch1 msg {i}"))).unwrap();
    }
    let first = memory.current_summary().unwrap();
    for i in 0..5 {
        memory.add_message(&Message::user(&format!("batch2 msg {i}"))).unwrap();
    }
    let second = memory.current_summary().unwrap();
    assert_ne!(first, second);
}

#[test]
fn test_custom_summary_prompt() {
    let memory = make_memory(3, 1);
    assert_eq!(memory.summary_prompt(), DEFAULT_SUMMARY_PROMPT);
    let memory = memory.with_summary_prompt("Custom summarization instructions");
    assert_eq!(memory.summary_prompt(), "Custom summarization instructions");
}

#[test]
fn summary_test_empty_memory() {
    let memory = make_memory(10, 5);
    assert!(memory.current_summary().is_none());
    assert!(memory.get_messages().unwrap().is_empty());
}

#[test]
fn test_failed_summarization_keeps_messages_and_returns_ok() {
    let mut memory = SummaryMemory::new(FakeSummarizer::new(true))
        .with_max_messages(5)
        .with_retain_recent(2);
    for i in 0..8 {
        memory.add_message(&Message::user(&format!("message {i}"))).unwrap();
    }
    assert!(memory.current_summary().is_none());
    let got = contents(&memory);
    assert_eq!(got.len(), 8);
    for (i, c) in got.iter().enumerate() {
        assert_eq!(*c, format!("message {i}"));
    }
}

#[test]
fn test_concurrent_add_message_loses_no_messages() {
    let model = FakeSummarizer::new(false);
    let mut memory = SummaryMemory::new(model.clone())
        .with_max_messages(5)
        .with_retain_recent(2);
    let mut expected = Vec::new();
    for i in 0..15 {
        for task in ["task-a", "task-b"] {
            let text = format!("{task} {i}");
            memory.add_message(&Message::user(&text)).unwrap();
            expected.push(text);
        }
    }
    let mut seen = model.asked.borrow().clone();
    seen.extend(
        memory
            .get_messages()
            .unwrap()
            .into_iter()
            .filter(|m| m.role == Role::User)
            .filter_map(|m| m.content),
    );
    assert_eq!(seen, expected);
}

#[test]
fn messages_that_arrive_meanwhile_are_kept() {
    let mut memory = make_memory(2, 1);
    for t in ["a", "b", "c"] {
        memory.push(&Message::user(t));
    }
    let job = memory.begin_summary().unwrap();
    memory.push(&Message::user("d"));
    assert!(memory.can_finish(&job));
    assert!(!make_memory(2, 1).can_finish(&job));
    memory.finish_summary(&job, "sum");
    assert_eq!(memory.current_summary().as_deref(), Some("sum"));
    let got = contents(&memory);
    assert_eq!(got[1..], ["c", "d"]);
}

#[test]
fn test_clear_during_summarization_discards_stale_summary() {
    let mut memory = make_memory(3, 1);
    for i in 0..5 {
        memory.push(&Message::user(&format!("msg {i}")));
    }
    let job = memory.begin_summary().unwrap();
    memory.clear().unwrap();
    assert!(memory.can_finish(&job));
    memory.finish_summary(&job, "stale");
    assert!(memory.current_summary().is_none());
    assert!(memory.get_messages().unwrap().is_empty());
    memory.add_message(&Message::user("fresh")).unwrap();
    assert_eq!(contents(&memory), ["fresh"]);
}

// ---- core ----------------------------------------------------------------

#[test]
fn put_and_get_block() {
    let mut mem = InMemoryCoreMemory::new();
    mem.put_block(CoreMemoryBlock::new("persona", "a helpful assistant")).unwrap();
    let blocks = mem.blocks().unwrap();
    assert_eq!(blocks.len(), 1);
    assert_eq!(blocks[0].value, "a helpful assistant");
}

#[test]
fn put_block_overwrites_existing_label() {
    let mut mem = InMemoryCoreMemory::new();
    mem.put_block(CoreMemoryBlock::new("persona", "v1")).unwrap();
    mem.put_block(CoreMemoryBlock::new("persona", "v2")).unwrap();
    let blocks = mem.blocks().unwrap();
    assert_eq!(blocks.len(), 1);
    assert_eq!(blocks[0].value, "v2");
}

#[test]
fn append_block_creates_when_absent() {
    let mut mem = InMemoryCoreMemory::new();
    mem.append_block("notes", "first note").unwrap();
    assert_eq!(mem.blocks().unwrap()[0].value, "first note");
}

#[test]
fn append_block_respects_limit() {
    let mut mem = InMemoryCoreMemory::new();
    mem.put_block(CoreMemoryBlock::new("notes", "1234").with_limit(5)).unwrap();
    mem.append_block("notes", "5").unwrap();
    assert!(mem.append_block("notes", "6").is_err());
    assert_eq!(
        mem.blocks().unwrap()[0].value,
        "12345",
        "rejected append must not mutate value"
    );
}

#[test]
fn remove_block() {
    let mut mem = InMemoryCoreMemory::new();
    mem.put_block(CoreMemoryBlock::new("a", "x")).unwrap();
    assert!(mem.remove_block("a").unwrap());
    assert!(!mem.remove_block("a").unwrap());
    assert!(mem.blocks().unwrap().is_empty());
}

#[test]
fn render_joins_blocks_in_order() {
    let mut mem = InMemoryCoreMemory::new();
    mem.put_block(CoreMemoryBlock::new("persona", "helpful")).unwrap();
    mem.put_block(CoreMemoryBlock::new("user", "likes cats")).unwrap();
    assert_eq!(mem.render().unwrap(), "## persona\nhelpful\n\n## user\nlikes cats");
}

#[test]
fn with_blocks_seeds_store() {
    let mem = InMemoryCoreMemory::with_blocks(vec![
        CoreMemoryBlock::new("a", "1"),
        CoreMemoryBlock::new("b", "2"),
    ])
    .unwrap();
    assert_eq!(mem.blocks().unwrap().len(), 2);
    assert!(InMemoryCoreMemory::with_blocks(vec![CoreMemoryBlock::new("a", "123").with_limit(2)]).is_err());
}

#[test]
fn core_memory_erased_wrapper_works() {
    let mut mem: Box<dyn FnMut() -> String> = Box::new({
        let mut mem = InMemoryCoreMemory::new();
        move || {
            mem.put_block(CoreMemoryBlock::new("a", "1")).unwrap();
            mem.render().unwrap()
        }
    });
    assert_eq!(mem(), "## a\n1");
}

// ---- archival ------------------------------------------------------------

#[test]
fn insert_and_search_by_substring() {
    let mut mem = InMemoryArchivalMemory::new();
    let id = mem.insert("the sky is blue", JsonMap::new()).unwrap();
    mem.insert("grass is green", JsonMap::new()).unwrap();
    let results = mem.search("sky blue", 5).unwrap();
    assert_eq!(results.len(), 1);
    assert_eq!(results[0].id, id);
    assert_eq!(results[0].score, Some(2));
}

#[test]
fn search_respects_top_k() {
    let mut mem = InMemoryArchivalMemory::new();
    for i in 0..5 {
        mem.insert(&format!("fact number {i}"), JsonMap::new()).unwrap();
    }
    assert_eq!(mem.search("fact", 2).unwrap().len(), 2);
}

#[test]
fn search_with_no_matches_is_empty() {
    let mut mem = InMemoryArchivalMemory::new();
    mem.insert("apples and oranges", JsonMap::new()).unwrap();
    assert!(mem.search("bananas", 5).unwrap().is_empty());
    assert!(mem.search("  ", 5).unwrap().is_empty());
    assert!(mem.search("apples", 0).unwrap().is_empty());
}

#[test]
fn delete_and_count() {
    let mut mem = InMemoryArchivalMemory::new();
    let id = mem.insert("fact one", JsonMap::new()).unwrap();
    mem.insert("fact two", JsonMap::new()).unwrap();
    assert_eq!(mem.count().unwrap(), 2);
    assert!(mem.delete(&id).unwrap());
    assert!(!mem.delete(&id).unwrap());
    assert_eq!(mem.count().unwrap(), 1);
    assert_ne!(mem.insert("fact three", JsonMap::new()).unwrap(), id);
}

#[test]
fn metadata_round_trips() {
    let mut mem = InMemoryArchivalMemory::new();
    mem.insert("a fact", JsonMap::new().with("source", Json::text("wiki"))).unwrap();
    let results = mem.search("fact", 1).unwrap();
    assert_eq!(results[0].metadata.get("source").unwrap().as_str(), Some("wiki"));
}

#[test]
fn archival_memory_erased_wrapper_works() {
    let mut mem: Box<dyn ArchivalMemory<usize>> = Box::new(InMemoryArchivalMemory::new());
    mem.insert("erased fact", JsonMap::new()).unwrap();
    assert_eq!(mem.count().unwrap(), 1);
}

#[test]
fn more_matching_words_come_first() {
    let mut mem = InMemoryArchivalMemory::new();
    mem.insert("Blue", JsonMap::new()).unwrap();
    let both = mem.insert("SKY and blue", JsonMap::new()).unwrap();
    let found = mem.search("sky BLUE", 2).unwrap();
    assert_eq!(found[0].id, both);
    assert_eq!(found[1].score, Some(1));
}

struct FakeEmbedder;

impl EmbeddingModel for FakeEmbedder {
    type Element = i64;

    fn embed(&self, inputs: &Vec<String>) -> Result<Vec<Vec<i64>>> {
        Ok(inputs.iter().filter(|t| *t != "none").map(|t| vec![t.len() as i64]).collect())
    }

    fn dimensions(&self) -> usize {
        1
    }
}

struct Store(RefCell<InMemoryVectorStoreBackend<i64>>);

impl VectorStore for Store {
    type Element = i64;

    fn upsert(&self, id: &str, embedding: Vec<i64>, document: Document) -> Result<()> {
        self.0.borrow_mut().upsert(id, embedding, document);
        Ok(())
    }

    fn query(&self, embedding: Vec<i64>, top_k: usize) -> Result<Vec<ScoredDocument>> {
        let store = self.0.borrow();
        let judged: Vec<Judgement> = (0..store.count())
            .map(|i| {
                let key = store.embedding(i).iter().zip(&embedding).map(|(a, b)| a * b).sum();
                Judgement {
                    key,
                    score: Json::sint(key),
                }
            })
            .collect();
        Ok(store.query(&judged, top_k))
    }

    fn delete(&self, id: &str) -> Result<bool> {
        Ok(self.0.borrow_mut().delete(id))
    }

    fn count(&self) -> Result<usize> {
        Ok(self.0.borrow().count())
    }
}

fn vector_memory() -> VectorArchivalMemory<Store, FakeEmbedder> {
    VectorArchivalMemory::new(Store(RefCell::new(InMemoryVectorStoreBackend::new())), FakeEmbedder)
}

#[test]
fn vector_archival_memory_inserts_and_searches() {
    let mut adapter = vector_memory();
    adapter.insert("hello", JsonMap::new()).unwrap();
    adapter.insert("hello world", JsonMap::new()).unwrap();
    assert_eq!(adapter.count().unwrap(), 2);
    assert_eq!(adapter.search("hello", 2).unwrap().len(), 2);
    assert_eq!(
        adapter.insert("none", JsonMap::new()).unwrap_err(),
        DaimonError::Other("embedding model returned no vectors".to_string())
    );
}

#[test]
fn vector_archival_memory_search_ids_round_trip_to_delete() {
    let mut adapter = vector_memory();
    let inserted_id = adapter.insert("hello", JsonMap::new()).unwrap();
    let results = adapter.search("hello", 1).unwrap();
    assert_eq!(results.len(), 1);
    assert_eq!(results[0].id, inserted_id);
    assert!(adapter.delete(&results[0].id).unwrap());
    assert_eq!(adapter.count().unwrap(), 0);
    assert!(adapter.search("hello", 2).unwrap().is_empty());
}

// ---- episodic ------------------------------------------------------------

#[test]
fn record_and_query_all() {
    let mut mem = InMemoryEpisodicMemory::new();
    mem.record("login", json(r#"{"user": "a"}"#)).unwrap();
    mem.record("logout", json(r#"{"user": "a"}"#)).unwrap();
    assert_eq!(mem.query(EpisodicQuery::all()).unwrap().len(), 2);
}

#[test]
fn query_filters_by_type() {
    let mut mem = InMemoryEpisodicMemory::new();
    mem.record("login", Json::Null).unwrap();
    mem.record("logout", Json::Null).unwrap();
    mem.record("login", Json::Null).unwrap();
    let logins = mem.query(EpisodicQuery::all().of_type("login")).unwrap();
    assert_eq!(logins.len(), 2);
    assert!(logins.iter().all(|e| e.event_type == "login"));
}

#[test]
fn query_filters_by_time_range() {
    let mut mem = InMemoryEpisodicMemory::new();
    let id1 = mem.record("tick", Json::Null).unwrap();
    let events = mem.query(EpisodicQuery::all()).unwrap();
    let ts = events.iter().find(|e| e.id == id1).unwrap().timestamp_ms;
    assert!(ts > 1_500_000_000_000);
    assert_eq!(mem.query(EpisodicQuery::all().between(ts, ts)).unwrap().len(), 1);
    assert!(mem
        .query(EpisodicQuery::all().between(ts + 1, ts + 1000))
        .unwrap()
        .is_empty());
}

#[test]
fn query_respects_limit_and_recency_order() {
    let mut mem = InMemoryEpisodicMemory::new();
    for i in 0..5u64 {
        mem.record("tick", Json::uint(i)).unwrap();
    }
    let recent = mem.query(EpisodicQuery::all().limit(2)).unwrap();
    assert_eq!(recent.len(), 2);
    assert_eq!(recent[0].payload.as_u64(), Some(4));
    assert_eq!(recent[1].payload.as_u64(), Some(3));
}

#[test]
fn later_moments_come_first() {
    let mut mem = InMemoryEpisodicMemory::new();
    mem.record_at("b", Json::Null, 20);
    mem.record_at("a", Json::Null, 30);
    mem.record_at("c", Json::Null, 20);
    let kinds: Vec<String> = mem
        .query(EpisodicQuery::all())
        .unwrap()
        .into_iter()
        .map(|e| e.event_type)
        .collect();
    assert_eq!(kinds, ["a", "c", "b"]);
}

#[test]
fn clear_removes_all_events() {
    let mut mem = InMemoryEpisodicMemory::new();
    mem.record("tick", Json::Null).unwrap();
    mem.clear().unwrap();
    assert!(mem.query(EpisodicQuery::all()).unwrap().is_empty());
}

#[test]
fn episodic_memory_erased_wrapper_works() {
    let mut mem: Box<dyn EpisodicMemory> = Box::new(InMemoryEpisodicMemory::new());
    mem.record("tick", Json::Null).unwrap();
    assert_eq!(mem.query(EpisodicQuery::all()).unwrap().len(), 1);
}

// ---- tiered --------------------------------------------------------------

type Tiers = TieredMemory<
    SlidingWindowMemory,
    InMemoryCoreMemory,
    InMemoryArchivalMemory,
    InMemoryEpisodicMemory,
>;

fn tiers() -> Tiers {
    TieredMemory::new(SlidingWindowMemory::new(10))
}

#[test]
fn implements_base_memory_via_conversation() {
    let mut mem = tiers();
    mem.add_message(&Message::user("hi")).unwrap();
    assert_eq!(mem.get_messages().unwrap().len(), 1);
    mem.clear().unwrap();
    assert!(mem.get_messages().unwrap().is_empty());
}

#[test]
fn default_uses_sliding_window() {
    let mut mem = TieredMemory::default();
    for i in 0..60 {
        mem.add_message(&Message::user(&format!("m{i}"))).unwrap();
    }
    assert_eq!(mem.get_messages().unwrap().len(), 50);
}

#[test]
fn tiers_are_independent_of_conversation_clear() {
    let mut core = InMemoryCoreMemory::new();
    core.put_block(CoreMemoryBlock::new("persona", "a helpful bot")).unwrap();
    let mut archival = InMemoryArchivalMemory::new();
    archival.insert("the moon is round", JsonMap::new()).unwrap();
    let mut episodic = InMemoryEpisodicMemory::new();
    episodic.record("started", json("{}")).unwrap();
    let mut mem = tiers()
        .with_core(core)
        .with_archival(archival)
        .with_episodic(episodic);
    mem.add_message(&Message::user("hi")).unwrap();
    mem.clear().unwrap();
    assert!(mem.get_messages().unwrap().is_empty());
    assert_eq!(mem.core_memory().unwrap().blocks().unwrap().len(), 1);
    assert_eq!(mem.archival().unwrap().count().unwrap(), 1);
    assert_eq!(
        mem.episodic().unwrap().query(EpisodicQuery::all()).unwrap().len(),
        1
    );
}

#[test]
fn system_prompt_block_reflects_core_memory() {
    assert!(tiers().system_prompt_block().unwrap().is_none());
    let mut core = InMemoryCoreMemory::new();
    core.put_block(CoreMemoryBlock::new("persona", "concise assistant")).unwrap();
    let mem = tiers().with_core(core);
    assert_eq!(
        mem.system_prompt_block().unwrap().unwrap(),
        "## persona\nconcise assistant"
    );
}

#[test]
fn with_messages_forwards_to_conversation() {
    let mut mem = tiers();
    mem.add_message(&Message::user("hi")).unwrap();
    mem.add_message(&Message::assistant("hello")).unwrap();
    let owned = mem.get_messages().unwrap();
    let borrowed: Vec<Message> = mem.with_messages(|messages: &Vec<Message>| messages.to_vec()).unwrap();
    assert_eq!(borrowed.len(), owned.len());
    for (b, o) in borrowed.iter().zip(&owned) {
        assert_eq!(b.role, o.role);
        assert_eq!(b.content, o.content);
    }
}

#[test]
fn drops_in_as_a_plain_memory() {
    fn accepts_memory<M: Memory>(_m: &M) {}
    let mem = TieredMemory::default();
    accepts_memory(&mem);
}
