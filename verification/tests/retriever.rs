use daimon::error::{DaimonError, Result};
use daimon::json::Json;
use daimon::map::NameMap;
use daimon::ranking::top;
use daimon::retriever::in_memory_store::Judgement;
use daimon::retriever::knowledge_base::{content_hash, id_of};
use daimon::retriever::qdrant::{connection_error, search_error, QdrantRetriever};
use daimon::retriever::tool::format_documents;
use daimon::retriever::{
    Document, EmbeddingModel, ErasedKnowledgeBase, ErasedRetriever, InMemoryVectorStore,
    InMemoryVectorStoreBackend, KnowledgeBase, Retriever, RetrieverTool, ScoredDocument,
    SharedRetriever, SimpleKnowledgeBase, VectorStore,
};
use daimon::tool::Tool;
use std::cell::RefCell;

fn json(text: &str) -> Json {
    Json::parse(text).unwrap()
}

struct FakeRetriever {
    docs: Vec<Document>,
}

impl Retriever for FakeRetriever {
    fn retrieve(&self, query: &str, top_k: usize) -> Result<Vec<Document>> {
        if query == "fail" {
            return Err(DaimonError::Other("no".to_string()));
        }
        Ok(self.docs.iter().take(top_k).cloned().collect())
    }
}

#[test]
fn test_retriever_tool_basic() {
    let retriever = FakeRetriever {
        docs: vec![
            Document::new("Rust is a systems language").with_score(json("0.95")),
            Document::new("Go is a compiled language").with_score(json("0.80")),
        ],
    };
    let tool = RetrieverTool::new(retriever, "search", "Search knowledge base");
    let output = tool.execute(&json(r#"{"query": "what is rust?"}"#)).unwrap();
    assert!(!output.is_error);
    assert!(output.content.contains("Rust is a systems language"));
    assert!(output.content.contains("Go is a compiled language"));
    assert!(output.content.contains("0.95"));
}

#[test]
fn test_retriever_tool_respects_top_k() {
    let retriever = FakeRetriever {
        docs: vec![Document::new("doc1"), Document::new("doc2"), Document::new("doc3")],
    };
    let tool = RetrieverTool::new(retriever, "search", "Search");
    let output = tool.execute(&json(r#"{"query": "test", "top_k": 1}"#)).unwrap();
    assert!(output.content.contains("doc1"));
    assert!(!output.content.contains("doc2"));
    let tool = tool.with_default_top_k(2);
    let output = tool.execute(&json(r#"{"query": "test", "top_k": "many"}"#)).unwrap();
    assert!(output.content.contains("doc2"));
    assert!(!output.content.contains("doc3"));
}

#[test]
fn test_retriever_tool_empty_results() {
    let tool = RetrieverTool::new(FakeRetriever { docs: vec![] }, "search", "Search");
    let output = tool.execute(&json(r#"{"query": "nothing"}"#)).unwrap();
    assert_eq!(output.content, "No relevant documents found.");
    assert_eq!(
        tool.execute(&json(r#"{"query": "fail"}"#)).unwrap_err(),
        DaimonError::Other("no".to_string())
    );
}

#[test]
fn test_retriever_tool_metadata() {
    let doc = Document::new("content")
        .with_metadata("source", json(r#""wiki""#))
        .with_score(json("0.9"));
    let tool = RetrieverTool::new(FakeRetriever { docs: vec![doc] }, "search", "Search");
    let output = tool.execute(&json(r#"{"query": "test"}"#)).unwrap();
    assert!(output.content.contains("source"));
    assert!(output.content.contains("wiki"));
}

#[test]
fn test_retriever_tool_schema() {
    let tool = RetrieverTool::new(FakeRetriever { docs: vec![] }, "search", "Search knowledge");
    let schema = tool.parameters_schema();
    assert_eq!(schema.get("type").unwrap().as_str(), Some("object"));
    assert!(matches!(
        schema.get("properties").unwrap().get("query").unwrap(),
        Json::Object(_)
    ));
    assert_eq!(
        schema.get("required").unwrap().as_array().unwrap()[0].as_str(),
        Some("query")
    );
    assert_eq!(
        schema.get("properties").unwrap().get("top_k").unwrap().get("default").unwrap().as_u64(),
        Some(5)
    );
    assert_eq!(tool.name(), "search");
    assert_eq!(tool.description(), "Search knowledge");
}

#[test]
fn documents_are_laid_out_exactly() {
    let docs = vec![
        Document::new("first")
            .with_score(json("0.25"))
            .with_metadata("a", json(r#"{"k":[1,null]}"#))
            .with_metadata("b", json(r#""x""#)),
        Document::new("second \n").with_score(json("1")),
        Document::new("third").with_score(Json::Null),
    ];
    assert_eq!(
        format_documents(&docs),
        "--- Document 1 ---\nScore: 0.2500\na: {\"k\":[1,null]}\nb: \"x\"\nfirst\n\n\
         --- Document 2 ---\nScore: 1.0000\nsecond \n\n\n\
         --- Document 3 ---\nScore: NaN\nthird"
    );
}

#[test]
fn scores_that_are_not_finite_have_names() {
    for (score, words) in [
        (Json::text("inf"), "inf"),
        (Json::text("-inf"), "-inf"),
        (Json::text("high"), "NaN"),
        (Json::Null, "NaN"),
    ] {
        assert_eq!(
            format_documents(&vec![Document::new("d").with_score(score)]),
            format!("--- Document 1 ---\nScore: {words}\nd")
        );
    }
}

#[test]
fn a_shared_retriever_is_the_retriever() {
    let shared = SharedRetriever::new(FakeRetriever { docs: vec![Document::new("d")] });
    assert_eq!(shared.inner.retrieve_erased("q", 3).unwrap().len(), 1);
    let tool = RetrieverTool::from_shared(shared, "n", "d");
    assert_eq!(tool.default_top_k, 5);
    assert!(tool.execute(&Json::Null).unwrap().content.ends_with("\nd"));
}

// ---- stores --------------------------------------------------------------

fn judged(keys: &[i64]) -> Vec<Judgement> {
    keys.iter()
        .map(|k| Judgement {
            key: *k,
            score: Json::sint(*k),
        })
        .collect()
}

fn near(store: &InMemoryVectorStoreBackend<i64>, query: &[i64]) -> Vec<Judgement> {
    let keys: Vec<i64> = (0..store.count())
        .map(|i| store.embedding(i).iter().zip(query).map(|(a, b)| a * b).sum())
        .collect();
    judged(&keys)
}

#[test]
fn test_upsert_and_query() {
    let mut store = InMemoryVectorStoreBackend::new();
    store.upsert("a", vec![1, 0, 0], Document::new("doc a"));
    store.upsert("b", vec![0, 1, 0], Document::new("doc b"));
    let results = store.query(&near(&store, &[1, 0, 0]), 2);
    assert_eq!(results.len(), 2);
    assert_eq!(results[0].document.content, "doc a");
    assert_eq!(results[0].id, "a");
    assert!(results[0].score.equals(&json("1")));
    assert_eq!(store.query(&near(&store, &[0, 1, 0]), 1)[0].id, "b");
}

#[test]
fn test_upsert_overwrites() {
    let mut store = InMemoryVectorStoreBackend::new();
    store.upsert("a", vec![1, 0], Document::new("old"));
    store.upsert("a", vec![0, 1], Document::new("new"));
    assert_eq!(store.count(), 1);
    let results = store.query(&near(&store, &[0, 1]), 1);
    assert_eq!(results[0].document.content, "new");
}

#[test]
fn test_delete() {
    let mut store = InMemoryVectorStoreBackend::new();
    store.upsert("a", vec![1], Document::new("doc"));
    let found = store.query(&near(&store, &[1]), 1);
    assert!(store.delete(&found[0].id));
    assert!(!store.delete("nonexistent"));
    assert_eq!(store.count(), 0);
}

#[test]
fn test_count() {
    let mut store = InMemoryVectorStoreBackend::new();
    assert_eq!(store.count(), 0);
    store.upsert("a", vec![1], Document::new("a"));
    store.upsert("b", vec![0], Document::new("b"));
    assert_eq!(store.count(), 2);
}

#[test]
fn the_best_come_first_and_ties_keep_their_order() {
    assert_eq!(top(&vec![3, 9, 3, 10, -1], 4), [3, 1, 0, 2]);
    assert_eq!(top(&vec![3, 9], 0), Vec::<usize>::new());
    assert_eq!(top(&vec![5, 5, 5], 9), [0, 1, 2]);
    assert_eq!(top(&vec![], 2), Vec::<usize>::new());
}

// ---- embeddings ----------------------------------------------------------

/// One coordinate: the number of characters.
struct Lengths {
    limit: usize,
}

impl EmbeddingModel for Lengths {
    type Element = i64;

    fn embed(&self, inputs: &Vec<String>) -> Result<Vec<Vec<i64>>> {
        if inputs.iter().any(|i| i == "fail") {
            return Err(DaimonError::Model("embed".to_string()));
        }
        Ok(inputs.iter().take(self.limit).map(|i| vec![i.len() as i64]).collect())
    }

    fn dimensions(&self) -> usize {
        1
    }
}

#[derive(Default)]
struct Recorder {
    stored: RefCell<Vec<(String, Vec<i64>, Document)>>,
    refuse: Option<String>,
}

impl VectorStore for Recorder {
    type Element = i64;

    fn upsert(&self, id: &str, embedding: Vec<i64>, document: Document) -> Result<()> {
        if self.refuse.as_deref() == Some(id) {
            return Err(DaimonError::Other("full".to_string()));
        }
        self.stored.borrow_mut().push((id.to_string(), embedding, document));
        Ok(())
    }

    fn query(&self, embedding: Vec<i64>, top_k: usize) -> Result<Vec<ScoredDocument>> {
        Ok(self
            .stored
            .borrow()
            .iter()
            .filter(|(_, v, _)| *v == embedding)
            .take(top_k)
            .map(|(id, _, d)| ScoredDocument {
                id: id.clone(),
                document: d.clone(),
                score: Json::uint(1),
            })
            .collect())
    }

    fn delete(&self, id: &str) -> Result<bool> {
        let mut stored = self.stored.borrow_mut();
        let before = stored.len();
        stored.retain(|(i, _, _)| i != id);
        Ok(stored.len() < before)
    }

    fn count(&self) -> Result<usize> {
        Ok(self.stored.borrow().len())
    }
}

fn named(id: &str, content: &str) -> Document {
    Document::new(content).with_metadata("id", Json::text(id))
}

#[test]
fn a_knowledge_base_takes_in_and_finds() {
    let kb = SimpleKnowledgeBase::new(Lengths { limit: 9 }, Recorder::default());
    let ids = kb.ingest(vec![named("one", "abc"), Document::new("abcd")]).unwrap();
    assert_eq!(ids[0], "one");
    assert_eq!(ids[1], content_hash("abcd"));
    assert_eq!(kb.count().unwrap(), 2);
    let found = kb.search("xyz", 5).unwrap();
    assert_eq!(found.len(), 1);
    assert_eq!(found[0].content, "abc");
    assert!(found[0].score.as_ref().unwrap().equals(&json("1")));
    assert_eq!(kb.retrieve("xyz", 0).unwrap().len(), 0);
    assert!(kb.remove("one").unwrap());
    assert!(!kb.remove("one").unwrap());
    assert_eq!(kb.store().stored.borrow().len(), 1);
    assert_eq!(kb.count_erased().unwrap(), 1);
    assert!(kb.remove_erased(&ids[1]).unwrap());
    assert!(kb.search_erased("abcd", 1).unwrap().is_empty());
    assert!(kb.ingest_erased(vec![]).unwrap().is_empty());
}

#[test]
fn taking_in_stops_at_the_first_refusal() {
    let store = Recorder {
        refuse: Some("two".to_string()),
        ..Default::default()
    };
    let kb = SimpleKnowledgeBase::new(Lengths { limit: 9 }, store);
    let r = kb.ingest(vec![named("one", "a"), named("two", "b"), named("three", "c")]);
    assert_eq!(r.unwrap_err(), DaimonError::Other("full".to_string()));
    assert_eq!(kb.count().unwrap(), 1);
    assert_eq!(
        kb.ingest(vec![Document::new("fail")]).unwrap_err(),
        DaimonError::Model("embed".to_string())
    );
    assert_eq!(
        kb.search("fail", 1).unwrap_err(),
        DaimonError::Model("embed".to_string())
    );
}

#[test]
fn documents_without_a_vector_are_left_out() {
    let kb = SimpleKnowledgeBase::new(Lengths { limit: 1 }, Recorder::default());
    let ids = kb.ingest(vec![named("one", "a"), named("two", "b")]).unwrap();
    assert_eq!(ids, ["one"]);
    let kb = SimpleKnowledgeBase::new(Lengths { limit: 0 }, Recorder::default());
    assert!(kb.ingest(vec![named("one", "a")]).unwrap().is_empty());
    assert!(kb.search("q", 3).unwrap().is_empty());
}

#[test]
fn identifiers_are_digests_of_the_text() {
    let id = content_hash("Rust is a systems language");
    assert!(id.starts_with("doc_"));
    assert_eq!(id.len(), 20);
    assert!(id[4..].chars().all(|c| c.is_ascii_hexdigit() && !c.is_ascii_uppercase()));
    assert_eq!(id, content_hash("Rust is a systems language"));
    assert_ne!(id, content_hash("Rust is a systems languag"));
    assert_eq!(id_of(&named("mine", "x")), "mine");
    let odd = Document::new("x").with_metadata("id", Json::uint(4));
    assert_eq!(id_of(&odd), content_hash("x"));
}

#[test]
fn documents_in_memory_are_embedded_and_ranked() {
    let mut store = InMemoryVectorStore::new(Lengths { limit: 9 });
    assert!(store.is_empty());
    store.add(Document::new("abc")).unwrap();
    store.add_many(vec![Document::new("a"), Document::new("ab")]).unwrap();
    assert_eq!(store.len(), 3);
    assert!(store.add(Document::new("fail")).is_err());
    assert!(store.add_many(vec![Document::new("x"), Document::new("fail")]).is_err());
    assert_eq!(store.len(), 3);
    let q = store.query_vector("abcd").unwrap();
    assert_eq!(q, [4]);
    let keys: Vec<i64> = store.entries.iter().map(|e| e.embedding[0] * q[0]).collect();
    let found = store.retrieve(&judged(&keys), 2);
    assert_eq!(found.len(), 2);
    assert_eq!(found[0].content, "abc");
    assert!(found[0].score.as_ref().unwrap().equals(&json("12")));
    assert_eq!(found[1].content, "ab");
    let mut short = InMemoryVectorStore::new(Lengths { limit: 1 });
    short.add_many(vec![Document::new("x"), Document::new("y")]).unwrap();
    assert_eq!(short.len(), 1);
}

// ---- Qdrant --------------------------------------------------------------

#[test]
fn points_become_documents() {
    let mut payload: NameMap<Option<String>> = NameMap::new();
    payload.insert("content".to_string(), Some("the text".to_string()));
    payload.insert("source".to_string(), Some("wiki".to_string()));
    payload.insert("pages".to_string(), None);
    let q = QdrantRetriever::new("docs");
    assert_eq!(q.collection, "docs");
    let d = q.document(&payload, json("0.5"));
    assert_eq!(d.content, "the text");
    assert_eq!(d.metadata.len(), 1);
    assert_eq!(d.metadata.get("source").unwrap().as_str(), Some("wiki"));
    assert!(d.score.unwrap().equals(&json("0.5")));
    let d = q.with_content_field("pages").document(&payload, Json::Null);
    assert_eq!(d.content, "");
    assert_eq!(d.metadata.len(), 2);
    assert_eq!(connection_error("x").message(), "Qdrant connection error: x");
    assert_eq!(search_error("x").message(), "Qdrant search error: x");
}
