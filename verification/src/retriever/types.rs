//! Documents.

use crate::json::{Json, JsonMap, JsonView};
use crate::text::owned;
use vstd::prelude::*;

verus! {

/// A text with what is known about it.
#[derive(Debug, PartialEq)]
pub struct Document {
    pub content: String,
    pub metadata: JsonMap,
    /// How well it answers a query, as JSON has it: a number, or `null` for one
    /// that is not finite.
    pub score: Option<Json>,
}

/// A document, as contracts speak of it.
pub struct DocumentView {
    pub content: Seq<char>,
    pub metadata: Map<Seq<char>, JsonView>,
    pub score: Option<JsonView>,
}

impl View for Document {
    type V = DocumentView;

    open spec fn view(&self) -> DocumentView {
        DocumentView {
            content: self.content@,
            metadata: self.metadata@,
            score: match self.score {
                Some(s) => Some(s@),
                None => None,
            },
        }
    }
}

/// The models of a list of documents.
pub open spec fn document_views(s: Seq<Document>) -> Seq<DocumentView> {
    Seq::new(s.len(), |i: int| s[i]@)
}

/// A document with text alone.
pub open spec fn bare_document(content: Seq<char>) -> DocumentView {
    DocumentView { content, metadata: Map::empty(), score: None }
}

impl Document {
    /// A document with text alone.
    pub fn new(content: &str) -> (r: Self)
        ensures
            r@ == bare_document(content@),
    {
        Document { content: owned(content), metadata: JsonMap::new(), score: None }
    }

    /// Sets a metadata entry.
    pub fn with_metadata(self, key: &str, value: Json) -> (r: Self)
        ensures
            r@ == (DocumentView { metadata: self@.metadata.insert(key@, value@), ..self@ }),
    {
        let Document { content, metadata, score } = self;
        let mut metadata = metadata;
        metadata.insert(owned(key), value);
        Document { content, metadata, score }
    }

    /// Sets the score.
    pub fn with_score(self, score: Json) -> (r: Self)
        ensures
            r@ == (DocumentView { score: Some(score@), ..self@ }),
    {
        Document { content: self.content, metadata: self.metadata, score: Some(score) }
    }
}

impl Clone for Document {
    fn clone(&self) -> (r: Self)
        ensures
            r@ == self@,
    {
        Document {
            content: self.content.clone(),
            metadata: self.metadata.duplicate(),
            score: match &self.score {
                Some(s) => Some(s.duplicate()),
                None => None,
            },
        }
    }
}

/// A document that a vector store found.
#[derive(Debug, PartialEq)]
pub struct ScoredDocument {
    /// The identifier under which it was stored.
    pub id: String,
    pub document: Document,
    /// How well it answers the query, as JSON has it.
    pub score: Json,
}

/// A found document, as contracts speak of it.
pub struct ScoredView {
    pub id: Seq<char>,
    pub document: DocumentView,
    pub score: JsonView,
}

impl View for ScoredDocument {
    type V = ScoredView;

    open spec fn view(&self) -> ScoredView {
        ScoredView { id: self.id@, document: self.document@, score: self.score@ }
    }
}

/// The models of a list of found documents.
pub open spec fn scored_views(s: Seq<ScoredDocument>) -> Seq<ScoredView> {
    Seq::new(s.len(), |i: int| s[i]@)
}

} // verus!
