//! Documents in memory, embedded as they are added.

use crate::error::Result;
use crate::ranking::{ahead, lists_top, top};
use crate::retriever::in_memory_store::{judged_keys, keys_of, Judgement, StoredEntry};
use crate::retriever::knowledge_base::contents;
use crate::retriever::types::{document_views, Document, DocumentView};
use crate::retriever::vector_store::{
    embed_one, first_or_empty, may_embed, reversed, take_first, EmbeddingModel,
};
use crate::text::texts;
use vstd::prelude::*;

verus! {

/// Documents in memory, embedded as they are added.
pub struct InMemoryVectorStore<E: EmbeddingModel> {
    pub embedding_model: E,
    pub entries: Vec<StoredEntry<E::Element>>,
}

/// Documents with vectors: as many as there are of both.
pub open spec fn zipped<T>(documents: Seq<Document>, vectors: Seq<Vec<T>>) -> Seq<StoredEntry<T>> {
    Seq::new(
        (if documents.len() <= vectors.len() {
            documents.len()
        } else {
            vectors.len()
        }),
        |i: int| StoredEntry { embedding: vectors[i], document: documents[i] },
    )
}

/// The documents at some positions, with their scores.
pub open spec fn documents_at<T>(
    entries: Seq<StoredEntry<T>>,
    judged: Seq<Judgement>,
    order: Seq<usize>,
) -> Seq<DocumentView> {
    Seq::new(
        order.len(),
        |i: int|
            DocumentView {
                score: Some(judged[order[i] as int].score@),
                ..entries[order[i] as int].document@
            },
    )
}

impl<E: EmbeddingModel> InMemoryVectorStore<E> {
    /// No documents.
    pub fn new(embedding_model: E) -> (r: Self)
        ensures
            r.embedding_model == embedding_model,
            r.entries@.len() == 0,
    {
        InMemoryVectorStore { embedding_model, entries: Vec::new() }
    }

    /// Adds a document with its vector. Nothing changes where it has none for an
    /// error.
    pub fn add(&mut self, doc: Document) -> (r: Result<()>)
        ensures
            final(self).embedding_model == old(self).embedding_model,
            exists|e: Result<Vec<Vec<E::Element>>>| #[trigger]
                may_embed(old(self).embedding_model, seq![doc@.content], e) && match e {
                    Err(x) => r is Err && r->Err_0@ == x@ && final(self).entries@
                        == old(self).entries@,
                    Ok(vectors) => {
                        &&& r is Ok
                        &&& exists|v: Vec<E::Element>| #[trigger]
                            first_or_empty(vectors@, v) && final(self).entries@ == old(
                                self,
                            ).entries@.push(StoredEntry { embedding: v, document: doc })
                    },
                },
    {
        let embedded = embed_one(&self.embedding_model, &doc.content);
        assert(may_embed(self.embedding_model, seq![doc@.content], embedded));
        match embedded {
            Err(e) => Err(e),
            Ok(vectors) => {
                let embedding = take_first(vectors);
                assert(first_or_empty(vectors@, embedding));
                self.entries.push(StoredEntry { embedding, document: doc });
                Ok(())
            },
        }
    }

    /// Adds documents with their vectors, asked for at once.
    pub fn add_many(&mut self, docs: Vec<Document>) -> (r: Result<()>)
        ensures
            final(self).embedding_model == old(self).embedding_model,
            exists|e: Result<Vec<Vec<E::Element>>>| #[trigger]
                may_embed(old(self).embedding_model, contents(document_views(docs@)), e)
                    && match e {
                    Err(x) => r is Err && r->Err_0@ == x@ && final(self).entries@
                        == old(self).entries@,
                    Ok(vectors) => r is Ok && final(self).entries@ == old(self).entries@ + zipped(
                        docs@,
                        vectors@,
                    ),
                },
    {
        let mut inputs: Vec<String> = Vec::new();
        let mut i: usize = 0;
        while i < docs.len()
            invariant
                i <= docs@.len(),
                inputs@.len() == i,
                forall|j: int| 0 <= j < i ==> (#[trigger] inputs@[j])@ == docs@[j].content@,
            decreases docs@.len() - i,
        {
            inputs.push(docs[i].content.clone());
            i += 1;
        }
        assert(texts(inputs@) =~= contents(document_views(docs@)));
        let embedded = self.embedding_model.embed(&inputs);
        assert(call_ensures(E::embed, (&self.embedding_model, &inputs), embedded));
        assert(may_embed(self.embedding_model, contents(document_views(docs@)), embedded));
        match embedded {
            Err(e) => Err(e),
            Ok(vectors) => {
                let mut new = zip(docs, vectors);
                self.entries.append(&mut new);
                Ok(())
            },
        }
    }

    /// The number of documents.
    pub fn len(&self) -> (r: usize)
        ensures
            r == self.entries@.len(),
    {
        self.entries.len()
    }

    /// Whether there are no documents.
    pub fn is_empty(&self) -> (r: bool)
        ensures
            r == (self.entries@.len() == 0),
    {
        self.entries.len() == 0
    }

    /// The vector of a query.
    pub fn query_vector(&self, query: &str) -> (r: Result<Vec<E::Element>>)
        ensures
            exists|e: Result<Vec<Vec<E::Element>>>| #[trigger]
                may_embed(self.embedding_model, seq![query@], e) && match e {
                    Err(x) => r is Err && r->Err_0@ == x@,
                    Ok(vectors) => r is Ok && first_or_empty(vectors@, r->Ok_0),
                },
    {
        let embedded = embed_one(&self.embedding_model, query);
        assert(may_embed(self.embedding_model, seq![query@], embedded));
        match embedded {
            Err(e) => Err(e),
            Ok(vectors) => Ok(take_first(vectors)),
        }
    }

    /// The nearest documents with their scores, best first and at most so many.
    /// Each document is judged at its position.
    pub fn retrieve(&self, judged: &Vec<Judgement>, top_k: usize) -> (r: Vec<Document>)
        requires
            judged@.len() == self.entries@.len(),
        ensures
            exists|order: Seq<usize>| #[trigger]
                lists_top(judged_keys(judged@), top_k, order) && document_views(r@)
                    == documents_at(self.entries@, judged@, order),
    {
        let order = top(&keys_of(judged), top_k);
        let mut found: Vec<Document> = Vec::new();
        let mut i: usize = 0;
        while i < order.len()
            invariant
                i <= order@.len(),
                judged@.len() == self.entries@.len(),
                lists_top(judged_keys(judged@), top_k, order@),
                found@.len() == i,
                forall|j: int|
                    0 <= j < i ==> (#[trigger] found@[j])@ == documents_at(
                        self.entries@,
                        judged@,
                        order@,
                    )[j],
            decreases order@.len() - i,
        {
            let p: usize = order[i];
            assert(p < judged_keys(judged@).len());
            let document = self.entries[p].document.clone();
            found.push(document.with_score(judged[p].score.duplicate()));
            i += 1;
        }
        assert(document_views(found@) =~= documents_at(self.entries@, judged@, order@));
        assert(lists_top(judged_keys(judged@), top_k, order@));
        found
    }
}

fn zip<T>(documents: Vec<Document>, vectors: Vec<Vec<T>>) -> (r: Vec<StoredEntry<T>>)
    ensures
        r@ == zipped(documents@, vectors@),
{
    let ghost docs = documents@;
    let ghost vecs = vectors@;
    let mut waiting = reversed(documents);
    let mut points = reversed(vectors);
    let mut out: Vec<StoredEntry<T>> = Vec::new();
    while waiting.len() > 0 && points.len() > 0
        invariant
            out@.len() + waiting@.len() == docs.len(),
            out@.len() + points@.len() == vecs.len(),
            forall|j: int|
                0 <= j < waiting@.len() ==> (#[trigger] waiting@[j]) == docs[docs.len() - 1 - j],
            forall|j: int|
                0 <= j < points@.len() ==> (#[trigger] points@[j]) == vecs[vecs.len() - 1 - j],
            forall|j: int|
                0 <= j < out@.len() ==> (#[trigger] out@[j]) == (StoredEntry {
                    embedding: vecs[j],
                    document: docs[j],
                }),
        decreases waiting@.len(),
    {
        if let (Some(document), Some(embedding)) = (waiting.pop(), points.pop()) {
            out.push(StoredEntry { embedding, document });
        }
    }
    assert(out@ =~= zipped(docs, vecs));
    out
}

/// What is retrieved is stored, each with its own score and with nothing else changed,
/// the nearest first.
pub proof fn retrieved_is_stored<T>(
    entries: Seq<StoredEntry<T>>,
    judged: Seq<Judgement>,
    top_k: usize,
    order: Seq<usize>,
    i: int,
)
    requires
        judged.len() == entries.len(),
        lists_top(judged_keys(judged), top_k, order),
        0 <= i < order.len(),
    ensures
        documents_at(entries, judged, order).len() == order.len(),
        documents_at(entries, judged, order)[i].content == entries[order[i] as int].document@.content,
        documents_at(entries, judged, order)[i].metadata
            == entries[order[i] as int].document@.metadata,
        documents_at(entries, judged, order)[i].score == Some(judged[order[i] as int].score@),
        forall|j: int|
            i < j < order.len() ==> judged[order[i] as int].key >= judged[
            #[trigger] order[j] as int].key,
{
    assert forall|j: int| i < j < order.len() implies judged[order[i] as int].key >= judged[
    #[trigger] order[j] as int].key by {
        assert(ahead(judged_keys(judged), order[i], order[j]));
    }
}

/// Each document is stored with its own vector, as many as there are of both.
pub proof fn documents_meet_their_vectors<T>(documents: Seq<Document>, vectors: Seq<Vec<T>>, i: int)
    requires
        0 <= i < documents.len(),
        i < vectors.len(),
    ensures
        i < zipped(documents, vectors).len(),
        zipped(documents, vectors)[i].document == documents[i],
        zipped(documents, vectors)[i].embedding == vectors[i],
        zipped(documents, vectors).len() == documents.len() || zipped(documents, vectors).len()
            == vectors.len(),
{
}

} // verus!
