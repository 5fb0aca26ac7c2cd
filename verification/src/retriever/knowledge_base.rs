//! A knowledge base: documents go in as text and are found by meaning.

use crate::error::{ErrorView, Outcome, Result};
use crate::json::{Json, JsonView};
use crate::retriever::traits::Retriever;
use crate::retriever::types::{
    document_views, scored_views, Document, DocumentView, ScoredDocument, ScoredView,
};
use crate::retriever::vector_store::{
    embed_one, first_or_empty, may_embed, may_upsert, reversed, store_one, take_first,
    EmbeddingModel, VectorStore,
};
use crate::text::{cat2, hex_text, numeral, texts, zero_padded};
use std::collections::hash_map::DefaultHasher;
use std::hash::{Hash, Hasher};
use vstd::prelude::*;
use vstd::std_specs::hash::DefaultHasherAdditionalSpecFns;

verus! {

/// A collection of documents that can be searched.
pub trait KnowledgeBase {
    /// Takes documents in. Hands back their identifiers.
    fn ingest(&self, documents: Vec<Document>) -> (r: Result<Vec<String>>);

    /// The documents nearest to a query, best first and at most so many.
    fn search(&self, query: &str, top_k: usize) -> (r: Result<Vec<Document>>);

    /// Removes a document. Says whether there was one.
    fn remove(&self, id: &str) -> (r: Result<bool>);

    /// The number of documents.
    fn count(&self) -> (r: Result<usize>);
}

/// A [`KnowledgeBase`] behind a name of its own for each method.
pub trait ErasedKnowledgeBase {
    /// Takes documents in. Hands back their identifiers.
    fn ingest_erased(&self, documents: Vec<Document>) -> (r: Result<Vec<String>>);

    /// The documents nearest to a query, best first and at most so many.
    fn search_erased(&self, query: &str, top_k: usize) -> (r: Result<Vec<Document>>);

    /// Removes a document. Says whether there was one.
    fn remove_erased(&self, id: &str) -> (r: Result<bool>);

    /// The number of documents.
    fn count_erased(&self) -> (r: Result<usize>);
}

impl<T: KnowledgeBase> ErasedKnowledgeBase for T {
    fn ingest_erased(&self, documents: Vec<Document>) -> (r: Result<Vec<String>>)
        ensures
            call_ensures(T::ingest, (self, documents), r),
    {
        self.ingest(documents)
    }

    fn search_erased(&self, query: &str, top_k: usize) -> (r: Result<Vec<Document>>)
        ensures
            call_ensures(T::search, (self, query, top_k), r),
    {
        self.search(query, top_k)
    }

    fn remove_erased(&self, id: &str) -> (r: Result<bool>)
        ensures
            call_ensures(T::remove, (self, id), r),
    {
        self.remove(id)
    }

    fn count_erased(&self) -> (r: Result<usize>)
        ensures
            call_ensures(T::count, (self,), r),
    {
        self.count()
    }
}

// ---------------------------------------------------------------------
// Identifiers
// ---------------------------------------------------------------------

/// The byte strings that the `Hash` of a text hands to a hasher.
pub uninterp spec fn hashed_bytes(text: Seq<char>) -> Seq<Seq<u8>>;

/// The `Hash` of `str` hands the bytes of the text to the hasher, in pieces that
/// depend on the text alone.
#[verifier::external_body]
fn hash_text(text: &str, hasher: &mut DefaultHasher)
    ensures
        final(hasher)@ == old(hasher)@ + hashed_bytes(text@),
{
    text.hash(hasher);
}

/// The identifier of a document that has none of its own: a digest of its text.
pub open spec fn content_id(content: Seq<char>) -> Seq<char> {
    "doc_"@ + zero_padded(
        numeral(DefaultHasher::spec_finish(hashed_bytes(content)) as nat, 16),
        16,
    )
}

/// The identifier of a document that has none of its own: a digest of its text.
pub fn content_hash(content: &str) -> (r: String)
    ensures
        r@ == content_id(content@),
{
    let mut hasher = DefaultHasher::new();
    hash_text(content, &mut hasher);
    assert(hasher@ =~= hashed_bytes(content@));
    let digest: u64 = hasher.finish();
    cat2("doc_", &hex_text(digest as u128, 16))
}

/// The identifier of a document: the one that its metadata names, or a digest of
/// its text.
pub open spec fn document_id(d: DocumentView) -> Seq<char> {
    if d.metadata.contains_key("id"@) && d.metadata["id"@] is Str {
        d.metadata["id"@]->Str_0
    } else {
        content_id(d.content)
    }
}

/// The identifier of a document.
pub fn id_of(document: &Document) -> (r: String)
    ensures
        r@ == document_id(document@),
{
    match document.metadata.get("id") {
        Some(Json::Str(s)) => s.clone(),
        _ => content_hash(&document.content),
    }
}

/// A document that has no identifier of its own gets one from its text alone: the
/// same text goes to the same place.
pub proof fn same_text_same_id(a: DocumentView, b: DocumentView)
    requires
        a.content == b.content,
        !a.metadata.contains_key("id"@),
        !b.metadata.contains_key("id"@),
    ensures
        document_id(a) == document_id(b),
{
}

// ---------------------------------------------------------------------
// Taking in
// ---------------------------------------------------------------------

/// Whether storing documents under their identifiers may end in this way, with
/// some stored already. It ends with the shorter of the two lists.
pub open spec fn may_store<V: VectorStore>(
    store: V,
    documents: Seq<DocumentView>,
    vectors: Seq<Vec<V::Element>>,
    known: Seq<Seq<char>>,
    r: Outcome<Seq<Seq<char>>>,
) -> bool
    decreases documents.len(),
{
    if documents.len() == 0 || vectors.len() == 0 {
        r == Ok::<Seq<Seq<char>>, ErrorView>(known)
    } else {
        exists|u: Result<()>| #[trigger]
            may_upsert(store, document_id(documents[0]), vectors[0], documents[0], u) && match u {
                Err(e) => r == Err::<Seq<Seq<char>>, ErrorView>(e@),
                Ok(_) => may_store(
                    store,
                    documents.skip(1),
                    vectors.skip(1),
                    known.push(document_id(documents[0])),
                    r,
                ),
            }
    }
}

/// The texts of some documents.
pub open spec fn contents(documents: Seq<DocumentView>) -> Seq<Seq<char>> {
    documents.map_values(|d: DocumentView| d.content)
}

/// The model of some identifiers, or of an error.
pub open spec fn ids_outcome(r: Result<Vec<String>>) -> Outcome<Seq<Seq<char>>> {
    match r {
        Ok(ids) => Ok(texts(ids@)),
        Err(e) => Err(e@),
    }
}

/// Whether taking documents in may end in this way. Nothing is asked of anyone
/// where there are none.
pub open spec fn may_ingest<V: VectorStore, E: EmbeddingModel<Element = V::Element>>(
    store: V,
    model: E,
    documents: Seq<DocumentView>,
    r: Outcome<Seq<Seq<char>>>,
) -> bool {
    if documents.len() == 0 {
        r == Ok::<Seq<Seq<char>>, ErrorView>(Seq::empty())
    } else {
        exists|e: Result<Vec<Vec<E::Element>>>| #[trigger]
            may_embed(model, contents(documents), e) && match e {
                Err(x) => r == Err::<Seq<Seq<char>>, ErrorView>(x@),
                Ok(vectors) => may_store(store, documents, vectors@, Seq::empty(), r),
            }
    }
}

fn store_all<V: VectorStore>(
    store: &V,
    documents: Vec<Document>,
    vectors: Vec<Vec<V::Element>>,
) -> (r: Result<Vec<String>>)
    ensures
        may_store(*store, document_views(documents@), vectors@, Seq::empty(), ids_outcome(r)),
{
    let ghost docs = document_views(documents@);
    let ghost vecs = vectors@;
    let mut ids: Vec<String> = Vec::new();
    let mut waiting = reversed(documents);
    let mut points = reversed(vectors);
    assert(texts(ids@) =~= Seq::<Seq<char>>::empty());
    assert(docs.skip(0) =~= docs);
    assert(vecs.skip(0) =~= vecs);
    let ghost mut i: int = 0;
    while waiting.len() > 0 && points.len() > 0
        invariant
            0 <= i,
            docs == document_views(documents@),
            vecs == vectors@,
            i + waiting@.len() == docs.len(),
            i + points@.len() == vecs.len(),
            forall|j: int|
                0 <= j < waiting@.len() ==> (#[trigger] waiting@[j])@ == docs[docs.len() - 1
                    - j],
            forall|j: int|
                0 <= j < points@.len() ==> (#[trigger] points@[j]) == vecs[vecs.len() - 1 - j],
            forall|o: Outcome<Seq<Seq<char>>>| #[trigger]
                may_store(
                    *store,
                    docs.skip(i),
                    vecs.skip(i),
                    texts(ids@),
                    o,
                ) ==> may_store(*store, docs, vecs, Seq::empty(), o),
        decreases waiting@.len(),
    {
        let ghost at = i;
        let ghost known = texts(ids@);
        let (document, vector) = match (waiting.pop(), points.pop()) {
            (Some(d), Some(v)) => (d, v),
            _ => {
                assert(false);
                return Ok(ids);
            },
        };
        assert(document@ == docs[at]);
        assert(vector == vecs[at]);
        assert(docs.skip(at)[0] == docs[at]);
        assert(vecs.skip(at)[0] == vecs[at]);
        let id = id_of(&document);
        let ghost name = id@;
        let ghost doc = document@;
        let ghost by = vector;
        let u = store_one(store, &id, vector, document);
        assert(may_upsert(*store, name, by, doc, u));
        match u {
            Err(e) => {
                let ghost o = Err::<Seq<Seq<char>>, ErrorView>(e@);
                assert(may_store(*store, docs.skip(at), vecs.skip(at), known, o));
                return Err(e);
            },
            Ok(_) => {
                ids.push(id);
                assert(texts(ids@) =~= known.push(name));
                assert(docs.skip(at).skip(1) =~= docs.skip(at + 1));
                assert(vecs.skip(at).skip(1) =~= vecs.skip(at + 1));
                assert forall|o: Outcome<Seq<Seq<char>>>| #[trigger]
                    may_store(
                        *store,
                        docs.skip(at + 1),
                        vecs.skip(at + 1),
                        texts(ids@),
                        o,
                    ) implies may_store(*store, docs, vecs, Seq::empty(), o) by {
                    assert(may_store(*store, docs.skip(at), vecs.skip(at), known, o));
                }
            },
        }
        proof {
            i = i + 1;
        }
    }
    let ghost o = Ok::<Seq<Seq<char>>, ErrorView>(texts(ids@));
    assert(may_store(*store, docs.skip(i), vecs.skip(i), texts(ids@), o));
    Ok(ids)
}

/// What is taken in is known by the identifiers that are handed back: one for
/// each document that has a vector, in order.
pub proof fn ids_are_those_of_the_documents<V: VectorStore>(
    store: V,
    documents: Seq<DocumentView>,
    vectors: Seq<Vec<V::Element>>,
    known: Seq<Seq<char>>,
    ids: Seq<Seq<char>>,
)
    requires
        may_store(store, documents, vectors, known, Ok(ids)),
    ensures
        ids == known + Seq::new(
            (if documents.len() <= vectors.len() {
                documents.len()
            } else {
                vectors.len()
            }),
            |i: int| document_id(documents[i]),
        ),
    decreases documents.len(),
{
    let n = if documents.len() <= vectors.len() {
        documents.len()
    } else {
        vectors.len()
    };
    let all = Seq::new(n, |i: int| document_id(documents[i]));
    if n == 0 {
        assert(known + all =~= known);
    } else {
        let first = document_id(documents[0]);
        ids_are_those_of_the_documents(
            store,
            documents.skip(1),
            vectors.skip(1),
            known.push(first),
            ids,
        );
        let rest = Seq::new((n - 1) as nat, |i: int| document_id(documents.skip(1)[i]));
        assert(known.push(first) + rest =~= known + all);
    }
}

// ---------------------------------------------------------------------
// Searching
// ---------------------------------------------------------------------

/// Found documents with their scores.
pub open spec fn scored(found: Seq<ScoredView>) -> Seq<DocumentView> {
    found.map_values(|s: ScoredView| DocumentView { score: Some(s.score), ..s.document })
}

/// The model of some documents, or of an error.
pub open spec fn documents_outcome(r: Result<Vec<Document>>) -> Outcome<Seq<DocumentView>> {
    match r {
        Ok(docs) => Ok(document_views(docs@)),
        Err(e) => Err(e@),
    }
}

/// Whether a search may end in this way: the store is asked for what is nearest
/// to the first vector of the query.
pub open spec fn may_search<V: VectorStore, E: EmbeddingModel<Element = V::Element>>(
    store: V,
    model: E,
    query: Seq<char>,
    top_k: usize,
    r: Outcome<Seq<DocumentView>>,
) -> bool {
    exists|e: Result<Vec<Vec<E::Element>>>| #[trigger]
        may_embed(model, seq![query], e) && match e {
            Err(x) => r == Err::<Seq<DocumentView>, ErrorView>(x@),
            Ok(vectors) => exists|by: Vec<V::Element>, q: Result<Vec<ScoredDocument>>|
                first_or_empty(vectors@, by) && #[trigger] call_ensures(
                    V::query,
                    (&store, by, top_k),
                    q,
                ) && match q {
                    Err(x) => r == Err::<Seq<DocumentView>, ErrorView>(x@),
                    Ok(found) => r == Ok::<Seq<DocumentView>, ErrorView>(
                        scored(scored_views(found@)),
                    ),
                },
        }
}

fn with_scores(found: Vec<ScoredDocument>) -> (r: Vec<Document>)
    ensures
        document_views(r@) == scored(scored_views(found@)),
{
    let ghost all = scored_views(found@);
    let mut found = reversed(found);
    let mut docs: Vec<Document> = Vec::new();
    while found.len() > 0
        invariant
            docs@.len() + found@.len() == all.len(),
            forall|j: int|
                0 <= j < found@.len() ==> (#[trigger] found@[j])@ == all[all.len() - 1 - j],
            forall|j: int|
                0 <= j < docs@.len() ==> (#[trigger] docs@[j])@ == (DocumentView {
                    score: Some(all[j].score),
                    ..all[j].document
                }),
        decreases found@.len(),
    {
        let ghost next = docs@.len() as int;
        if let Some(s) = found.pop() {
            assert(s@ == all[next]);
            docs.push(s.document.with_score(s.score));
        }
    }
    assert(document_views(docs@) =~= scored(all));
    docs
}

/// A knowledge base of an embedding model and a vector store.
pub struct SimpleKnowledgeBase<V, E> {
    embedding_model: E,
    store: V,
}

impl<V, E> SimpleKnowledgeBase<V, E> {
    /// The embedding model.
    pub closed spec fn model_held(&self) -> E {
        self.embedding_model
    }

    /// The vector store.
    pub closed spec fn store_held(&self) -> V {
        self.store
    }

    /// A knowledge base of an embedding model and a vector store.
    pub fn new(embedding_model: E, store: V) -> (r: Self)
        ensures
            r.model_held() == embedding_model,
            r.store_held() == store,
    {
        SimpleKnowledgeBase { embedding_model, store }
    }

    /// The vector store.
    pub fn store(&self) -> (r: &V)
        ensures
            *r == self.store_held(),
    {
        &self.store
    }
}

impl<V: VectorStore, E: EmbeddingModel<Element = V::Element>> KnowledgeBase for SimpleKnowledgeBase<
    V,
    E,
> {
    fn ingest(&self, documents: Vec<Document>) -> (r: Result<Vec<String>>)
        ensures
            may_ingest(
                self.store_held(),
                self.model_held(),
                document_views(documents@),
                ids_outcome(r),
            ),
    {
        if documents.len() == 0 {
            let none: Vec<String> = Vec::new();
            assert(texts(none@) =~= Seq::<Seq<char>>::empty());
            return Ok(none);
        }
        let ghost docs = document_views(documents@);
        let mut inputs: Vec<String> = Vec::new();
        let mut i: usize = 0;
        while i < documents.len()
            invariant
                i <= documents@.len(),
                docs == document_views(documents@),
                inputs@.len() == i,
                forall|j: int| 0 <= j < i ==> (#[trigger] inputs@[j])@ == docs[j].content,
            decreases documents@.len() - i,
        {
            inputs.push(documents[i].content.clone());
            i += 1;
        }
        assert(texts(inputs@) =~= contents(docs));
        let embedded = self.embedding_model.embed(&inputs);
        assert(call_ensures(E::embed, (&self.embedding_model, &inputs), embedded));
        assert(may_embed(self.model_held(), contents(docs), embedded));
        match embedded {
            Err(e) => Err(e),
            Ok(vectors) => store_all(&self.store, documents, vectors),
        }
    }

    fn search(&self, query: &str, top_k: usize) -> (r: Result<Vec<Document>>)
        ensures
            may_search(
                self.store_held(),
                self.model_held(),
                query@,
                top_k,
                documents_outcome(r),
            ),
    {
        let embedded = embed_one(&self.embedding_model, query);
        assert(may_embed(self.model_held(), seq![query@], embedded));
        match embedded {
            Err(e) => Err(e),
            Ok(vectors) => {
                let vector = take_first(vectors);
                let ghost by = vector;
                let found = self.store.query(vector, top_k);
                assert(call_ensures(V::query, (&self.store_held(), by, top_k), found));
                match found {
                    Err(e) => Err(e),
                    Ok(found) => Ok(with_scores(found)),
                }
            },
        }
    }

    fn remove(&self, id: &str) -> (r: Result<bool>)
        ensures
            call_ensures(V::delete, (&self.store_held(), id), r),
    {
        self.store.delete(id)
    }

    fn count(&self) -> (r: Result<usize>)
        ensures
            call_ensures(V::count, (&self.store_held(),), r),
    {
        self.store.count()
    }
}

impl<V: VectorStore, E: EmbeddingModel<Element = V::Element>> Retriever for SimpleKnowledgeBase<
    V,
    E,
> {
    open spec fn may_find(
        &self,
        query: Seq<char>,
        top_k: usize,
        r: Result<Vec<Document>>,
    ) -> bool {
        may_search(self.store_held(), self.model_held(), query, top_k, documents_outcome(r))
    }

    fn retrieve(&self, query: &str, top_k: usize) -> (r: Result<Vec<Document>>) {
        self.search(query, top_k)
    }
}

/// What is taken in is stored: each document that has a vector under its identifier,
/// with that vector.
pub proof fn every_document_is_stored<V: VectorStore>(
    store: V,
    documents: Seq<DocumentView>,
    vectors: Seq<Vec<V::Element>>,
    known: Seq<Seq<char>>,
    ids: Seq<Seq<char>>,
    i: int,
)
    requires
        may_store(store, documents, vectors, known, Ok(ids)),
        0 <= i < documents.len(),
        i < vectors.len(),
    ensures
        exists|u: Result<()>| #[trigger]
            may_upsert(store, ids[known.len() + i], vectors[i], documents[i], u) && u is Ok,
    decreases documents.len(),
{
    ids_are_those_of_the_documents(store, documents, vectors, known, ids);
    let u = choose|u: Result<()>| #[trigger]
        may_upsert(store, document_id(documents[0]), vectors[0], documents[0], u) && match u {
            Err(e) => Ok::<Seq<Seq<char>>, ErrorView>(ids) == Err::<Seq<Seq<char>>, ErrorView>(e@),
            Ok(_) => may_store(
                store,
                documents.skip(1),
                vectors.skip(1),
                known.push(document_id(documents[0])),
                Ok(ids),
            ),
        };
    if i == 0 {
        assert(may_upsert(store, ids[known.len() + i], vectors[i], documents[i], u) && u is Ok);
    } else {
        every_document_is_stored(
            store,
            documents.skip(1),
            vectors.skip(1),
            known.push(document_id(documents[0])),
            ids,
            i - 1,
        );
        assert(documents.skip(1)[i - 1] == documents[i]);
        assert(vectors.skip(1)[i - 1] == vectors[i]);
        let n = known.push(document_id(documents[0])).len() + (i - 1);
        assert(n == known.len() + i);
        let later = choose|u: Result<()>| #[trigger]
            may_upsert(store, ids[n], vectors.skip(1)[i - 1], documents.skip(1)[i - 1], u)
                && u is Ok;
        assert(may_upsert(store, ids[known.len() + i], vectors[i], documents[i], later));
    }
}

/// A document goes by the identifier that its metadata names.
pub proof fn named_documents_keep_their_names(d: DocumentView, name: Seq<char>)
    requires
        d.metadata.contains_key("id"@),
        d.metadata["id"@] == JsonView::Str(name),
    ensures
        document_id(d) == name,
{
}

/// What was found is handed on with its scores, and with nothing else changed.
pub proof fn found_documents_keep_their_contents(found: Seq<ScoredView>, i: int)
    requires
        0 <= i < found.len(),
    ensures
        scored(found).len() == found.len(),
        scored(found)[i].content == found[i].document.content,
        scored(found)[i].metadata == found[i].document.metadata,
        scored(found)[i].score == Some(found[i].score),
{
}

/// A search that ends well asked the store for so many documents nearest to the first
/// vector of the query, and hands on what the store found, in order, with its scores.
pub proof fn searches_hand_on_what_is_found<V: VectorStore, E: EmbeddingModel<Element = V::Element>>(
    store: V,
    model: E,
    query: Seq<char>,
    top_k: usize,
    docs: Seq<DocumentView>,
)
    requires
        may_search(store, model, query, top_k, Ok(docs)),
    ensures
        exists|vectors: Vec<Vec<E::Element>>, by: Vec<V::Element>, found: Vec<ScoredDocument>|
            {
                &&& #[trigger] may_embed(model, seq![query], Ok(vectors))
                &&& vectors@.len() > 0 ==> by == vectors@[0]
                &&& #[trigger] call_ensures(V::query, (&store, by, top_k), Ok(found))
                &&& docs.len() == found@.len()
                &&& forall|i: int|
                    0 <= i < docs.len() ==> (#[trigger] docs[i]).content == found@[
                        i
                    ].document@.content && docs[i].metadata == found@[i].document@.metadata
                        && docs[i].score == Some(found@[i].score@)
            },
{
    let r = Ok::<Seq<DocumentView>, ErrorView>(docs);
    let e = choose|e: Result<Vec<Vec<E::Element>>>| #[trigger]
        may_embed(model, seq![query], e) && match e {
            Err(x) => r == Err::<Seq<DocumentView>, ErrorView>(x@),
            Ok(vectors) => exists|by: Vec<V::Element>, q: Result<Vec<ScoredDocument>>|
                first_or_empty(vectors@, by) && #[trigger] call_ensures(
                    V::query,
                    (&store, by, top_k),
                    q,
                ) && match q {
                    Err(x) => r == Err::<Seq<DocumentView>, ErrorView>(x@),
                    Ok(found) => r == Ok::<Seq<DocumentView>, ErrorView>(
                        scored(scored_views(found@)),
                    ),
                },
        };
    let vectors = e->Ok_0;
    let (by, q) = choose|by: Vec<V::Element>, q: Result<Vec<ScoredDocument>>|
        first_or_empty(vectors@, by) && #[trigger] call_ensures(
            V::query,
            (&store, by, top_k),
            q,
        ) && match q {
            Err(x) => r == Err::<Seq<DocumentView>, ErrorView>(x@),
            Ok(found) => r == Ok::<Seq<DocumentView>, ErrorView>(scored(scored_views(found@))),
        };
    let found = q->Ok_0;
    assert(may_embed(model, seq![query], Ok(vectors)));
    assert(call_ensures(V::query, (&store, by, top_k), Ok(found)));
    assert(docs == scored(scored_views(found@)));
}

/// Taking documents in embeds the text of every one, in order, and stores what has a
/// vector.
pub proof fn every_text_is_embedded<V: VectorStore, E: EmbeddingModel<Element = V::Element>>(
    store: V,
    model: E,
    documents: Seq<DocumentView>,
    ids: Seq<Seq<char>>,
)
    requires
        may_ingest(store, model, documents, Ok(ids)),
    ensures
        documents.len() == 0 ==> ids.len() == 0,
        documents.len() > 0 ==> exists|given: Seq<Seq<char>>, vectors: Vec<Vec<E::Element>>|
            {
                &&& #[trigger] may_embed(model, given, Ok(vectors))
                &&& given.len() == documents.len()
                &&& forall|i: int|
                    0 <= i < documents.len() ==> given[i] == (#[trigger] documents[i]).content
                &&& may_store(store, documents, vectors@, Seq::empty(), Ok(ids))
            },
{
    if documents.len() > 0 {
        let r = Ok::<Seq<Seq<char>>, ErrorView>(ids);
        let e = choose|e: Result<Vec<Vec<E::Element>>>| #[trigger]
            may_embed(model, contents(documents), e) && match e {
                Err(x) => r == Err::<Seq<Seq<char>>, ErrorView>(x@),
                Ok(vectors) => may_store(store, documents, vectors@, Seq::empty(), r),
            };
        let given = contents(documents);
        assert(may_embed(model, given, Ok(e->Ok_0)));
    }
}

} // verus!
