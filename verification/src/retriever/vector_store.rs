//! What a vector store and an embedding model offer.

use crate::error::Result;
use crate::retriever::types::{Document, DocumentView, ScoredDocument};
use crate::text::{owned, texts};
use vstd::prelude::*;

verus! {

/// A model that turns texts into vectors.
pub trait EmbeddingModel {
    /// A coordinate of a vector.
    type Element;

    /// The vectors of some texts, in order.
    fn embed(&self, inputs: &Vec<String>) -> (r: Result<Vec<Vec<Self::Element>>>);

    /// The number of coordinates of each vector.
    fn dimensions(&self) -> (r: usize);
}

/// A store of documents that are found by their vectors.
pub trait VectorStore {
    /// A coordinate of a vector.
    type Element;

    /// Stores a document under an identifier, in place of an earlier one.
    fn upsert(&self, id: &str, embedding: Vec<Self::Element>, document: Document) -> (r: Result<()>);

    /// The documents nearest to a vector, best first and at most so many.
    fn query(&self, embedding: Vec<Self::Element>, top_k: usize) -> (r: Result<
        Vec<ScoredDocument>,
    >);

    /// Removes a document. Says whether there was one.
    fn delete(&self, id: &str) -> (r: Result<bool>);

    /// The number of documents.
    fn count(&self) -> (r: Result<usize>);
}

/// Whether a model may turn these texts into this.
pub open spec fn may_embed<E: EmbeddingModel>(
    model: E,
    inputs: Seq<Seq<char>>,
    r: Result<Vec<Vec<E::Element>>>,
) -> bool {
    exists|v: &Vec<String>| texts(v@) == inputs && #[trigger] call_ensures(E::embed, (&model, v), r)
}

/// Embeds one text.
pub(crate) fn embed_one<E: EmbeddingModel>(model: &E, text: &str) -> (r: Result<
    Vec<Vec<E::Element>>,
>)
    ensures
        may_embed(*model, seq![text@], r),
{
    let mut inputs: Vec<String> = Vec::new();
    inputs.push(owned(text));
    assert(texts(inputs@) =~= seq![text@]);
    let r = model.embed(&inputs);
    assert(call_ensures(E::embed, (model, &inputs), r));
    r
}

/// Whether a store may answer in this way when a document is stored.
pub open spec fn may_upsert<V: VectorStore>(
    store: V,
    id: Seq<char>,
    embedding: Vec<V::Element>,
    document: DocumentView,
    r: Result<()>,
) -> bool {
    exists|s: &str, d: Document|
        s@ == id && d@ == document && #[trigger] call_ensures(
            V::upsert,
            (&store, s, embedding, d),
            r,
        )
}

/// Stores a document.
pub(crate) fn store_one<V: VectorStore>(
    store: &V,
    id: &str,
    embedding: Vec<V::Element>,
    document: Document,
) -> (r: Result<()>)
    ensures
        may_upsert(*store, id@, embedding, document@, r),
{
    let ghost by = embedding;
    let ghost what = document;
    let r = store.upsert(id, embedding, document);
    assert(call_ensures(V::upsert, (store, id, by, what), r));
    r
}

/// The first of some vectors, or one without coordinates.
pub open spec fn first_or_empty<T>(vectors: Seq<Vec<T>>, r: Vec<T>) -> bool {
    if vectors.len() == 0 {
        r@.len() == 0
    } else {
        r == vectors[0]
    }
}

/// The first of some vectors, or one without coordinates.
pub(crate) fn take_first<T>(vectors: Vec<Vec<T>>) -> (r: Vec<T>)
    ensures
        first_or_empty(vectors@, r),
{
    let mut vectors = vectors;
    if vectors.len() == 0 {
        return Vec::new();
    }
    vectors.swap_remove(0)
}

/// The items in the opposite order.
pub(crate) fn reversed<T>(items: Vec<T>) -> (r: Vec<T>)
    ensures
        r@ == items@.reverse(),
{
    let ghost all = items@;
    let mut items = items;
    let mut r: Vec<T> = Vec::new();
    while items.len() > 0
        invariant
            items@ == all.take(items@.len() as int),
            items@.len() + r@.len() == all.len(),
            forall|j: int| 0 <= j < r@.len() ==> r@[j] == all[all.len() - 1 - j],
        decreases items@.len(),
    {
        if let Some(x) = items.pop() {
            r.push(x);
        }
    }
    assert(r@ =~= all.reverse());
    r
}

} // verus!
