//! What finds documents for a query.

use crate::error::Result;
use crate::retriever::types::Document;
use vstd::prelude::*;

verus! {

/// A source of documents: a vector store, a search engine, and the like.
pub trait Retriever {
    /// What `retrieve` may hand back. A source that says nothing here may hand
    /// back anything.
    open spec fn may_find(
        &self,
        query: Seq<char>,
        top_k: usize,
        r: Result<Vec<Document>>,
    ) -> bool {
        true
    }

    /// The documents for a query, best first and at most so many.
    fn retrieve(&self, query: &str, top_k: usize) -> (r: Result<Vec<Document>>)
        ensures
            self.may_find(query@, top_k, r),
    ;
}

/// A [`Retriever`] that can stand in for others of other types.
pub trait ErasedRetriever {
    /// What `retrieve_erased` may hand back.
    spec fn finds(&self, query: Seq<char>, top_k: usize, r: Result<Vec<Document>>) -> bool;

    /// The documents for a query, best first and at most so many.
    fn retrieve_erased(&self, query: &str, top_k: usize) -> (r: Result<Vec<Document>>)
        ensures
            self.finds(query@, top_k, r),
    ;
}

impl<T: Retriever> ErasedRetriever for T {
    open spec fn finds(&self, query: Seq<char>, top_k: usize, r: Result<Vec<Document>>) -> bool {
        self.may_find(query, top_k, r)
    }

    fn retrieve_erased(&self, query: &str, top_k: usize) -> (r: Result<Vec<Document>>) {
        self.retrieve(query, top_k)
    }
}

/// A retriever behind a pointer.
pub struct SharedRetriever {
    pub inner: Box<dyn ErasedRetriever>,
}

impl SharedRetriever {
    /// Puts a retriever behind a pointer.
    pub fn new<R: Retriever + 'static>(retriever: R) -> (r: Self)
        ensures
            forall|query: Seq<char>, top_k: usize, o: Result<Vec<Document>>| #[trigger]
                r.inner.finds(query, top_k, o) == retriever.may_find(query, top_k, o),
    {
        SharedRetriever { inner: Box::new(retriever) }
    }
}

} // verus!
