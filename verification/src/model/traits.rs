//! What a model provider offers.

use crate::error::Result;
use crate::model::types::{ChatRequest, ChatResponse, RequestView};
use crate::stream::StreamEvent;
use std::sync::Arc;
use vstd::prelude::*;

verus! {

/// A language model.
pub trait Model {
    /// Answers a request in one piece.
    fn generate(&self, request: &ChatRequest) -> (r: Result<ChatResponse>);

    /// Answers a request as the events of a stream, in order.
    fn generate_stream(&self, request: &ChatRequest) -> (r: Result<Vec<StreamEvent>>);
}

/// A [`Model`] that can stand behind a pointer, whatever its type.
pub trait ErasedModel {
    /// Whether the model may answer a request in this way.
    spec fn answers(&self, request: RequestView, r: Result<ChatResponse>) -> bool;

    /// Whether the model may answer a request with these events.
    spec fn streams(&self, request: RequestView, r: Result<Vec<StreamEvent>>) -> bool;

    /// Answers a request in one piece.
    fn generate_erased(&self, request: &ChatRequest) -> (r: Result<ChatResponse>)
        ensures
            self.answers(request@, r),
    ;

    /// Answers a request as the events of a stream, in order.
    fn generate_stream_erased(&self, request: &ChatRequest) -> (r: Result<Vec<StreamEvent>>)
        ensures
            self.streams(request@, r),
    ;
}

impl<T: Model> ErasedModel for T {
    open spec fn answers(&self, request: RequestView, r: Result<ChatResponse>) -> bool {
        may_generate(*self, request, r)
    }

    open spec fn streams(&self, request: RequestView, r: Result<Vec<StreamEvent>>) -> bool {
        may_stream(*self, request, r)
    }

    fn generate_erased(&self, request: &ChatRequest) -> (r: Result<ChatResponse>) {
        self.generate(request)
    }

    fn generate_stream_erased(&self, request: &ChatRequest) -> (r: Result<Vec<StreamEvent>>) {
        self.generate_stream(request)
    }
}

/// A model of any type.
pub struct AnyModel {
    pub inner: Box<dyn ErasedModel>,
}

/// A model of any type that several owners share.
pub type SharedModel = Arc<AnyModel>;

impl AnyModel {
    /// A model behind a pointer.
    pub fn new<M: Model + 'static>(model: M) -> (r: Self)
        ensures
            forall|q: RequestView, a: Result<ChatResponse>| #[trigger]
                r.inner.answers(q, a) == may_generate(model, q, a),
            forall|q: RequestView, a: Result<Vec<StreamEvent>>| #[trigger]
                r.inner.streams(q, a) == may_stream(model, q, a),
    {
        AnyModel { inner: Box::new(model) }
    }
}

impl Model for AnyModel {
    fn generate(&self, request: &ChatRequest) -> (r: Result<ChatResponse>)
        ensures
            self.inner.answers(request@, r),
    {
        self.inner.generate_erased(request)
    }

    fn generate_stream(&self, request: &ChatRequest) -> (r: Result<Vec<StreamEvent>>)
        ensures
            self.inner.streams(request@, r),
    {
        self.inner.generate_stream_erased(request)
    }
}

impl<M: Model> Model for Arc<M> {
    fn generate(&self, request: &ChatRequest) -> (r: Result<ChatResponse>)
        ensures
            call_ensures(M::generate, (&**self, request), r),
    {
        (**self).generate(request)
    }

    fn generate_stream(&self, request: &ChatRequest) -> (r: Result<Vec<StreamEvent>>)
        ensures
            call_ensures(M::generate_stream, (&**self, request), r),
    {
        (**self).generate_stream(request)
    }
}

/// Whether a model may answer a request in this way.
pub open spec fn may_generate<M: Model>(
    model: M,
    request: RequestView,
    r: Result<ChatResponse>,
) -> bool {
    exists|q: &ChatRequest| q@ == request && #[trigger] call_ensures(M::generate, (&model, q), r)
}

/// Whether a model may answer a request with these events.
pub open spec fn may_stream<M: Model>(
    model: M,
    request: RequestView,
    r: Result<Vec<StreamEvent>>,
) -> bool {
    exists|q: &ChatRequest|
        q@ == request && #[trigger] call_ensures(M::generate_stream, (&model, q), r)
}

} // verus!
