//! What a middleware layer offers.

use crate::error::Result;
use crate::model::types::{ChatRequest, ChatResponse};
use crate::tool::ToolCall;
use std::sync::Arc;
use vstd::prelude::*;

verus! {

/// What a hook asks for.
#[derive(Debug, PartialEq)]
pub enum MiddlewareAction {
    /// Go on with the next layer, or with the model call.
    Continue,
    /// Stop, and answer with this response.
    ShortCircuit(ChatResponse),
}

/// Whether a hook left its subject as it was and asked to go on.
pub open spec fn passes<S>(before: S, after: S, r: Result<MiddlewareAction>) -> bool {
    after == before && r == Ok::<MiddlewareAction, crate::error::DaimonError>(
        MiddlewareAction::Continue,
    )
}

/// A layer that can inspect and change requests, responses and tool calls.
///
/// A hook that is not overridden passes.
pub trait Middleware {
    /// Called before each model call.
    fn on_request(&self, request: &mut ChatRequest) -> (r: Result<MiddlewareAction>)
        default_ensures
            passes(*old(request), *final(request), r),
    {
        Ok(MiddlewareAction::Continue)
    }

    /// Called after the model has answered.
    fn on_response(&self, response: &mut ChatResponse) -> (r: Result<MiddlewareAction>)
        default_ensures
            passes(*old(response), *final(response), r),
    {
        Ok(MiddlewareAction::Continue)
    }

    /// Called before each tool is run.
    fn on_tool_call(&self, call: &mut ToolCall) -> (r: Result<MiddlewareAction>)
        default_ensures
            passes(*old(call), *final(call), r),
    {
        Ok(MiddlewareAction::Continue)
    }
}

/// A [`Middleware`] that can stand in a stack beside others of other types.
///
/// What a hook may do is told of a reference: of its value when the hook is called
/// and of its final value.
pub trait ErasedMiddleware {
    /// Whether `on_request` may have been called on a reference and have come out as `r`.
    spec fn request_hook(&self, q: &mut ChatRequest, r: Result<MiddlewareAction>) -> bool;

    /// Whether `on_response` may have been called on a reference and have come out as `r`.
    spec fn response_hook(&self, q: &mut ChatResponse, r: Result<MiddlewareAction>) -> bool;

    /// Whether `on_tool_call` may have been called on a reference and have come out as `r`.
    spec fn tool_call_hook(&self, q: &mut ToolCall, r: Result<MiddlewareAction>) -> bool;

    /// Called before each model call.
    fn on_request_erased(&self, request: &mut ChatRequest) -> (r: Result<MiddlewareAction>)
        ensures
            exists|q: &mut ChatRequest|
                {
                    &&& *q == *old(request)
                    &&& *final(q) == *final(request)
                    &&& #[trigger] self.request_hook(q, r)
                },
    ;

    /// Called after the model has answered.
    fn on_response_erased(&self, response: &mut ChatResponse) -> (r: Result<MiddlewareAction>)
        ensures
            exists|q: &mut ChatResponse|
                {
                    &&& *q == *old(response)
                    &&& *final(q) == *final(response)
                    &&& #[trigger] self.response_hook(q, r)
                },
    ;

    /// Called before each tool is run.
    fn on_tool_call_erased(&self, call: &mut ToolCall) -> (r: Result<MiddlewareAction>)
        ensures
            exists|q: &mut ToolCall|
                {
                    &&& *q == *old(call)
                    &&& *final(q) == *final(call)
                    &&& #[trigger] self.tool_call_hook(q, r)
                },
    ;
}

impl<T: Middleware> ErasedMiddleware for T {
    open spec fn request_hook(&self, q: &mut ChatRequest, r: Result<MiddlewareAction>) -> bool {
        call_ensures(T::on_request, (self, q), r)
    }

    open spec fn response_hook(&self, q: &mut ChatResponse, r: Result<MiddlewareAction>) -> bool {
        call_ensures(T::on_response, (self, q), r)
    }

    open spec fn tool_call_hook(&self, q: &mut ToolCall, r: Result<MiddlewareAction>) -> bool {
        call_ensures(T::on_tool_call, (self, q), r)
    }

    fn on_request_erased(&self, request: &mut ChatRequest) -> (r: Result<MiddlewareAction>) {
        let r = self.on_request(request);
        proof {
            let q = choose|q: &mut ChatRequest|
                {
                    &&& *q == *old(request)
                    &&& *final(q) == *request
                    &&& #[trigger] call_ensures(T::on_request, (self, q), r)
                };
            assert(self.request_hook(q, r));
        }
        r
    }

    fn on_response_erased(&self, response: &mut ChatResponse) -> (r: Result<MiddlewareAction>) {
        let r = self.on_response(response);
        proof {
            let q = choose|q: &mut ChatResponse|
                {
                    &&& *q == *old(response)
                    &&& *final(q) == *response
                    &&& #[trigger] call_ensures(T::on_response, (self, q), r)
                };
            assert(self.response_hook(q, r));
        }
        r
    }

    fn on_tool_call_erased(&self, call: &mut ToolCall) -> (r: Result<MiddlewareAction>) {
        let r = self.on_tool_call(call);
        proof {
            let q = choose|q: &mut ToolCall|
                {
                    &&& *q == *old(call)
                    &&& *final(q) == *call
                    &&& #[trigger] call_ensures(T::on_tool_call, (self, q), r)
                };
            assert(self.tool_call_hook(q, r));
        }
        r
    }
}

/// A layer of a stack.
pub struct Layer {
    pub hooks: Box<dyn ErasedMiddleware>,
}

/// A layer that several stacks may hold.
pub type SharedMiddleware = Arc<Layer>;

/// Whether what stands in a stack acts as a layer does.
pub open spec fn acts_as<M: Middleware>(layer: Layer, mw: M) -> bool {
    &&& forall|q: &mut ChatRequest, r: Result<MiddlewareAction>| #[trigger]
        layer.hooks.request_hook(q, r) == call_ensures(M::on_request, (&mw, q), r)
    &&& forall|q: &mut ChatResponse, r: Result<MiddlewareAction>| #[trigger]
        layer.hooks.response_hook(q, r) == call_ensures(M::on_response, (&mw, q), r)
    &&& forall|q: &mut ToolCall, r: Result<MiddlewareAction>| #[trigger]
        layer.hooks.tool_call_hook(q, r) == call_ensures(M::on_tool_call, (&mw, q), r)
}

fn boxed<M: Middleware + 'static>(mw: M) -> (r: Layer)
    ensures
        acts_as(r, mw),
{
    Layer { hooks: Box::new(mw) }
}

/// Makes a layer ready for several stacks.
pub fn share<M: Middleware + 'static>(mw: M) -> (r: SharedMiddleware)
    ensures
        acts_as(*r, mw),
{
    Arc::new(boxed(mw))
}

} // verus!
