//! Layers around a model call that inspect, change or answer what passes
//! through them.

pub mod stack;
pub mod traits;

pub use stack::MiddlewareStack;
pub use traits::{share, ErasedMiddleware, Middleware, MiddlewareAction, SharedMiddleware};
