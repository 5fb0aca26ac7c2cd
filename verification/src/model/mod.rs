//! Model providers: the types they share, and what each of them sends and
//! makes of what comes back.

pub mod anthropic;
pub mod anthropic_laws;
pub mod embedding;
pub mod line_buffer;
pub mod ollama;
pub mod ollama_laws;
pub mod openai;
pub mod openai_laws;
pub mod traits;
pub mod types;
pub mod wire;

pub use traits::{AnyModel, ErasedModel, Model, SharedModel};
