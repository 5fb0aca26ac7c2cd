//! Building blocks for language-model agents, with their behaviour stated as
//! contracts and proved.

pub mod agent;
pub mod contained;
pub mod decode;
pub mod double;
pub mod error;
pub mod json;
pub mod map;
pub mod mcp;
pub mod members;
pub mod memory;
pub mod middleware;
pub mod model;
pub mod orchestration;
pub mod prelude;
pub mod prompt;
pub mod ranking;
pub mod retriever;
pub mod routing;
pub mod split;
pub mod stream;
pub mod text;
pub mod text_laws;
pub mod tool;
