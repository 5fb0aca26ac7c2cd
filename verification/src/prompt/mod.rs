//! Composable prompt construction with variable interpolation.
//!
//! A [`PromptTemplate`] holds `{variable}` placeholders, and a
//! [`PromptBuilder`] puts one together from sections.

pub mod builder;
pub mod dynamic;
pub mod few_shot;
pub mod template;


pub use builder::PromptBuilder;
pub use dynamic::{DynamicContext, ErasedDynamicContext};
pub use few_shot::FewShotTemplate;
pub use template::PromptTemplate;
