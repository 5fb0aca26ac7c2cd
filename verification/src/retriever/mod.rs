//! Finding documents for a query.

pub mod in_memory;
pub mod in_memory_store;
pub mod knowledge_base;
pub mod qdrant;
pub mod tool;
pub mod traits;
pub mod types;
pub mod vector_store;

pub use in_memory::InMemoryVectorStore;
pub use in_memory_store::InMemoryVectorStoreBackend;
pub use knowledge_base::{ErasedKnowledgeBase, KnowledgeBase, SimpleKnowledgeBase};
pub use tool::RetrieverTool;
pub use traits::{ErasedRetriever, Retriever, SharedRetriever};
pub use types::{Document, ScoredDocument};
pub use vector_store::{EmbeddingModel, VectorStore};
