//! The types that most users of the library need.

pub use crate::agent::{Agent, AgentResponse};
pub use crate::error::{DaimonError, Result};
pub use crate::json::{Json, JsonMap};
pub use crate::mcp::{McpClient, McpGrpcServer, McpServer, McpWsServer};
pub use crate::memory::{
    Memory, SlidingWindowMemory, SummaryMemory, TieredMemory, TokenWindowMemory,
};
pub use crate::middleware::{Middleware, MiddlewareAction, MiddlewareStack};
pub use crate::model::types::{ChatRequest, ChatResponse, Message, Role, Usage};
pub use crate::model::Model;
pub use crate::orchestration::{
    Chain, ChainContext, ChainStep, Dag, DagContext, DagNode, Graph, GraphContext, GraphNode,
    NodeOutcome, Workflow, WorkflowNode, END, START,
};
pub use crate::prompt::{DynamicContext, FewShotTemplate, PromptBuilder, PromptTemplate};
pub use crate::retriever::qdrant::QdrantRetriever;
pub use crate::retriever::{
    Document, EmbeddingModel, InMemoryVectorStore, InMemoryVectorStoreBackend, KnowledgeBase,
    Retriever, RetrieverTool, ScoredDocument, SimpleKnowledgeBase, VectorStore,
};
pub use crate::routing::{ModelRouter, ModelTier};
pub use crate::stream::StreamEvent;
pub use crate::tool::{Tool, ToolOutput, ToolRegistry};
