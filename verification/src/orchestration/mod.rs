//! Ways to run agents and functions together.

pub mod chain;
pub mod dag;
pub mod dag_laws;
pub mod graph;
pub mod graph_laws;
pub mod plan;
pub mod toposort;
pub mod workflow;
pub mod workflow_laws;

pub use chain::{AgentStep, Chain, ChainBuilder, ChainContext, ChainStep, TransformStep};
pub use dag::{AgentDagNode, Dag, DagBuilder, DagContext, DagNode, FnDagNode, END, START};
pub use graph::{AgentNode, Edge, FnNode, Graph, GraphBuilder, GraphContext, GraphNode, NodeOutcome};
pub use workflow::{AgentWorkflowNode, FnWorkflowNode, Workflow, WorkflowBuilder, WorkflowNode};
