//! Sending each model call to the cheapest model that is up to it.

pub mod laws;
pub mod registry;
pub mod router;
pub mod scorer;
pub mod tier;

pub use registry::{CostModel, ModelCost, ModelRegistration};
pub use router::{ModelRouter, ModelRouterBuilder, RouteDecision, RoutedModel, TierBands};
pub use scorer::{ErasedTaskScorer, LlmScorer, SharedTaskScorer, TaskScorer};
pub use tier::ModelTier;
