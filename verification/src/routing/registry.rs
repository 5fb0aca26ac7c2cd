//! Models with what is known of them.

use crate::routing::tier::ModelTier;
use crate::text::{opt_text, owned, owned_opt};
use std::sync::Arc;
use vstd::prelude::*;

verus! {

/// What a model costs, by a number that orders it: that of the sum of its prices
/// for a token in and a token out. Less is cheaper.
#[derive(Debug, Clone, Copy, PartialEq, Eq, Structural)]
pub struct ModelCost {
    pub ordering_key: i64,
}

/// A list of prices.
pub trait CostModel {
    /// What `cost_of` may hand back. A list that says nothing here may hand back
    /// anything.
    open spec fn may_cost(&self, model_id: Seq<char>, r: ModelCost) -> bool {
        true
    }

    /// What a model costs.
    fn cost_of(&self, model_id: &str) -> (r: ModelCost)
        ensures
            self.may_cost(model_id@, r),
    ;
}

/// A list of prices that can stand in for others of other types.
pub trait ErasedCostModel {
    /// What `cost_of_erased` may hand back.
    spec fn lists(&self, model_id: Seq<char>, r: ModelCost) -> bool;

    /// What a model costs.
    fn cost_of_erased(&self, model_id: &str) -> (r: ModelCost)
        ensures
            self.lists(model_id@, r),
    ;
}

impl<T: CostModel> ErasedCostModel for T {
    open spec fn lists(&self, model_id: Seq<char>, r: ModelCost) -> bool {
        self.may_cost(model_id, r)
    }

    fn cost_of_erased(&self, model_id: &str) -> (r: ModelCost) {
        self.cost_of(model_id)
    }
}

/// A list of prices behind a pointer, which several owners may share.
pub struct SharedCostModel {
    pub inner: Arc<Box<dyn ErasedCostModel>>,
}

impl Clone for SharedCostModel {
    fn clone(&self) -> (r: Self)
        ensures
            r == *self,
    {
        SharedCostModel { inner: self.inner.clone() }
    }
}

impl SharedCostModel {
    /// Puts a list of prices behind a pointer.
    pub fn new<C: CostModel + 'static>(list: C) -> (r: Self)
        ensures
            forall|id: Seq<char>, c: ModelCost| #[trigger]
                r.inner.lists(id, c) == list.may_cost(id, c),
    {
        SharedCostModel { inner: Arc::new(Box::new(list)) }
    }
}

/// A model with its tier, what it costs and the group that it belongs to.
#[derive(Debug)]
pub struct ModelRegistration<M> {
    pub model: Arc<M>,
    pub model_id: String,
    pub tier: ModelTier,
    /// What it costs, if that was said.
    pub cost: Option<ModelCost>,
    /// The group that escalation from this model stays in.
    pub group: Option<String>,
}

impl<M> ModelRegistration<M> {
    /// Whether two registrations are of one model, and say the same of it.
    pub open spec fn same_as(self, other: Self) -> bool {
        &&& self.model == other.model
        &&& self.model_id@ == other.model_id@
        &&& self.tier == other.tier
        &&& self.cost == other.cost
        &&& opt_text(self.group) == opt_text(other.group)
    }

    /// A model at a tier.
    pub fn new(tier: ModelTier, model_id: &str, model: M) -> (r: Self)
        ensures
            *r.model == model,
            r.model_id@ == model_id@,
            r.tier == tier,
            r.cost is None,
            r.group is None,
    {
        Self::shared(tier, model_id, Arc::new(model))
    }

    /// A model that others hold too, at a tier.
    pub fn shared(tier: ModelTier, model_id: &str, model: Arc<M>) -> (r: Self)
        ensures
            r.model == model,
            r.model_id@ == model_id@,
            r.tier == tier,
            r.cost is None,
            r.group is None,
    {
        ModelRegistration { model, model_id: owned(model_id), tier, cost: None, group: None }
    }

    /// Says what the model costs.
    pub fn with_cost(self, cost: ModelCost) -> (r: Self)
        ensures
            r == (ModelRegistration { cost: Some(cost), ..self }),
    {
        ModelRegistration { cost: Some(cost), ..self }
    }

    /// Puts the model in a group. Escalation from it stays there.
    pub fn with_group(self, group: &str) -> (r: Self)
        ensures
            r.model == self.model,
            r.model_id == self.model_id,
            r.tier == self.tier,
            r.cost == self.cost,
            opt_text(r.group) == Some(group@),
    {
        ModelRegistration { group: Some(owned(group)), ..self }
    }

    /// Another registration of the same model.
    pub fn again(&self) -> (r: Self)
        ensures
            r.same_as(*self),
    {
        ModelRegistration {
            model: self.model.clone(),
            model_id: owned(&self.model_id),
            tier: self.tier,
            cost: self.cost,
            group: owned_opt(&self.group),
        }
    }

    /// Whether the model may cost this much: what was said, or else what a list of
    /// prices says. Without either, nothing is known.
    pub open spec fn may_cost(
        &self,
        fallback: Option<SharedCostModel>,
        r: Option<ModelCost>,
    ) -> bool {
        match (self.cost, fallback) {
            (Some(c), _) => r == Some(c),
            (None, Some(list)) => r is Some && list.inner.lists(self.model_id@, r->0),
            (None, None) => r is None,
        }
    }

    /// What the model costs. One of which nothing is known comes last in its tier.
    pub fn effective_cost(&self, fallback: &Option<SharedCostModel>) -> (r: Option<ModelCost>)
        ensures
            self.may_cost(*fallback, r),
    {
        match (self.cost, fallback) {
            (Some(c), _) => Some(c),
            (None, Some(list)) => Some(list.inner.cost_of_erased(&self.model_id)),
            (None, None) => None,
        }
    }
}

/// A price of its own counts for a model before that of any list, and without either
/// the model has none.
pub proof fn own_prices_count_first<M>(
    registration: ModelRegistration<M>,
    fallback: Option<SharedCostModel>,
    r: Option<ModelCost>,
)
    requires
        registration.may_cost(fallback, r),
    ensures
        registration.cost is Some ==> r == registration.cost,
        registration.cost is None && fallback is None ==> r is None,
        registration.cost is None && fallback is Some ==> r is Some && fallback->0.inner.lists(
            registration.model_id@,
            r->0,
        ),
{
}

} // verus!
