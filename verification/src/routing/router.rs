//! Choosing a model by how hard a request is.

use crate::double::{below, clamp, clamped, is_below, ONE, ZERO};
use crate::error::{DaimonError, ErrorView, Result};
use crate::model::types::{ChatRequest, RequestView};
use crate::routing::registry::{CostModel, ModelCost, ModelRegistration, SharedCostModel};
use crate::routing::scorer::{SharedTaskScorer, TaskScorer};
use crate::routing::tier::ModelTier;
use crate::text::{opt_text, owned, owned_opt, same};
use std::sync::Arc;
use vstd::prelude::*;

verus! {

/// The double one half, by its bits: how hard a request counts of which nothing
/// is known.
pub const FALLBACK_DIFFICULTY: u64 = 0x3FE0000000000000;

/// Which tier a request needs by how hard it is. Numbers are doubles, by their
/// bits.
#[derive(Debug, Clone, Copy, PartialEq, Eq, Structural)]
pub struct TierBands {
    /// Whatever is below needs no more than a small model.
    pub small_below: u64,
    /// Whatever else is below needs no more than a medium one.
    pub medium_below: u64,
}

impl Default for TierBands {
    /// A third and two thirds, rounded to two decimals.
    fn default() -> (r: Self)
        ensures
            r.small_below == 0x3FD51EB851EB851F,
            r.medium_below == 0x3FE51EB851EB851F,
    {
        TierBands { small_below: 0x3FD51EB851EB851F, medium_below: 0x3FE51EB851EB851F }
    }
}

impl TierBands {
    /// The tier that a request needs.
    pub open spec fn needs(self, difficulty: u64) -> ModelTier {
        if below(difficulty, self.small_below) {
            ModelTier::Small
        } else if below(difficulty, self.medium_below) {
            ModelTier::Medium
        } else {
            ModelTier::Large
        }
    }

    /// The tier that a request needs.
    pub fn tier_for(&self, difficulty: u64) -> (r: ModelTier)
        ensures
            r == self.needs(difficulty),
    {
        if is_below(difficulty, self.small_below) {
            ModelTier::Small
        } else if is_below(difficulty, self.medium_below) {
            ModelTier::Medium
        } else {
            ModelTier::Large
        }
    }
}

/// What was decided for one request.
#[derive(Debug)]
pub struct RouteDecision {
    /// The round that the request belongs to, counted from one.
    pub iteration: usize,
    /// How hard the request is, as a double by its bits.
    pub difficulty: u64,
    pub required_tier: ModelTier,
    pub selected_tier: ModelTier,
    pub selected_model_id: String,
    /// The group of the selected model.
    pub selected_group: Option<String>,
    /// The tier that failed before, if this is an escalation.
    pub escalated_from: Option<ModelTier>,
}

impl Clone for RouteDecision {
    fn clone(&self) -> (r: Self)
        ensures
            r.iteration == self.iteration,
            r.difficulty == self.difficulty,
            r.required_tier == self.required_tier,
            r.selected_tier == self.selected_tier,
            r.selected_model_id@ == self.selected_model_id@,
            opt_text(r.selected_group) == opt_text(self.selected_group),
            r.escalated_from == self.escalated_from,
    {
        RouteDecision {
            iteration: self.iteration,
            difficulty: self.difficulty,
            required_tier: self.required_tier,
            selected_tier: self.selected_tier,
            selected_model_id: owned(&self.selected_model_id),
            selected_group: owned_opt(&self.selected_group),
            escalated_from: self.escalated_from,
        }
    }
}

/// A model that was chosen, and why.
pub struct RoutedModel<M> {
    pub handle: Arc<M>,
    pub decision: RouteDecision,
}

/// Models to choose from, and what the choice goes by.
pub struct ModelRouter<M> {
    pub registrations: Vec<ModelRegistration<M>>,
    /// Judges how hard a request is.
    pub scorer: SharedTaskScorer,
    /// Prices of models of which nothing else was said.
    pub cost_fallback: Option<SharedCostModel>,
    pub bands: TierBands,
}

impl<M> Clone for ModelRouter<M> {
    fn clone(&self) -> (r: Self)
        ensures
            r.registrations@.len() == self.registrations@.len(),
            forall|i: int|
                0 <= i < r.registrations@.len() ==> (#[trigger] r.registrations@[i]).same_as(
                    self.registrations@[i],
                ),
            forall|prices: Seq<Option<ModelCost>>| #[trigger] r.choices(prices) == self.choices(prices),
            r.scorer == self.scorer,
            r.cost_fallback == self.cost_fallback,
            r.bands == self.bands,
    {
        let mut registrations: Vec<ModelRegistration<M>> = Vec::new();
        let mut i: usize = 0;
        while i < self.registrations.len()
            invariant
                i <= self.registrations@.len(),
                registrations@.len() == i,
                forall|j: int|
                    0 <= j < i ==> (#[trigger] registrations@[j]).same_as(self.registrations@[j]),
            decreases self.registrations@.len() - i,
        {
            registrations.push(self.registrations[i].again());
            i += 1;
        }
        let cost_fallback = match &self.cost_fallback {
            Some(list) => Some(list.clone()),
            None => None,
        };
        let scorer = self.scorer.clone();
        let r = ModelRouter { registrations, scorer, cost_fallback, bands: self.bands };
        assert forall|prices: Seq<Option<ModelCost>>| #[trigger]
            r.choices(prices) == self.choices(prices) by {
            assert forall|i: int| 0 <= i < self.registrations@.len() implies r.choices(prices)[i]
                == #[trigger] self.choices(prices)[i] by {
                assert(r.registrations@[i].same_as(self.registrations@[i]));
            }
            assert(r.choices(prices) =~= self.choices(prices));
        }
        r
    }
}

/// What a choice depends on.
pub struct Entry {
    pub tier: ModelTier,
    pub cost: Option<ModelCost>,
    pub group: Option<Seq<char>>,
}

/// What a choice depends on, of each model, given what each costs.
pub open spec fn entries<M>(
    registrations: Seq<ModelRegistration<M>>,
    prices: Seq<Option<ModelCost>>,
) -> Seq<Entry> {
    Seq::new(
        registrations.len(),
        |i: int|
            Entry {
                tier: registrations[i].tier,
                cost: prices[i],
                group: opt_text(registrations[i].group),
            },
    )
}

/// Whether a model may be chosen within a group.
pub open spec fn fits(e: Entry, group: Option<Seq<char>>) -> bool {
    group is None || e.group == group
}

/// Whether there is a model of a tier within a group.
pub open spec fn populated(es: Seq<Entry>, group: Option<Seq<char>>, tier: ModelTier) -> bool {
    exists|i: int| 0 <= i < es.len() && fits(#[trigger] es[i], group) && es[i].tier == tier
}

/// Whether there is a model at least of a tier.
pub open spec fn reachable(es: Seq<Entry>, group: Option<Seq<char>>, required: ModelTier) -> bool {
    exists|t: ModelTier| t.rank() >= required.rank() && #[trigger] populated(es, group, t)
}

/// Whether a tier is the one to take: the lowest that is enough and has a model,
/// or if none is enough the highest that has one.
pub open spec fn right_tier(
    es: Seq<Entry>,
    group: Option<Seq<char>>,
    required: ModelTier,
    tier: ModelTier,
) -> bool {
    &&& populated(es, group, tier)
    &&& if reachable(es, group, required) {
        tier.rank() >= required.rank() && forall|t: ModelTier|
            t.rank() >= required.rank() && #[trigger] populated(es, group, t) ==> tier.rank()
                <= t.rank()
    } else {
        forall|t: ModelTier| #[trigger] populated(es, group, t) ==> t.rank() <= tier.rank()
    }
}

/// Whether a cost is no more than another. An unknown one is more than any.
pub open spec fn no_more(a: Option<ModelCost>, b: Option<ModelCost>) -> bool {
    match (a, b) {
        (Some(x), Some(y)) => x.ordering_key <= y.ordering_key,
        (Some(_), None) => true,
        (None, Some(_)) => false,
        (None, None) => true,
    }
}

/// Whether model `i` is preferred to model `j`: it is cheaper, or costs the same
/// and was registered first.
pub open spec fn preferred(es: Seq<Entry>, i: int, j: int) -> bool {
    no_more(es[i].cost, es[j].cost) && (no_more(es[j].cost, es[i].cost) ==> i <= j)
}

/// Whether model `i` is the one to choose.
pub open spec fn right_choice(
    es: Seq<Entry>,
    group: Option<Seq<char>>,
    required: ModelTier,
    i: int,
) -> bool {
    &&& 0 <= i < es.len()
    &&& fits(es[i], group)
    &&& right_tier(es, group, required, es[i].tier)
    &&& forall|j: int|
        0 <= j < es.len() && fits(#[trigger] es[j], group) && es[j].tier == es[i].tier ==> preferred(
            es,
            i,
            j,
        )
}

/// Whether a tier is the next one above another that has a model.
pub open spec fn next_above(
    es: Seq<Entry>,
    group: Option<Seq<char>>,
    below: ModelTier,
    tier: ModelTier,
) -> bool {
    &&& tier.rank() > below.rank()
    &&& populated(es, group, tier)
    &&& forall|t: ModelTier|
        t.rank() > below.rank() && #[trigger] populated(es, group, t) ==> tier.rank() <= t.rank()
}

/// Whether a decision names a model and repeats what it was made for.
pub open spec fn records<M>(
    d: RouteDecision,
    registration: ModelRegistration<M>,
    iteration: usize,
    difficulty: u64,
    required: ModelTier,
    escalated_from: Option<ModelTier>,
) -> bool {
    &&& d.iteration == iteration
    &&& d.difficulty == difficulty
    &&& d.required_tier == required
    &&& d.selected_tier == registration.tier
    &&& d.selected_model_id@ == registration.model_id@
    &&& opt_text(d.selected_group) == opt_text(registration.group)
    &&& d.escalated_from == escalated_from
}

fn cost_no_more(a: Option<ModelCost>, b: Option<ModelCost>) -> (r: bool)
    ensures
        r == no_more(a, b),
{
    match (a, b) {
        (Some(x), Some(y)) => x.ordering_key <= y.ordering_key,
        (Some(_), None) => true,
        (None, Some(_)) => false,
        (None, None) => true,
    }
}

impl<M> ModelRouter<M> {
    /// What a choice depends on.
    pub open spec fn choices(&self, prices: Seq<Option<ModelCost>>) -> Seq<Entry> {
        entries(self.registrations@, prices)
    }

    fn in_group(&self, i: usize, group: &Option<String>) -> (r: bool)
        requires
            i < self.registrations@.len(),
        ensures
            r == (opt_text(*group) is None || opt_text(self.registrations@[i as int].group)
                == opt_text(*group)),
    {
        match group {
            None => true,
            Some(g) => match &self.registrations[i].group {
                Some(h) => same(h, g),
                None => false,
            },
        }
    }

    fn is_populated(
        &self,
        tier: ModelTier,
        group: &Option<String>,
        prices: Ghost<Seq<Option<ModelCost>>>,
    ) -> (r: bool)
        ensures
            r == populated(self.choices(prices@), opt_text(*group), tier),
    {
        let ghost es = self.choices(prices@);
        let mut i: usize = 0;
        while i < self.registrations.len()
            invariant
                i <= self.registrations@.len(),
                es == self.choices(prices@),
                forall|j: int|
                    0 <= j < i ==> !(fits(#[trigger] es[j], opt_text(*group)) && es[j].tier
                        == tier),
            decreases self.registrations@.len() - i,
        {
            if self.in_group(i, group) && self.registrations[i].tier == tier {
                assert(fits(es[i as int], opt_text(*group)) && es[i as int].tier == tier);
                return true;
            }
            i += 1;
        }
        false
    }

    fn cheapest(
        &self,
        tier: ModelTier,
        group: &Option<String>,
        prices: &Vec<Option<ModelCost>>,
    ) -> (r: usize)
        requires
            prices@.len() == self.registrations@.len(),
            populated(self.choices(prices@), opt_text(*group), tier),
        ensures
            r < self.registrations@.len(),
            ({
                let es = self.choices(prices@);
                &&& fits(es[r as int], opt_text(*group))
                &&& es[r as int].tier == tier
                &&& forall|j: int|
                    0 <= j < es.len() && fits(#[trigger] es[j], opt_text(*group)) && es[j].tier
                        == tier ==> preferred(es, r as int, j)
            }),
    {
        let ghost es = self.choices(prices@);
        let mut best: Option<usize> = None;
        let mut i: usize = 0;
        while i < self.registrations.len()
            invariant
                i <= self.registrations@.len() == prices@.len(),
                es == self.choices(prices@),
                match best {
                    Some(b) => {
                        &&& b < i
                        &&& fits(es[b as int], opt_text(*group))
                        &&& es[b as int].tier == tier
                        &&& forall|j: int|
                            0 <= j < i && fits(#[trigger] es[j], opt_text(*group)) && es[j].tier
                                == tier ==> preferred(es, b as int, j)
                    },
                    None => forall|j: int|
                        0 <= j < i ==> !(fits(#[trigger] es[j], opt_text(*group)) && es[j].tier
                            == tier),
                },
            decreases self.registrations@.len() - i,
        {
            if self.in_group(i, group) && self.registrations[i].tier == tier {
                match best {
                    Some(b) => {
                        if !cost_no_more(prices[b], prices[i]) {
                            best = Some(i);
                        }
                    },
                    None => {
                        best = Some(i);
                    },
                }
            }
            i += 1;
        }
        match best {
            Some(b) => b,
            None => 0,
        }
    }

    fn tier_to_take(
        &self,
        required: ModelTier,
        group: &Option<String>,
        prices: Ghost<Seq<Option<ModelCost>>>,
    ) -> (r: Option<ModelTier>)
        ensures
            match r {
                Some(t) => right_tier(self.choices(prices@), opt_text(*group), required, t),
                None => forall|t: ModelTier|
                    !#[trigger] populated(self.choices(prices@), opt_text(*group), t),
            },
    {
        let ghost es = self.choices(prices@);
        let ghost g = opt_text(*group);
        let small = self.is_populated(ModelTier::Small, group, prices);
        let medium = self.is_populated(ModelTier::Medium, group, prices);
        let large = self.is_populated(ModelTier::Large, group, prices);
        proof {
            assert forall|t: ModelTier| #[trigger] populated(es, g, t) implies (t
                == ModelTier::Small && small) || (t == ModelTier::Medium && medium) || (t
                == ModelTier::Large && large) by {
                match t {
                    ModelTier::Small => {},
                    ModelTier::Medium => {},
                    ModelTier::Large => {},
                }
            }
        }
        if small && ModelTier::Small.at_least(&required) {
            assert(reachable(es, g, required));
            return Some(ModelTier::Small);
        }
        if medium && ModelTier::Medium.at_least(&required) {
            assert(reachable(es, g, required));
            return Some(ModelTier::Medium);
        }
        if large && ModelTier::Large.at_least(&required) {
            assert(reachable(es, g, required));
            return Some(ModelTier::Large);
        }
        assert(!reachable(es, g, required));
        if large {
            Some(ModelTier::Large)
        } else if medium {
            Some(ModelTier::Medium)
        } else if small {
            Some(ModelTier::Small)
        } else {
            None
        }
    }

    /// Chooses the cheapest model of the right tier, given what each model costs.
    pub fn select(
        &self,
        iteration: usize,
        difficulty: u64,
        required_tier: ModelTier,
        escalated_from: Option<ModelTier>,
        group: &Option<String>,
        prices: &Vec<Option<ModelCost>>,
    ) -> (r: Result<RoutedModel<M>>)
        requires
            prices@.len() == self.registrations@.len(),
        ensures
            match r {
                Ok(routed) => exists|i: int|
                    {
                        &&& #[trigger] right_choice(
                            self.choices(prices@),
                            opt_text(*group),
                            required_tier,
                            i,
                        )
                        &&& routed.handle == self.registrations@[i].model
                        &&& records(
                            routed.decision,
                            self.registrations@[i],
                            iteration,
                            difficulty,
                            required_tier,
                            escalated_from,
                        )
                    },
                Err(e) => e@ == ErrorView::Builder("model router has no registrations"@) && forall|
                    t: ModelTier,
                |
                    !#[trigger] populated(self.choices(prices@), opt_text(*group), t),
            },
    {
        let ghost es = self.choices(prices@);
        match self.tier_to_take(required_tier, group, Ghost(prices@)) {
            None => Err(DaimonError::Builder(owned("model router has no registrations"))),
            Some(tier) => {
                let i: usize = self.cheapest(tier, group, prices);
                let registration = &self.registrations[i];
                let decision = RouteDecision {
                    iteration,
                    difficulty,
                    required_tier,
                    selected_tier: registration.tier,
                    selected_model_id: registration.model_id.clone(),
                    selected_group: owned_opt(&registration.group),
                    escalated_from,
                };
                assert(right_choice(es, opt_text(*group), required_tier, i as int));
                Ok(RoutedModel { handle: registration.model.clone(), decision })
            },
        }
    }

    /// Whether this is the right outcome for a request of a score, given what each
    /// model costs.
    pub open spec fn routes(
        &self,
        iteration: usize,
        score: Result<u64>,
        prices: Seq<Option<ModelCost>>,
        r: Result<RoutedModel<M>>,
    ) -> bool {
        let difficulty = scored(score);
        let required = self.bands.needs(difficulty);
        match r {
            Ok(routed) => exists|i: int|
                {
                    &&& #[trigger] right_choice(self.choices(prices), None, required, i)
                    &&& routed.handle == self.registrations@[i].model
                    &&& records(
                        routed.decision,
                        self.registrations@[i],
                        iteration,
                        difficulty,
                        required,
                        None,
                    )
                },
            Err(e) => self.registrations@.len() == 0 && e@ == ErrorView::Builder(
                "model router has no registrations"@,
            ),
        }
    }

    /// Chooses a model for a request by its score, given what each model costs. A
    /// score below zero counts as zero, one above one as one, and one that failed as
    /// one half.
    pub fn route_scored(
        &self,
        iteration: usize,
        score: Result<u64>,
        prices: &Vec<Option<ModelCost>>,
    ) -> (r: Result<RoutedModel<M>>)
        requires
            prices@.len() == self.registrations@.len(),
        ensures
            self.routes(iteration, score, prices@, r),
    {
        let difficulty: u64 = match score {
            Ok(d) => clamp(d, ZERO, ONE),
            Err(_) => FALLBACK_DIFFICULTY,
        };
        let required = self.bands.tier_for(difficulty);
        proof {
            let es = self.choices(prices@);
            if es.len() > 0 {
                assert(fits(es[0], None));
                assert(populated(es, None, es[0].tier));
            }
        }
        self.select(iteration, difficulty, required, None, &None, prices)
    }

    /// Whether the models may cost this much.
    pub open spec fn may_cost(&self, prices: Seq<Option<ModelCost>>) -> bool {
        &&& prices.len() == self.registrations@.len()
        &&& forall|i: int|
            0 <= i < prices.len() ==> self.registrations@[i].may_cost(
                self.cost_fallback,
                #[trigger] prices[i],
            )
    }

    /// What each model costs.
    pub fn costs(&self) -> (r: Vec<Option<ModelCost>>)
        ensures
            self.may_cost(r@),
    {
        let mut prices: Vec<Option<ModelCost>> = Vec::new();
        let mut i: usize = 0;
        while i < self.registrations.len()
            invariant
                i == prices@.len() <= self.registrations@.len(),
                forall|j: int|
                    0 <= j < i ==> self.registrations@[j].may_cost(
                        self.cost_fallback,
                        #[trigger] prices@[j],
                    ),
            decreases self.registrations@.len() - i,
        {
            let cost = self.registrations[i].effective_cost(&self.cost_fallback);
            prices.push(cost);
            i += 1;
        }
        prices
    }

    /// Whether the scorer and the price list may lead to this outcome for a
    /// request.
    pub open spec fn may_route(
        &self,
        iteration: usize,
        request: RequestView,
        r: Result<RoutedModel<M>>,
    ) -> bool {
        exists|score: Result<u64>, prices: Seq<Option<ModelCost>>|
            {
                &&& self.scorer.inner.scores(request, score)
                &&& self.may_cost(prices)
                &&& #[trigger] self.routes(iteration, score, prices, r)
            }
    }

    /// Scores a request and chooses the cheapest model that is up to it. A scorer
    /// that fails does not fail the choice.
    pub fn route(&self, iteration: usize, request: &ChatRequest) -> (r: Result<RoutedModel<M>>)
        ensures
            self.may_route(iteration, request@, r),
            r is Err <==> self.registrations@.len() == 0,
    {
        let score = self.scorer.inner.score_erased(request);
        let ghost given = score;
        let prices = self.costs();
        let r = self.route_scored(iteration, score, &prices);
        assert(self.routes(iteration, given, prices@, r));
        r
    }

    /// Whether this is the right outcome of an escalation, given what each model
    /// costs.
    pub open spec fn escalates(
        &self,
        decision: RouteDecision,
        prices: Seq<Option<ModelCost>>,
        r: Option<RoutedModel<M>>,
    ) -> bool {
        let es = self.choices(prices);
        let group = opt_text(decision.selected_group);
        match r {
            Some(routed) => exists|i: int, next: ModelTier|
                {
                    &&& #[trigger] right_choice(es, group, next, i)
                    &&& next_above(es, group, decision.selected_tier, next)
                    &&& routed.handle == self.registrations@[i].model
                    &&& records(
                        routed.decision,
                        self.registrations@[i],
                        decision.iteration,
                        decision.difficulty,
                        next,
                        Some(decision.selected_tier),
                    )
                },
            None => forall|t: ModelTier|
                t.rank() > decision.selected_tier.rank() ==> !#[trigger] populated(es, group, t),
        }
    }

    /// Chooses a model of the next tier above one that failed, within its group
    /// if it has one, given what each model costs. There may be none.
    pub fn escalate_priced(
        &self,
        decision: &RouteDecision,
        prices: &Vec<Option<ModelCost>>,
    ) -> (r: Option<RoutedModel<M>>)
        requires
            prices@.len() == self.registrations@.len(),
        ensures
            self.escalates(*decision, prices@, r),
    {
        let ghost es = self.choices(prices@);
        let ghost g = opt_text(decision.selected_group);
        let group = &decision.selected_group;
        let below = decision.selected_tier;
        let medium = self.is_populated(ModelTier::Medium, group, Ghost(prices@));
        let large = self.is_populated(ModelTier::Large, group, Ghost(prices@));
        let next = if medium && below == ModelTier::Small {
            ModelTier::Medium
        } else if large && below != ModelTier::Large {
            ModelTier::Large
        } else {
            proof {
                assert forall|t: ModelTier|
                    t.rank() > decision.selected_tier.rank() implies !#[trigger] populated(
                    es,
                    g,
                    t,
                ) by {
                    match t {
                        ModelTier::Small => {},
                        ModelTier::Medium => {},
                        ModelTier::Large => {},
                    }
                }
            }
            return None;
        };
        assert(next_above(es, g, below, next));
        match self.select(
            decision.iteration,
            decision.difficulty,
            next,
            Some(below),
            group,
            prices,
        ) {
            Ok(routed) => Some(routed),
            Err(_) => None,
        }
    }

    /// Chooses a model of the next tier above one that failed, within its group
    /// if it has one. There may be none.
    pub fn escalate(&self, decision: &RouteDecision) -> (r: Option<RoutedModel<M>>)
        ensures
            exists|prices: Seq<Option<ModelCost>>|
                self.may_cost(prices) && #[trigger] self.escalates(*decision, prices, r),
    {
        let prices = self.costs();
        let r = self.escalate_priced(decision, &prices);
        assert(self.escalates(*decision, prices@, r));
        r
    }
}

/// How hard a request counts by its score.
pub open spec fn scored(score: Result<u64>) -> u64 {
    match score {
        Ok(d) => clamped(d, ZERO, ONE),
        Err(_) => FALLBACK_DIFFICULTY,
    }
}

/// Builds a [`ModelRouter`].
pub struct ModelRouterBuilder<M> {
    pub registrations: Vec<ModelRegistration<M>>,
    pub scorer: SharedTaskScorer,
    pub cost_fallback: Option<SharedCostModel>,
    pub bands: TierBands,
}

/// Whether a pointer leads to a scorer.
pub open spec fn points_to_scorer<S: TaskScorer>(shared: SharedTaskScorer, scorer: S) -> bool {
    forall|q: RequestView, o: Result<u64>| #[trigger]
        shared.inner.scores(q, o) == scorer.may_score(q, o)
}

impl<M> ModelRouter<M> {
    /// Starts to build a router that goes by a scorer.
    pub fn builder<S: TaskScorer + 'static>(scorer: S) -> (r: ModelRouterBuilder<M>)
        ensures
            r.registrations@ == Seq::<ModelRegistration<M>>::empty(),
            points_to_scorer(r.scorer, scorer),
            r.cost_fallback is None,
            r.bands.small_below == 0x3FD51EB851EB851F,
            r.bands.medium_below == 0x3FE51EB851EB851F,
    {
        ModelRouterBuilder {
            registrations: Vec::new(),
            scorer: SharedTaskScorer::new(scorer),
            cost_fallback: None,
            bands: TierBands::default(),
        }
    }
}

impl<M> ModelRouterBuilder<M> {
    /// Whether only the models differ.
    pub open spec fn but_for_models(self, other: Self) -> bool {
        self.scorer == other.scorer && self.cost_fallback == other.cost_fallback && self.bands
            == other.bands
    }

    /// Adds a model with what is known of it.
    pub fn registration(self, registration: ModelRegistration<M>) -> (r: Self)
        ensures
            r.registrations@ == self.registrations@.push(registration),
            r.but_for_models(self),
    {
        let mut registrations = self.registrations;
        registrations.push(registration);
        ModelRouterBuilder { registrations, ..self }
    }

    /// Adds a model at a tier.
    pub fn register(self, tier: ModelTier, model_id: &str, model: M) -> (r: Self)
        ensures
            r.registrations@.len() == self.registrations@.len() + 1,
            r.registrations@.drop_last() == self.registrations@,
            *r.registrations@.last().model == model,
            r.registrations@.last().model_id@ == model_id@,
            r.registrations@.last().tier == tier,
            r.registrations@.last().cost is None,
            r.registrations@.last().group is None,
            r.but_for_models(self),
    {
        let ghost before = self.registrations@;
        let r = self.registration(ModelRegistration::new(tier, model_id, model));
        assert(r.registrations@.drop_last() =~= before);
        r
    }

    /// Adds a model that others hold too, at a tier.
    pub fn register_shared(self, tier: ModelTier, model_id: &str, model: Arc<M>) -> (r: Self)
        ensures
            r.registrations@.len() == self.registrations@.len() + 1,
            r.registrations@.drop_last() == self.registrations@,
            r.registrations@.last().model == model,
            r.registrations@.last().model_id@ == model_id@,
            r.registrations@.last().tier == tier,
            r.registrations@.last().cost is None,
            r.registrations@.last().group is None,
            r.but_for_models(self),
    {
        let ghost before = self.registrations@;
        let r = self.registration(ModelRegistration::shared(tier, model_id, model));
        assert(r.registrations@.drop_last() =~= before);
        r
    }

    /// Adds a model at a tier and says what it costs.
    pub fn register_with_cost(
        self,
        tier: ModelTier,
        model_id: &str,
        model: M,
        cost: ModelCost,
    ) -> (r: Self)
        ensures
            r.registrations@.len() == self.registrations@.len() + 1,
            r.registrations@.drop_last() == self.registrations@,
            *r.registrations@.last().model == model,
            r.registrations@.last().model_id@ == model_id@,
            r.registrations@.last().tier == tier,
            r.registrations@.last().cost == Some(cost),
            r.registrations@.last().group is None,
            r.but_for_models(self),
    {
        let ghost before = self.registrations@;
        let r = self.registration(ModelRegistration::new(tier, model_id, model).with_cost(cost));
        assert(r.registrations@.drop_last() =~= before);
        r
    }

    /// Sets the scorer.
    pub fn scorer<S: TaskScorer + 'static>(self, scorer: S) -> (r: Self)
        ensures
            points_to_scorer(r.scorer, scorer),
            r == (ModelRouterBuilder { scorer: r.scorer, ..self }),
    {
        self.shared_scorer(SharedTaskScorer::new(scorer))
    }

    /// Sets a scorer that stands behind a pointer.
    pub fn shared_scorer(self, scorer: SharedTaskScorer) -> (r: Self)
        ensures
            r == (ModelRouterBuilder { scorer, ..self }),
    {
        ModelRouterBuilder { scorer, ..self }
    }

    /// Sets the list of prices for models of which no cost was said.
    pub fn cost_model<C: CostModel + 'static>(self, cost_model: C) -> (r: Self)
        ensures
            r.cost_fallback matches Some(shared) && forall|id: Seq<char>, c: ModelCost| #[trigger]
                shared.inner.lists(id, c) == cost_model.may_cost(id, c),
            r == (ModelRouterBuilder { cost_fallback: r.cost_fallback, ..self }),
    {
        ModelRouterBuilder { cost_fallback: Some(SharedCostModel::new(cost_model)), ..self }
    }

    /// Sets which tier a request needs.
    pub fn bands(self, bands: TierBands) -> (r: Self)
        ensures
            r == (ModelRouterBuilder { bands, ..self }),
    {
        ModelRouterBuilder { bands, ..self }
    }

    /// Builds the router. There must be a model.
    pub fn build(self) -> (r: Result<ModelRouter<M>>)
        ensures
            match r {
                Ok(router) => self.registrations@.len() > 0 && router == (ModelRouter {
                    registrations: self.registrations,
                    scorer: self.scorer,
                    cost_fallback: self.cost_fallback,
                    bands: self.bands,
                }),
                Err(e) => self.registrations@.len() == 0 && e@ == ErrorView::Builder(
                    "model router requires at least one registration"@,
                ),
            },
    {
        if self.registrations.len() == 0 {
            return Err(
                DaimonError::Builder(owned("model router requires at least one registration")),
            );
        }
        Ok(
            ModelRouter {
                registrations: self.registrations,
                scorer: self.scorer,
                cost_fallback: self.cost_fallback,
                bands: self.bands,
            },
        )
    }
}

/// There is only one model to choose.
pub proof fn choice_is_unique(
    es: Seq<Entry>,
    group: Option<Seq<char>>,
    required: ModelTier,
    i: int,
    j: int,
)
    requires
        right_choice(es, group, required, i),
        right_choice(es, group, required, j),
    ensures
        i == j,
{
    assert(populated(es, group, es[i].tier));
    assert(populated(es, group, es[j].tier));
    assert(es[i].tier.rank() == es[j].tier.rank());
    assert(es[i].tier == es[j].tier);
    assert(preferred(es, i, j));
    assert(preferred(es, j, i));
}

/// An escalation goes up to the next tier that has a model, and stays in the group.
pub proof fn escalation_goes_up(
    es: Seq<Entry>,
    group: Option<Seq<char>>,
    below: ModelTier,
    next: ModelTier,
    i: int,
)
    requires
        next_above(es, group, below, next),
        right_choice(es, group, next, i),
    ensures
        es[i].tier == next,
        es[i].tier.rank() > below.rank(),
        fits(es[i], group),
{
    assert(reachable(es, group, next));
    assert(es[i].tier.rank() <= next.rank());
}

/// No model is chosen below the tier that a request needs while one at or above
/// it is there.
pub proof fn chosen_model_is_up_to_it(
    es: Seq<Entry>,
    required: ModelTier,
    i: int,
    other: int,
)
    requires
        right_choice(es, None, required, i),
        0 <= other < es.len(),
        es[other].tier.rank() >= required.rank(),
    ensures
        es[i].tier.rank() >= required.rank(),
{
    assert(fits(es[other], None));
    assert(populated(es, None, es[other].tier));
    assert(reachable(es, None, required));
}

} // verus!
