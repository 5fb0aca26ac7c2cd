//! Linear pipelines.

use crate::agent::{may_answer, Agent, AgentResponse};
use crate::error::{DaimonError, ErrorView, Outcome, Result};
use crate::json::{Json, JsonMap, JsonView, NumberView};
use crate::orchestration::dag::State;
use crate::text::{opt_text, owned};
use vstd::prelude::*;

verus! {

/// What flows through a chain.
#[derive(Debug, PartialEq)]
pub struct ChainContext {
    /// The text. A step usually reads it and puts its output in its place.
    pub text: String,
    /// Anything else that steps pass on.
    pub metadata: JsonMap,
}

/// What flows through a chain, as contracts speak of it.
pub struct ChainView {
    pub text: Seq<char>,
    pub metadata: State,
}

impl Clone for ChainContext {
    fn clone(&self) -> (r: Self)
        ensures
            r@ == self@,
    {
        ChainContext { text: owned(&self.text), metadata: self.metadata.duplicate() }
    }
}

impl View for ChainContext {
    type V = ChainView;

    open spec fn view(&self) -> ChainView {
        ChainView { text: self.text@, metadata: self.metadata@ }
    }
}

impl ChainContext {
    /// A context with a text and no metadata.
    pub fn new(text: &str) -> (r: Self)
        ensures
            r@ == (ChainView { text: text@, metadata: Map::empty() }),
    {
        ChainContext { text: owned(text), metadata: JsonMap::new() }
    }

    /// Sets a metadata entry.
    pub fn with_metadata(self, key: &str, value: Json) -> (r: Self)
        ensures
            r@ == (ChainView { metadata: self@.metadata.insert(key@, value@), ..self@ }),
    {
        let mut metadata = self.metadata;
        metadata.insert(owned(key), value);
        ChainContext { text: self.text, metadata }
    }
}

/// A result with its context as contracts speak of it.
pub open spec fn chain_outcome(r: Result<ChainContext>) -> Outcome<ChainView> {
    match r {
        Ok(c) => Ok(c@),
        Err(e) => Err(e@),
    }
}

/// A step of a chain.
pub trait ChainStep {
    /// What `process` may answer. A step that says nothing here may answer
    /// anything.
    open spec fn may(&self, before: ChainView, r: Outcome<ChainView>) -> bool {
        true
    }

    /// Makes the context for the next step.
    fn process(&self, ctx: ChainContext) -> (r: Result<ChainContext>)
        ensures
            self.may(ctx@, chain_outcome(r)),
    ;
}

/// A [`ChainStep`] that can stand in a chain beside others of other types.
pub trait ErasedChainStep {
    /// What `process_erased` may answer.
    spec fn answers(&self, before: ChainView, r: Outcome<ChainView>) -> bool;

    /// Makes the context for the next step.
    fn process_erased(&self, ctx: ChainContext) -> (r: Result<ChainContext>)
        ensures
            self.answers(ctx@, chain_outcome(r)),
    ;
}

impl<S: ChainStep> ErasedChainStep for S {
    open spec fn answers(&self, before: ChainView, r: Outcome<ChainView>) -> bool {
        self.may(before, r)
    }

    fn process_erased(&self, ctx: ChainContext) -> (r: Result<ChainContext>) {
        self.process(ctx)
    }
}

/// A step in its place in a chain.
pub struct ChainLink {
    pub step: Box<dyn ErasedChainStep>,
}

fn boxed_step<S: ChainStep + 'static>(step: S) -> (r: ChainLink)
    ensures
        forall|before: ChainView, o: Outcome<ChainView>| #[trigger]
            r.step.answers(before, o) == step.may(before, o),
{
    ChainLink { step: Box::new(step) }
}

/// A step that hands the text to an agent. The agent's answer becomes the text,
/// and the number of its rounds goes into the metadata.
pub struct AgentStep<A> {
    agent: A,
}

impl<A> AgentStep<A> {
    /// The agent.
    pub closed spec fn agent_held(&self) -> A {
        self.agent
    }

    /// Makes a step of an agent.
    pub fn new(agent: A) -> (r: Self)
        ensures
            r.agent_held() == agent,
    {
        AgentStep { agent }
    }
}

/// What an agent may make of a context.
pub open spec fn agent_step<A: Agent>(agent: A, before: ChainView, r: Outcome<ChainView>) -> bool {
    exists|answer: Result<AgentResponse>|
        {
            &&& #[trigger] may_answer(agent, before.text, answer)
            &&& r == match answer {
                Ok(a) => Ok::<ChainView, ErrorView>(
                    ChainView {
                        text: a.final_text@,
                        metadata: before.metadata.insert(
                            "iterations"@,
                            JsonView::Number(NumberView::PosInt(a.iterations as u64)),
                        ),
                    },
                ),
                Err(e) => Err(e@),
            }
        }
}

impl<A: Agent> ChainStep for AgentStep<A> {
    open spec fn may(&self, before: ChainView, r: Outcome<ChainView>) -> bool {
        agent_step(self.agent_held(), before, r)
    }

    fn process(&self, ctx: ChainContext) -> (r: Result<ChainContext>) {
        let answer = self.agent.prompt(&ctx.text);
        assert(may_answer(self.agent_held(), ctx@.text, answer));
        match answer {
            Ok(a) => {
                let mut metadata = ctx.metadata;
                metadata.insert(owned("iterations"), Json::uint(a.iterations as u64));
                Ok(ChainContext { text: a.final_text, metadata })
            },
            Err(e) => Err(e),
        }
    }
}

/// What a function may make of a context.
pub open spec fn transformed<F: Fn(ChainContext) -> Result<ChainContext>>(
    func: F,
    before: ChainView,
    r: Outcome<ChainView>,
) -> bool {
    exists|ctx: ChainContext, o: Result<ChainContext>|
        ctx@ == before && chain_outcome(o) == r && #[trigger] call_ensures(func, (ctx,), o)
}

/// A step that is a function.
pub struct TransformStep<F: Fn(ChainContext) -> Result<ChainContext>> {
    func: F,
}

impl<F: Fn(ChainContext) -> Result<ChainContext>> TransformStep<F> {
    #[verifier::type_invariant]
    spec fn takes_anything(self) -> bool {
        forall|ctx: ChainContext| #[trigger] call_requires(self.func, (ctx,))
    }

    /// The function.
    pub closed spec fn func_held(&self) -> F {
        self.func
    }

    /// A step that is a function.
    pub fn new(func: F) -> (r: Self)
        requires
            forall|ctx: ChainContext| #[trigger] call_requires(func, (ctx,)),
        ensures
            r.func_held() == func,
    {
        TransformStep { func }
    }
}

impl<F: Fn(ChainContext) -> Result<ChainContext>> ChainStep for TransformStep<F> {
    open spec fn may(&self, before: ChainView, r: Outcome<ChainView>) -> bool {
        transformed(self.func_held(), before, r)
    }

    fn process(&self, ctx: ChainContext) -> (r: Result<ChainContext>) {
        proof {
            use_type_invariant(self);
        }
        let ghost given = ctx;
        let r = (self.func)(ctx);
        assert(call_ensures(self.func_held(), (given,), r));
        r
    }
}

/// Puts a chain together.
pub struct ChainBuilder {
    steps: Vec<ChainLink>,
    name: Option<String>,
}

impl ChainBuilder {
    /// The steps in order.
    pub closed spec fn links(&self) -> Seq<ChainLink> {
        self.steps@
    }

    /// The name, if there is one.
    pub closed spec fn label(&self) -> Option<Seq<char>> {
        opt_text(self.name)
    }

    fn new() -> (r: Self)
        ensures
            r.links() == Seq::<ChainLink>::empty(),
            r.label() is None,
    {
        ChainBuilder { steps: Vec::new(), name: None }
    }

    /// Adds a step behind the others.
    pub fn step<S: ChainStep + 'static>(self, step: S) -> (r: Self)
        ensures
            r.links().len() == self.links().len() + 1,
            r.links().drop_last() == self.links(),
            forall|before: ChainView, o: Outcome<ChainView>| #[trigger]
                r.links().last().step.answers(before, o) == step.may(before, o),
            r.label() == self.label(),
    {
        let mut steps = self.steps;
        let ghost before = steps@;
        steps.push(boxed_step(step));
        assert(steps@.drop_last() =~= before);
        ChainBuilder { steps, name: self.name }
    }

    /// Adds an agent as a step.
    pub fn agent<A: Agent + 'static>(self, agent: A) -> (r: Self)
        ensures
            r.links().len() == self.links().len() + 1,
            r.links().drop_last() == self.links(),
            forall|before: ChainView, o: Outcome<ChainView>| #[trigger]
                r.links().last().step.answers(before, o) == agent_step(agent, before, o),
            r.label() == self.label(),
    {
        self.step(AgentStep::new(agent))
    }

    /// Adds a function as a step.
    pub fn transform<F: Fn(ChainContext) -> Result<ChainContext> + 'static>(self, f: F) -> (r: Self)
        requires
            forall|ctx: ChainContext| #[trigger] call_requires(f, (ctx,)),
        ensures
            r.links().len() == self.links().len() + 1,
            r.links().drop_last() == self.links(),
            forall|before: ChainView, o: Outcome<ChainView>| #[trigger]
                r.links().last().step.answers(before, o) == transformed(f, before, o),
            r.label() == self.label(),
    {
        self.step(TransformStep::new(f))
    }

    /// Names the chain.
    pub fn name(self, name: &str) -> (r: Self)
        ensures
            r.links() == self.links(),
            r.label() == Some(name@),
    {
        ChainBuilder { steps: self.steps, name: Some(owned(name)) }
    }

    /// The chain. It needs a step.
    pub fn build(self) -> (r: Result<Chain>)
        ensures
            match r {
                Ok(c) => self.links().len() > 0 && c.links() == self.links() && c.label()
                    == self.label(),
                Err(e) => self.links().len() == 0 && e@ == ErrorView::Orchestration(
                    "chain must have at least one step"@,
                ),
            },
    {
        if self.steps.len() == 0 {
            return Err(DaimonError::Orchestration(owned("chain must have at least one step")));
        }
        Ok(Chain { steps: self.steps, name: self.name })
    }
}

/// Whether a context may come out of the steps as `out`: each works on what the
/// one before it made, and the first that fails ends the chain.
pub open spec fn passes_through(
    steps: Seq<ChainLink>,
    ctx: ChainView,
    out: Outcome<ChainView>,
) -> bool
    decreases steps.len(),
{
    if steps.len() == 0 {
        out == Ok::<ChainView, ErrorView>(ctx)
    } else {
        exists|mid: Outcome<ChainView>|
            {
                &&& #[trigger] steps[0].step.answers(ctx, mid)
                &&& match mid {
                    Ok(c) => passes_through(steps.skip(1), c, out),
                    Err(e) => out == Err::<ChainView, ErrorView>(e),
                }
            }
    }
}

/// A pipeline of steps.
pub struct Chain {
    steps: Vec<ChainLink>,
    name: Option<String>,
}

impl Chain {
    /// The steps in order.
    pub closed spec fn links(&self) -> Seq<ChainLink> {
        self.steps@
    }

    /// The name, if there is one.
    pub closed spec fn label(&self) -> Option<Seq<char>> {
        opt_text(self.name)
    }

    /// A builder.
    pub fn builder() -> (r: ChainBuilder)
        ensures
            r.links() == Seq::<ChainLink>::empty(),
            r.label() is None,
    {
        ChainBuilder::new()
    }

    fn run_from(&self, i: usize, ctx: ChainContext) -> (r: Result<ChainContext>)
        requires
            i <= self.links().len(),
        ensures
            passes_through(self.links().skip(i as int), ctx@, chain_outcome(r)),
        decreases self.links().len() - i,
    {
        let ghost rest = self.links().skip(i as int);
        if i >= self.steps.len() {
            return Ok(ctx);
        }
        assert(rest.skip(1) =~= self.links().skip(i + 1));
        let ghost before = ctx@;
        let r = self.steps[i].step.process_erased(ctx);
        let ghost mid = chain_outcome(r);
        assert(rest[0].step.answers(before, mid));
        match r {
            Ok(c) => {
                assert(mid == Ok::<ChainView, ErrorView>(c@));
                self.run_from(i + 1, c)
            },
            Err(e) => {
                assert(mid == Err::<ChainView, ErrorView>(e@));
                Err(e)
            },
        }
    }

    /// Runs the chain on a text.
    pub fn run(&self, input: &str) -> (r: Result<ChainContext>)
        ensures
            passes_through(
                self.links(),
                ChainView { text: input@, metadata: Map::empty() },
                chain_outcome(r),
            ),
    {
        self.run_with_context(ChainContext::new(input))
    }

    /// Runs the chain on a context.
    pub fn run_with_context(&self, ctx: ChainContext) -> (r: Result<ChainContext>)
        ensures
            passes_through(self.links(), ctx@, chain_outcome(r)),
    {
        assert(self.links().skip(0) =~= self.links());
        self.run_from(0, ctx)
    }

    /// The number of steps.
    pub fn len(&self) -> (n: usize)
        ensures
            n == self.links().len(),
    {
        self.steps.len()
    }

    /// Whether there are no steps.
    pub fn is_empty(&self) -> (r: bool)
        ensures
            r == (self.links().len() == 0),
    {
        self.steps.len() == 0
    }
}

/// Whether a context may come out as `out` if a second chain works on what a first
/// made, unless the first fails.
pub open spec fn one_after_the_other(
    first: Seq<ChainLink>,
    second: Seq<ChainLink>,
    ctx: ChainView,
    out: Outcome<ChainView>,
) -> bool {
    exists|mid: Outcome<ChainView>|
        {
            &&& #[trigger] passes_through(first, ctx, mid)
            &&& match mid {
                Ok(c) => passes_through(second, c, out),
                Err(e) => out == Err::<ChainView, ErrorView>(e),
            }
        }
}

/// Running two chains one after the other is running their steps as one chain. In
/// particular a failure ends the chain, whatever steps stand behind it.
pub proof fn chains_compose(
    first: Seq<ChainLink>,
    second: Seq<ChainLink>,
    ctx: ChainView,
    out: Outcome<ChainView>,
)
    ensures
        passes_through(first + second, ctx, out) == one_after_the_other(first, second, ctx, out),
    decreases first.len(),
{
    let all = first + second;
    if first.len() == 0 {
        assert(all =~= second);
        if passes_through(all, ctx, out) {
            assert(passes_through(first, ctx, Ok(ctx)));
        }
    } else {
        assert(all[0] == first[0]);
        assert(all.skip(1) =~= first.skip(1) + second);
        if passes_through(all, ctx, out) {
            let step = choose|m: Outcome<ChainView>|
                {
                    &&& #[trigger] all[0].step.answers(ctx, m)
                    &&& match m {
                        Ok(c) => passes_through(all.skip(1), c, out),
                        Err(e) => out == Err::<ChainView, ErrorView>(e),
                    }
                };
            assert(first[0].step.answers(ctx, step));
            match step {
                Ok(c) => {
                    chains_compose(first.skip(1), second, c, out);
                    let mid = choose|mid: Outcome<ChainView>|
                        {
                            &&& #[trigger] passes_through(first.skip(1), c, mid)
                            &&& match mid {
                                Ok(d) => passes_through(second, d, out),
                                Err(e) => out == Err::<ChainView, ErrorView>(e),
                            }
                        };
                    assert(passes_through(first, ctx, mid));
                },
                Err(e) => {
                    assert(passes_through(first, ctx, out));
                },
            }
        }
        if one_after_the_other(first, second, ctx, out) {
            let mid = choose|mid: Outcome<ChainView>|
                {
                    &&& #[trigger] passes_through(first, ctx, mid)
                    &&& match mid {
                        Ok(c) => passes_through(second, c, out),
                        Err(e) => out == Err::<ChainView, ErrorView>(e),
                    }
                };
            let step = choose|m: Outcome<ChainView>|
                {
                    &&& #[trigger] first[0].step.answers(ctx, m)
                    &&& match m {
                        Ok(c) => passes_through(first.skip(1), c, mid),
                        Err(e) => mid == Err::<ChainView, ErrorView>(e),
                    }
                };
            assert(all[0].step.answers(ctx, step));
            match step {
                Ok(c) => {
                    assert(one_after_the_other(first.skip(1), second, c, out));
                    chains_compose(first.skip(1), second, c, out);
                },
                Err(e) => {},
            }
        }
    }
}

/// Whether a chain went through its steps in this way: each that ran was handed what
/// the one before it made, and all but the last that ran ended well.
pub open spec fn went_through(
    steps: Seq<ChainLink>,
    ctx: ChainView,
    made: Seq<ChainView>,
    out: Outcome<ChainView>,
) -> bool {
    &&& made.len() > 0
    &&& made[0] == ctx
    &&& made.len() <= steps.len() + 1
    &&& forall|i: int|
        0 <= i < made.len() - 1 ==> #[trigger] steps[i].step.answers(made[i], Ok(made[i + 1]))
    &&& match out {
        Ok(c) => made.len() == steps.len() + 1 && c == made.last(),
        Err(e) => made.len() <= steps.len() && steps[made.len() - 1].step.answers(
            made.last(),
            Err(e),
        ),
    }
}

/// A chain runs every step on what the one before it made, from the first to the
/// last or to the first that fails. It ends with what the last one made, or with the
/// error of the one that failed.
pub proof fn chains_run_every_step(
    steps: Seq<ChainLink>,
    ctx: ChainView,
    out: Outcome<ChainView>,
) -> (made: Seq<ChainView>)
    requires
        passes_through(steps, ctx, out),
    ensures
        went_through(steps, ctx, made, out),
    decreases steps.len(),
{
    if steps.len() == 0 {
        seq![ctx]
    } else {
        let mid = choose|mid: Outcome<ChainView>|
            {
                &&& #[trigger] steps[0].step.answers(ctx, mid)
                &&& match mid {
                    Ok(c) => passes_through(steps.skip(1), c, out),
                    Err(e) => out == Err::<ChainView, ErrorView>(e),
                }
            };
        match mid {
            Ok(c) => {
                let rest = chains_run_every_step(steps.skip(1), c, out);
                let made = seq![ctx] + rest;
                assert forall|i: int| 0 <= i < made.len() - 1 implies #[trigger] steps[
                    i
                ].step.answers(made[i], Ok(made[i + 1])) by {
                    if i > 0 {
                        assert(steps.skip(1)[i - 1].step.answers(rest[i - 1], Ok(rest[i])));
                    }
                }
                assert(made.last() == rest.last());
                made
            },
            Err(e) => seq![ctx],
        }
    }
}

/// An agent in a chain answers the text so far. Its answer is the text from there on,
/// how many rounds it took is noted, and all other notes stay.
pub proof fn agents_answer_the_text<A: Agent>(agent: A, before: ChainView, after: ChainView)
    requires
        agent_step(agent, before, Ok(after)),
    ensures
        exists|answer: AgentResponse|
            {
                &&& #[trigger] may_answer(agent, before.text, Ok(answer))
                &&& after.text == answer.final_text@
                &&& after.metadata.contains_key("iterations"@)
                &&& after.metadata["iterations"@] == JsonView::Number(
                    NumberView::PosInt(answer.iterations as u64),
                )
            },
        forall|key: Seq<char>|
            key != "iterations"@ ==> (#[trigger] after.metadata.contains_key(key)
                == before.metadata.contains_key(key)) && (before.metadata.contains_key(key)
                ==> after.metadata[key] == before.metadata[key]),
{
    let answer = choose|answer: Result<AgentResponse>|
        {
            &&& #[trigger] may_answer(agent, before.text, answer)
            &&& Ok::<ChainView, ErrorView>(after) == match answer {
                Ok(a) => Ok::<ChainView, ErrorView>(
                    ChainView {
                        text: a.final_text@,
                        metadata: before.metadata.insert(
                            "iterations"@,
                            JsonView::Number(NumberView::PosInt(a.iterations as u64)),
                        ),
                    },
                ),
                Err(e) => Err(e@),
            }
        };
    assert(may_answer(agent, before.text, Ok(answer->Ok_0)));
}

} // verus!
