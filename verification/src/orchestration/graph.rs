//! Graphs that are walked node by node, with routing, cycles and fan-out.

use crate::agent::{may_answer, Agent, AgentResponse};
use crate::error::{DaimonError, ErrorView, Outcome, Result};
use crate::json::{Json, JsonMap, JsonView};
use crate::map::NameMap;
use crate::orchestration::dag::{merge_entries, text_of, written, State};
use crate::text::{cat3, copy_texts, decimal, decimal_text, opt_text, owned, same, texts};
use vstd::prelude::*;

verus! {

/// State that flows through a graph. Nodes read and write its entries.
#[derive(Debug, PartialEq)]
pub struct GraphContext {
    pub state: JsonMap,
}

impl Clone for GraphContext {
    fn clone(&self) -> (r: Self)
        ensures
            r@ == self@,
    {
        self.duplicate()
    }
}

impl View for GraphContext {
    type V = State;

    open spec fn view(&self) -> State {
        self.state@
    }
}

impl GraphContext {
    /// An empty context.
    pub fn new() -> (r: Self)
        ensures
            r@ == Map::<Seq<char>, JsonView>::empty(),
    {
        GraphContext { state: JsonMap::new() }
    }

    /// Sets an entry.
    pub fn set(&mut self, key: &str, value: Json)
        ensures
            final(self)@ == old(self)@.insert(key@, value@),
    {
        self.state.insert(owned(key), value);
    }

    /// An entry.
    pub fn get(&self, key: &str) -> (r: Option<&Json>)
        ensures
            match r {
                Some(v) => self@.contains_key(key@) && v@ == self@[key@],
                None => !self@.contains_key(key@),
            },
    {
        self.state.get(key)
    }

    /// An entry that is a string.
    pub fn get_str(&self, key: &str) -> (r: Option<&str>)
        ensures
            match r {
                Some(s) => self@.contains_key(key@) && self@[key@] == JsonView::Str(s@),
                None => !(self@.contains_key(key@) && self@[key@] is Str),
            },
    {
        match self.state.get(key) {
            Some(v) => v.as_str(),
            None => None,
        }
    }

    /// Sets the entry `input`.
    pub fn with_input(self, input: &str) -> (r: Self)
        ensures
            r@ == self@.insert("input"@, JsonView::Str(input@)),
    {
        let mut out = self;
        out.set("input", Json::text(input));
        out
    }

    /// A copy.
    pub fn duplicate(&self) -> (r: Self)
        ensures
            r@ == self@,
    {
        GraphContext { state: self.state.duplicate() }
    }
}

/// Where a node wants the walk to go.
#[derive(Debug, PartialEq)]
pub enum NodeOutcome {
    /// Along the edges of the node.
    Continue,
    /// To a node, whatever the edges say.
    Route(String),
    /// Through several nodes at the same time, then on from the merge node.
    FanOut { branches: Vec<String>, merge: String },
    /// Nowhere: the graph is done.
    Done,
}

/// Where a node wants the walk to go, as contracts speak of it.
pub enum NextView {
    Continue,
    Route(Seq<char>),
    FanOut { branches: Seq<Seq<char>>, merge: Seq<char> },
    Done,
}

impl View for NodeOutcome {
    type V = NextView;

    open spec fn view(&self) -> NextView {
        match *self {
            NodeOutcome::Continue => NextView::Continue,
            NodeOutcome::Route(t) => NextView::Route(t@),
            NodeOutcome::FanOut { branches, merge } => NextView::FanOut {
                branches: texts(branches@),
                merge: merge@,
            },
            NodeOutcome::Done => NextView::Done,
        }
    }
}

impl Clone for NodeOutcome {
    fn clone(&self) -> (r: Self)
        ensures
            r@ == self@,
    {
        match self {
            NodeOutcome::Continue => NodeOutcome::Continue,
            NodeOutcome::Route(t) => NodeOutcome::Route(owned(t)),
            NodeOutcome::FanOut { branches, merge } => NodeOutcome::FanOut {
                branches: copy_texts(branches),
                merge: owned(merge),
            },
            NodeOutcome::Done => NodeOutcome::Done,
        }
    }
}

/// A result with its outcome as contracts speak of it.
pub open spec fn next_outcome(r: Result<NodeOutcome>) -> Outcome<NextView> {
    match r {
        Ok(o) => Ok(o@),
        Err(e) => Err(e@),
    }
}

/// A node of a graph.
pub trait GraphNode {
    /// What `process` may do. A node that says nothing here may do anything.
    open spec fn may(&self, before: State, after: State, r: Outcome<NextView>) -> bool {
        true
    }

    /// Works on the context and says where to go.
    fn process(&self, ctx: &mut GraphContext) -> (r: Result<NodeOutcome>)
        ensures
            self.may(old(ctx)@, final(ctx)@, next_outcome(r)),
    ;
}

/// A [`GraphNode`] that can stand in a graph beside others of other types.
pub trait ErasedGraphNode {
    /// What `process_erased` may do.
    spec fn step(&self, before: State, after: State, r: Outcome<NextView>) -> bool;

    /// Works on the context and says where to go.
    fn process_erased(&self, ctx: &mut GraphContext) -> (r: Result<NodeOutcome>)
        ensures
            self.step(old(ctx)@, final(ctx)@, next_outcome(r)),
    ;
}

impl<N: GraphNode> ErasedGraphNode for N {
    open spec fn step(&self, before: State, after: State, r: Outcome<NextView>) -> bool {
        self.may(before, after, r)
    }

    fn process_erased(&self, ctx: &mut GraphContext) -> (r: Result<NodeOutcome>) {
        self.process(ctx)
    }
}

/// Whether a predicate may answer this.
pub open spec fn may_hold<F: Fn(&GraphContext) -> bool>(predicate: F, state: State, r: bool) -> bool {
    exists|ctx: &GraphContext|
        ctx@ == state && #[trigger] call_ensures(predicate, (ctx,), r)
}

/// Decides whether an edge is taken.
pub trait EdgeCondition {
    /// What `holds` may answer.
    spec fn answers(&self, state: State, r: bool) -> bool;

    /// Whether the edge is taken.
    fn holds(&self, ctx: &GraphContext) -> (r: bool)
        ensures
            self.answers(ctx@, r),
    ;
}

struct When<F: Fn(&GraphContext) -> bool> {
    predicate: F,
}

impl<F: Fn(&GraphContext) -> bool> When<F> {
    #[verifier::type_invariant]
    spec fn takes_anything(self) -> bool {
        forall|ctx: &GraphContext| #[trigger] call_requires(self.predicate, (ctx,))
    }
}

impl<F: Fn(&GraphContext) -> bool> EdgeCondition for When<F> {
    closed spec fn answers(&self, state: State, r: bool) -> bool {
        may_hold(self.predicate, state, r)
    }

    fn holds(&self, ctx: &GraphContext) -> (r: bool) {
        proof {
            use_type_invariant(self);
        }
        let r = (self.predicate)(ctx);
        assert(call_ensures(self.predicate, (ctx,), r));
        r
    }
}

/// A node that is a function of the context.
pub struct FnNode<F: Fn(GraphContext) -> Result<(GraphContext, NodeOutcome)>> {
    func: F,
}

impl<F: Fn(GraphContext) -> Result<(GraphContext, NodeOutcome)>> FnNode<F> {
    #[verifier::type_invariant]
    spec fn takes_anything(self) -> bool {
        forall|ctx: GraphContext| #[trigger] call_requires(self.func, (ctx,))
    }

    /// The function.
    pub closed spec fn func_held(&self) -> F {
        self.func
    }

    /// A node that is a function of the context.
    pub fn new(func: F) -> (r: Self)
        requires
            forall|ctx: GraphContext| #[trigger] call_requires(func, (ctx,)),
        ensures
            r.func_held() == func,
    {
        FnNode { func }
    }
}

impl<F: Fn(GraphContext) -> Result<(GraphContext, NodeOutcome)>> GraphNode for FnNode<F> {
    open spec fn may(&self, before: State, after: State, r: Outcome<NextView>) -> bool {
        exists|ctx: GraphContext, o: Result<(GraphContext, NodeOutcome)>|
            {
                &&& ctx@ == before
                &&& #[trigger] call_ensures(self.func_held(), (ctx,), o)
                &&& match o {
                    Ok((new, next)) => after == new@ && r == Ok::<NextView, ErrorView>(next@),
                    Err(e) => after == before && r == Err::<NextView, ErrorView>(e@),
                }
            }
    }

    fn process(&self, ctx: &mut GraphContext) -> (r: Result<NodeOutcome>) {
        proof {
            use_type_invariant(self);
        }
        let given = ctx.duplicate();
        let ghost before = given;
        let made = (self.func)(given);
        assert(call_ensures(self.func_held(), (before,), made));
        match made {
            Ok((new, next)) => {
                *ctx = new;
                Ok(next)
            },
            Err(e) => Err(e),
        }
    }
}

/// A node that hands a text to an agent, keeps the answer and goes on along its
/// edges.
pub struct AgentNode<A> {
    agent: A,
    input_key: String,
    output_key: String,
}

impl<A> AgentNode<A> {
    /// The agent.
    pub closed spec fn agent_held(&self) -> A {
        self.agent
    }

    /// The entry that is read and the entry that is written.
    pub closed spec fn keys(&self) -> (Seq<char>, Seq<char>) {
        (self.input_key@, self.output_key@)
    }

    /// Reads the prompt from one entry and writes the answer to another.
    pub fn new(agent: A, input_key: &str, output_key: &str) -> (r: Self)
        ensures
            r.agent_held() == agent,
            r.keys() == (input_key@, output_key@),
    {
        AgentNode { agent, input_key: owned(input_key), output_key: owned(output_key) }
    }
}

impl<A: Agent> GraphNode for AgentNode<A> {
    open spec fn may(&self, before: State, after: State, r: Outcome<NextView>) -> bool {
        exists|answer: Result<AgentResponse>|
            {
                &&& #[trigger] may_answer(
                    self.agent_held(),
                    text_of(before, self.keys().0),
                    answer,
                )
                &&& match answer {
                    Ok(a) => r == Ok::<NextView, ErrorView>(NextView::Continue) && after
                        == before.insert(self.keys().1, JsonView::Str(a.final_text@)),
                    Err(e) => r == Err::<NextView, ErrorView>(e@) && after == before,
                }
            }
    }

    fn process(&self, ctx: &mut GraphContext) -> (r: Result<NodeOutcome>) {
        let input = match ctx.get_str(&self.input_key) {
            Some(s) => owned(s),
            None => String::new(),
        };
        assert(input@ =~= text_of(ctx@, self.input_key@));
        let answer = self.agent.prompt(&input);
        assert(may_answer(self.agent_held(), text_of(ctx@, self.keys().0), answer));
        match answer {
            Ok(a) => {
                ctx.set(&self.output_key, Json::Str(a.final_text));
                Ok(NodeOutcome::Continue)
            },
            Err(e) => Err(e),
        }
    }
}

/// A node in its place in a graph.
pub struct GraphTask {
    pub node: Box<dyn ErasedGraphNode>,
}

fn boxed_node<N: GraphNode + 'static>(node: N) -> (r: GraphTask)
    ensures
        forall|before: State, after: State, o: Outcome<NextView>| #[trigger]
            r.node.step(before, after, o) == node.may(before, after, o),
{
    GraphTask { node: Box::new(node) }
}

/// The condition of an edge in its place.
pub struct Condition {
    pub rule: Box<dyn EdgeCondition>,
}

fn boxed_condition<F: Fn(&GraphContext) -> bool + 'static>(predicate: F) -> (r: Condition)
    requires
        forall|ctx: &GraphContext| #[trigger] call_requires(predicate, (ctx,)),
    ensures
        forall|state: State, b: bool| #[trigger]
            r.rule.answers(state, b) == may_hold(predicate, state, b),
{
    Condition { rule: Box::new(When { predicate }) }
}

/// An edge between two nodes.
pub struct Edge {
    /// The node that it leaves.
    pub source: String,
    /// The node that it leads to.
    pub target: String,
    /// When it is taken; always, if there is no condition.
    pub condition: Option<Condition>,
}

// ---------------------------------------------------------------------
// Building
// ---------------------------------------------------------------------

/// Puts a graph together.
pub struct GraphBuilder {
    nodes: NameMap<GraphTask>,
    edges: Vec<Edge>,
    entry: Option<String>,
    max_steps: usize,
}

/// A graph under construction, as contracts speak of it.
pub struct Draft {
    pub nodes: Map<Seq<char>, GraphTask>,
    pub edges: Seq<Edge>,
    pub entry: Option<Seq<char>>,
    pub max_steps: usize,
}

impl View for GraphBuilder {
    type V = Draft;

    closed spec fn view(&self) -> Draft {
        Draft {
            nodes: self.nodes@,
            edges: self.edges@,
            entry: opt_text(self.entry),
            max_steps: self.max_steps,
        }
    }
}

/// What is wrong with a graph under construction, if anything.
pub open spec fn draft_error(d: Draft) -> Option<Seq<char>> {
    match d.entry {
        None => Some("graph must have at least one node"@),
        Some(e) => if d.nodes.contains_key(e) {
            None
        } else {
            Some("entry node '"@ + e + "' not found"@)
        },
    }
}

impl GraphBuilder {
    fn new() -> (r: Self)
        ensures
            r@ == (Draft {
                nodes: Map::empty(),
                edges: Seq::empty(),
                entry: None,
                max_steps: 100,
            }),
    {
        GraphBuilder { nodes: NameMap::new(), edges: Vec::new(), entry: None, max_steps: 100 }
    }

    /// Adds a node, in place of one of the same name. The first node is where the
    /// walk begins, unless another is named.
    pub fn node<N: GraphNode + 'static>(self, name: &str, node: N) -> (r: Self)
        ensures
            r@.nodes.dom() == self@.nodes.dom().insert(name@),
            r@.nodes.remove(name@) == self@.nodes.remove(name@),
            forall|before: State, after: State, o: Outcome<NextView>| #[trigger]
                r@.nodes[name@].node.step(before, after, o) == node.may(before, after, o),
            r@.edges == self@.edges,
            r@.entry == (match self@.entry {
                Some(e) => Some(e),
                None => Some(name@),
            }),
            r@.max_steps == self@.max_steps,
    {
        let mut nodes = self.nodes;
        let ghost before = nodes@;
        nodes.insert(owned(name), boxed_node(node));
        assert(nodes@.dom() =~= before.dom().insert(name@));
        assert(nodes@.remove(name@) =~= before.remove(name@));
        let entry = match self.entry {
            Some(e) => Some(e),
            None => Some(owned(name)),
        };
        GraphBuilder { nodes, edges: self.edges, entry, max_steps: self.max_steps }
    }

    /// Adds an edge that is always taken.
    pub fn edge(self, from: &str, to: &str) -> (r: Self)
        ensures
            r@.nodes == self@.nodes,
            r@.edges.len() == self@.edges.len() + 1,
            r@.edges.drop_last() == self@.edges,
            r@.edges.last().source@ == from@,
            r@.edges.last().target@ == to@,
            r@.edges.last().condition is None,
            r@.entry == self@.entry,
            r@.max_steps == self@.max_steps,
    {
        let mut edges = self.edges;
        let ghost before = edges@;
        edges.push(Edge { source: owned(from), target: owned(to), condition: None });
        assert(edges@.drop_last() =~= before);
        GraphBuilder { edges, ..self }
    }

    /// Adds an edge that is taken if a condition holds.
    pub fn conditional_edge<F: Fn(&GraphContext) -> bool + 'static>(
        self,
        from: &str,
        to: &str,
        predicate: F,
    ) -> (r: Self)
        requires
            forall|ctx: &GraphContext| #[trigger] call_requires(predicate, (ctx,)),
        ensures
            r@.nodes == self@.nodes,
            r@.edges.len() == self@.edges.len() + 1,
            r@.edges.drop_last() == self@.edges,
            r@.edges.last().source@ == from@,
            r@.edges.last().target@ == to@,
            r@.edges.last().condition is Some,
            forall|state: State, b: bool| #[trigger]
                r@.edges.last().condition->0.rule.answers(state, b) == may_hold(
                    predicate,
                    state,
                    b,
                ),
            r@.entry == self@.entry,
            r@.max_steps == self@.max_steps,
    {
        let mut edges = self.edges;
        let ghost before = edges@;
        edges.push(
            Edge {
                source: owned(from),
                target: owned(to),
                condition: Some(boxed_condition(predicate)),
            },
        );
        assert(edges@.drop_last() =~= before);
        GraphBuilder { edges, ..self }
    }

    /// Sets where the walk begins.
    pub fn entry(self, name: &str) -> (r: Self)
        ensures
            r@ == (Draft { entry: Some(name@), ..self@ }),
    {
        GraphBuilder { entry: Some(owned(name)), ..self }
    }

    /// Sets how many nodes may run before the walk is given up; at first a
    /// hundred.
    pub fn max_steps(self, max: usize) -> (r: Self)
        ensures
            r@ == (Draft { max_steps: max, ..self@ }),
    {
        GraphBuilder { max_steps: max, ..self }
    }

    /// The graph.
    pub fn build(self) -> (r: Result<Graph>)
        ensures
            match r {
                Ok(g) => draft_error(self@) is None && g@ == self@,
                Err(e) => draft_error(self@) is Some && e@ == ErrorView::Orchestration(
                    draft_error(self@)->0,
                ),
            },
    {
        match self.entry {
            None => Err(DaimonError::Orchestration(owned("graph must have at least one node"))),
            Some(entry) => {
                if !self.nodes.contains(&entry) {
                    return Err(
                        DaimonError::Orchestration(cat3("entry node '", &entry, "' not found")),
                    );
                }
                Ok(Graph { nodes: self.nodes, edges: self.edges, entry, max_steps: self.max_steps })
            },
        }
    }
}

/// A graph that is walked from node to node.
pub struct Graph {
    nodes: NameMap<GraphTask>,
    edges: Vec<Edge>,
    entry: String,
    max_steps: usize,
}

impl View for Graph {
    type V = Draft;

    closed spec fn view(&self) -> Draft {
        Draft {
            nodes: self.nodes@,
            edges: self.edges@,
            entry: Some(self.entry@),
            max_steps: self.max_steps,
        }
    }
}

// ---------------------------------------------------------------------
// Walking
// ---------------------------------------------------------------------

/// Whether an edge leaves a node.
pub open spec fn has_edge(edges: Seq<Edge>, from: Seq<char>) -> bool {
    exists|e: int| 0 <= e < edges.len() && (#[trigger] edges[e]).source@ == from
}

/// Whether the walk may go from a node to where `out` says: to the target of the
/// first edge of the node whose condition holds or that has none.
pub open spec fn follows(
    edges: Seq<Edge>,
    from: Seq<char>,
    state: State,
    out: Outcome<Seq<char>>,
) -> bool
    decreases edges.len(),
{
    if edges.len() == 0 {
        out == Err::<Seq<char>, ErrorView>(
            ErrorView::Orchestration("no matching edge from node '"@ + from + "'"@),
        )
    } else if edges[0].source@ != from {
        follows(edges.skip(1), from, state, out)
    } else {
        match edges[0].condition {
            None => out == Ok::<Seq<char>, ErrorView>(edges[0].target@),
            Some(c) => exists|b: bool|
                {
                    &&& #[trigger] c.rule.answers(state, b)
                    &&& if b {
                        out == Ok::<Seq<char>, ErrorView>(edges[0].target@)
                    } else {
                        follows(edges.skip(1), from, state, out)
                    }
                },
        }
    }
}

/// Whether `out` may be where the walk goes along the edges of a node.
pub open spec fn next_node(
    edges: Seq<Edge>,
    from: Seq<char>,
    state: State,
    out: Outcome<Seq<char>>,
) -> bool {
    if has_edge(edges, from) {
        follows(edges, from, state, out)
    } else {
        out == Err::<Seq<char>, ErrorView>(
            ErrorView::Orchestration("no edges from node '"@ + from + "'"@),
        )
    }
}

/// The first branch that is not a node.
pub open spec fn missing_branch(
    nodes: Map<Seq<char>, GraphTask>,
    branches: Seq<Seq<char>>,
) -> Option<Seq<char>>
    decreases branches.len(),
{
    if branches.len() == 0 {
        None
    } else if !nodes.contains_key(branches[0]) {
        Some(branches[0])
    } else {
        missing_branch(nodes, branches.skip(1))
    }
}

/// Whether `out` may come of several nodes, each working on a copy of `base`, with
/// what they wrote merged one after the other.
pub open spec fn branches_work(
    nodes: Map<Seq<char>, GraphTask>,
    branches: Seq<Seq<char>>,
    base: State,
    merged: State,
    out: Outcome<State>,
) -> bool
    decreases branches.len(),
{
    if branches.len() == 0 {
        out == Ok::<State, ErrorView>(merged)
    } else {
        exists|after: State, r: Outcome<NextView>|
            {
                &&& #[trigger] nodes[branches[0]].node.step(base, after, r)
                &&& match r {
                    Ok(_) => branches_work(
                        nodes,
                        branches.skip(1),
                        base,
                        merged.union_prefer_right(written(base, after)),
                        out,
                    ),
                    Err(e) => out == Err::<State, ErrorView>(e),
                }
            }
    }
}

/// Whether `out` may come of a fan-out. It fails if a branch is not a node.
pub open spec fn fans_out(
    nodes: Map<Seq<char>, GraphTask>,
    branches: Seq<Seq<char>>,
    state: State,
    out: Outcome<State>,
) -> bool {
    match missing_branch(nodes, branches) {
        Some(b) => out == Err::<State, ErrorView>(
            ErrorView::Orchestration("fan-out node '"@ + b + "' not found"@),
        ),
        None => branches_work(nodes, branches, state, state, out),
    }
}

/// The error of a walk in which more nodes would run than may.
pub open spec fn too_long(g: Draft) -> ErrorView {
    ErrorView::Orchestration(
        "graph exceeded max steps ("@ + decimal(g.max_steps as nat)
            + ") — possible infinite loop"@,
    )
}

/// Whether a walk that stands at a node may come out as `out` if `left` nodes may
/// still run.
pub open spec fn walks(
    g: Draft,
    current: Seq<char>,
    state: State,
    left: nat,
    out: Outcome<State>,
) -> bool
    decreases left, 2nat,
{
    if left == 0 {
        out == Err::<State, ErrorView>(too_long(g))
    } else if !g.nodes.contains_key(current) {
        out == Err::<State, ErrorView>(
            ErrorView::Orchestration("node '"@ + current + "' not found"@),
        )
    } else {
        exists|after: State, r: Outcome<NextView>|
            {
                &&& #[trigger] g.nodes[current].node.step(state, after, r)
                &&& moves(g, current, after, r, left, out)
            }
    }
}

/// Whether a walk may come out as `out` once the node that it stands at, the first
/// of `left` that may run, has answered `r` and left a state.
pub open spec fn moves(
    g: Draft,
    current: Seq<char>,
    state: State,
    r: Outcome<NextView>,
    left: nat,
    out: Outcome<State>,
) -> bool
    decreases left, 1nat,
{
    if left == 0 {
        false
    } else {
        match r {
            Err(e) => out == Err::<State, ErrorView>(e),
            Ok(NextView::Done) => out == Ok::<State, ErrorView>(state),
            Ok(NextView::Route(t)) => walks(g, t, state, (left - 1) as nat, out),
            Ok(NextView::FanOut { branches, merge }) => fan_moves(
                g,
                branches,
                merge,
                state,
                left,
                out,
            ),
            Ok(NextView::Continue) => exists|next: Outcome<Seq<char>>|
                {
                    &&& #[trigger] next_node(g.edges, current, state, next)
                    &&& match next {
                        Ok(t) => walks(g, t, state, (left - 1) as nat, out),
                        Err(e) => out == Err::<State, ErrorView>(e),
                    }
                },
        }
    }
}

/// Whether a walk may come out as `out` when it fans out to branches and goes on
/// from the merge node. Every branch is a node that runs.
pub open spec fn fan_moves(
    g: Draft,
    branches: Seq<Seq<char>>,
    merge: Seq<char>,
    state: State,
    left: nat,
    out: Outcome<State>,
) -> bool
    decreases left, 0nat,
{
    if branches.len() + 1 > left {
        out == Err::<State, ErrorView>(too_long(g))
    } else {
        exists|mid: Outcome<State>|
            {
                &&& #[trigger] fans_out(g.nodes, branches, state, mid)
                &&& match mid {
                    Ok(s) => walks(g, merge, s, (left - 1 - branches.len()) as nat, out),
                    Err(e) => out == Err::<State, ErrorView>(e),
                }
            }
    }
}

/// A result with its context as contracts speak of it.
pub open spec fn graph_outcome(r: Result<GraphContext>) -> Outcome<State> {
    match r {
        Ok(c) => Ok(c@),
        Err(e) => Err(e@),
    }
}

/// A result with its name as contracts speak of it.
pub open spec fn name_outcome(r: Result<String>) -> Outcome<Seq<char>> {
    match r {
        Ok(s) => Ok(s@),
        Err(e) => Err(e@),
    }
}

impl Graph {
    /// A builder.
    pub fn builder() -> (r: GraphBuilder)
        ensures
            r@ == (Draft {
                nodes: Map::empty(),
                edges: Seq::empty(),
                entry: None,
                max_steps: 100,
            }),
    {
        GraphBuilder::new()
    }

    fn follow_from(&self, from: &str, ctx: &GraphContext, i: usize) -> (r: Result<String>)
        requires
            i <= self@.edges.len(),
        ensures
            follows(self@.edges.skip(i as int), from@, ctx@, name_outcome(r)),
        decreases self@.edges.len() - i,
    {
        let ghost rest = self@.edges.skip(i as int);
        if i >= self.edges.len() {
            return Err(
                DaimonError::Orchestration(cat3("no matching edge from node '", from, "'")),
            );
        }
        assert(rest.skip(1) =~= self@.edges.skip(i + 1));
        assert(rest[0] == self.edges@[i as int]);
        if !same(&self.edges[i].source, from) {
            return self.follow_from(from, ctx, i + 1);
        }
        match &self.edges[i].condition {
            None => Ok(self.edges[i].target.clone()),
            Some(c) => {
                let b = c.rule.holds(ctx);
                assert(rest[0].condition->0.rule.answers(ctx@, b));
                if b {
                    Ok(self.edges[i].target.clone())
                } else {
                    self.follow_from(from, ctx, i + 1)
                }
            },
        }
    }

    /// Where the walk goes along the edges of a node.
    pub fn follow_edges(&self, from: &str, ctx: &GraphContext) -> (r: Result<String>)
        ensures
            next_node(self@.edges, from@, ctx@, name_outcome(r)),
    {
        let mut any = false;
        let mut e: usize = 0;
        while e < self.edges.len()
            invariant
                e <= self.edges@.len(),
                any == exists|d: int| 0 <= d < e && (#[trigger] self.edges@[d]).source@ == from@,
            decreases self.edges@.len() - e,
        {
            if same(&self.edges[e].source, from) {
                assert(self.edges@[e as int].source@ == from@);
                any = true;
            }
            e += 1;
        }
        assert(any == has_edge(self@.edges, from@));
        if !any {
            return Err(DaimonError::Orchestration(cat3("no edges from node '", from, "'")));
        }
        assert(self@.edges.skip(0) =~= self@.edges);
        self.follow_from(from, ctx, 0)
    }

    fn work_from(
        &self,
        branches: &Vec<String>,
        i: usize,
        base: &GraphContext,
        merged: GraphContext,
    ) -> (r: Result<GraphContext>)
        requires
            i <= branches@.len(),
            forall|j: int|
                0 <= j < branches@.len() ==> self@.nodes.contains_key((#[trigger] branches@[j])@),
        ensures
            branches_work(
                self@.nodes,
                texts(branches@).skip(i as int),
                base@,
                merged@,
                graph_outcome(r),
            ),
        decreases branches@.len() - i,
    {
        let ghost rest = texts(branches@).skip(i as int);
        if i >= branches.len() {
            return Ok(merged);
        }
        assert(rest.skip(1) =~= texts(branches@).skip(i + 1));
        assert(rest[0] == branches@[i as int]@);
        let mut branch = base.duplicate();
        match self.nodes.get(&branches[i]) {
            Some(task) => {
                let r = task.node.process_erased(&mut branch);
                assert(self@.nodes[rest[0]].node.step(base@, branch@, next_outcome(r)));
                match r {
                    Ok(_) => {
                        let mut out = merged;
                        merge_entries(&mut out.state, &base.state, &branch.state);
                        self.work_from(branches, i + 1, base, out)
                    },
                    Err(e) => Err(e),
                }
            },
            None => Ok(merged),
        }
    }

    fn execute_fan_out(&self, ctx: GraphContext, branches: &Vec<String>) -> (r: Result<
        GraphContext,
    >)
        ensures
            fans_out(self@.nodes, texts(branches@), ctx@, graph_outcome(r)),
    {
        let ghost all = texts(branches@);
        let mut i: usize = 0;
        assert(all.skip(0) =~= all);
        while i < branches.len()
            invariant
                i <= branches@.len(),
                all == texts(branches@),
                missing_branch(self@.nodes, all.skip(i as int)) == missing_branch(self@.nodes, all),
                forall|j: int|
                    0 <= j < i ==> self@.nodes.contains_key((#[trigger] branches@[j])@),
            decreases branches@.len() - i,
        {
            assert(all.skip(i as int).skip(1) =~= all.skip(i + 1));
            assert(all.skip(i as int)[0] == branches@[i as int]@);
            if !self.nodes.contains(&branches[i]) {
                return Err(
                    DaimonError::Orchestration(
                        cat3("fan-out node '", &branches[i], "' not found"),
                    ),
                );
            }
            i += 1;
        }
        let base = ctx.duplicate();
        self.work_from(branches, 0, &base, ctx)
    }

    fn exceeded(&self) -> (r: DaimonError)
        ensures
            r@ == too_long(self@),
    {
        DaimonError::Orchestration(
            cat3(
                "graph exceeded max steps (",
                &decimal_text(self.max_steps as u64),
                ") — possible infinite loop",
            ),
        )
    }

    fn walk(&self, current: String, ctx: GraphContext, left: usize) -> (r: Result<GraphContext>)
        ensures
            walks(self@, current@, ctx@, left as nat, graph_outcome(r)),
        decreases left, 1nat,
    {
        if left == 0 {
            return Err(self.exceeded());
        }
        match self.nodes.get(&current) {
            None => Err(DaimonError::Orchestration(cat3("node '", &current, "' not found"))),
            Some(task) => {
                let mut now = ctx;
                let ghost before = now@;
                let r = task.node.process_erased(&mut now);
                let ghost answer = next_outcome(r);
                assert(self@.nodes[current@].node.step(before, now@, answer));
                self.move_on(current, now, r, left)
            },
        }
    }

    fn move_on(
        &self,
        current: String,
        ctx: GraphContext,
        answer: Result<NodeOutcome>,
        left: usize,
    ) -> (r: Result<GraphContext>)
        requires
            left > 0,
        ensures
            moves(self@, current@, ctx@, next_outcome(answer), left as nat, graph_outcome(r)),
        decreases left, 0nat,
    {
        match answer {
            Err(e) => Err(e),
            Ok(NodeOutcome::Done) => Ok(ctx),
            Ok(NodeOutcome::Route(target)) => self.walk(target, ctx, left - 1),
            Ok(NodeOutcome::FanOut { branches, merge }) => {
                let ghost state = ctx@;
                if branches.len() >= left {
                    return Err(self.exceeded());
                }
                let fanned = self.execute_fan_out(ctx, &branches);
                match fanned {
                    Ok(c) => {
                        assert(fans_out(self@.nodes, texts(branches@), state, Ok(c@)));
                        let r = self.walk(merge, c, left - 1 - branches.len());
                        assert(fan_moves(
                            self@,
                            texts(branches@),
                            merge@,
                            state,
                            left as nat,
                            graph_outcome(r),
                        ));
                        r
                    },
                    Err(e) => {
                        assert(fans_out(self@.nodes, texts(branches@), state, Err(e@)));
                        Err(e)
                    },
                }
            },
            Ok(NodeOutcome::Continue) => {
                let next = self.follow_edges(&current, &ctx);
                let ghost to = name_outcome(next);
                assert(next_node(self@.edges, current@, ctx@, to));
                match next {
                    Ok(target) => {
                        assert(to == Ok::<Seq<char>, ErrorView>(target@));
                        self.walk(target, ctx, left - 1)
                    },
                    Err(e) => {
                        assert(to == Err::<Seq<char>, ErrorView>(e@));
                        Err(e)
                    },
                }
            },
        }
    }

    /// Walks the graph from its entry.
    pub fn run(&self, ctx: GraphContext) -> (r: Result<GraphContext>)
        ensures
            walks(self@, self@.entry->0, ctx@, self@.max_steps as nat, graph_outcome(r)),
    {
        self.walk(self.entry.clone(), ctx, self.max_steps)
    }
}

/// An edge without a condition is taken if no edge of the same node stands before
/// it, whatever the state.
pub proof fn first_unconditional_edge_wins(
    edges: Seq<Edge>,
    e: int,
    state: State,
    out: Outcome<Seq<char>>,
)
    requires
        0 <= e < edges.len(),
        edges[e].condition is None,
        forall|j: int| 0 <= j < e ==> (#[trigger] edges[j]).source@ != edges[e].source@,
        next_node(edges, edges[e].source@, state, out),
    ensures
        out == Ok::<Seq<char>, ErrorView>(edges[e].target@),
{
    assert(has_edge(edges, edges[e].source@)) by {
        assert(edges[e].source@ == edges[e].source@);
    }
    lemma_first_edge(edges, e, state, out);
}

proof fn lemma_first_edge(edges: Seq<Edge>, e: int, state: State, out: Outcome<Seq<char>>)
    requires
        0 <= e < edges.len(),
        edges[e].condition is None,
        forall|j: int| 0 <= j < e ==> (#[trigger] edges[j]).source@ != edges[e].source@,
        follows(edges, edges[e].source@, state, out),
    ensures
        out == Ok::<Seq<char>, ErrorView>(edges[e].target@),
    decreases e,
{
    if e > 0 {
        let rest = edges.skip(1);
        assert(edges[0].source@ != edges[e].source@);
        assert(rest[e - 1] == edges[e]);
        assert forall|j: int| 0 <= j < e - 1 implies (#[trigger] rest[j]).source@
            != rest[e - 1].source@ by {
            assert(rest[j] == edges[j + 1]);
        }
        lemma_first_edge(rest, e - 1, state, out);
    }
}

/// Where the walk goes along edges is always the target of a declared edge of
/// the node.
pub proof fn walks_follow_declared_edges(
    edges: Seq<Edge>,
    from: Seq<char>,
    state: State,
    target: Seq<char>,
)
    requires
        follows(edges, from, state, Ok(target)),
    ensures
        exists|e: int|
            0 <= e < edges.len() && (#[trigger] edges[e]).source@ == from && edges[e].target@
                == target,
    decreases edges.len(),
{
    if edges.len() > 0 {
        if edges[0].source@ == from && edges[0].target@ == target {
        } else {
            walks_follow_declared_edges(edges.skip(1), from, state, target);
            let e = choose|e: int|
                0 <= e < edges.skip(1).len() && (#[trigger] edges.skip(1)[e]).source@ == from
                    && edges.skip(1)[e].target@ == target;
            assert(edges[e + 1].source@ == from);
        }
    }
}

/// A walk that has no step left fails, and says how many it had.
pub proof fn exhausted_walks_fail(g: Draft, current: Seq<char>, state: State, out: Outcome<State>)
    requires
        walks(g, current, state, 0, out),
    ensures
        out == Err::<State, ErrorView>(too_long(g)),
{
}

/// Whether a node may go from a state to another and answer without an error.
pub open spec fn works_to(task: GraphTask, base: State, after: State) -> bool {
    exists|r: Outcome<NextView>| #[trigger] task.node.step(base, after, r) && r is Ok
}

/// Whether no branch from the one at a position on wrote an entry.
pub open spec fn untouched(base: State, afters: Seq<State>, from: int, key: Seq<char>) -> bool {
    forall|j: int|
        from <= j < afters.len() ==> !written(base, #[trigger] afters[j]).contains_key(key)
}

/// Whether `merged` holds, entry by entry, what the last branch that wrote the
/// entry left there, and what `before` holds where none did.
pub open spec fn merges(base: State, before: State, afters: Seq<State>, merged: State) -> bool {
    &&& forall|key: Seq<char>|
        #![trigger merged.contains_key(key)]
        #![trigger before.contains_key(key)]
        untouched(base, afters, 0, key) ==> merged.contains_key(key) == before.contains_key(key)
            && (before.contains_key(key) ==> merged[key] == before[key])
    &&& forall|i: int, key: Seq<char>|
        0 <= i < afters.len() && #[trigger] written(base, afters[i]).contains_key(key)
            && untouched(base, afters, i + 1, key) ==> merged.contains_key(key) && merged[key]
            == afters[i][key]
}

proof fn lemma_untouched_behind(
    base: State,
    after: State,
    rest: Seq<State>,
    from: int,
    key: Seq<char>,
)
    requires
        from >= 0,
    ensures
        untouched(base, seq![after] + rest, from + 1, key) ==> untouched(base, rest, from, key),
        untouched(base, seq![after] + rest, 0, key) ==> untouched(base, rest, 0, key),
{
    let afters = seq![after] + rest;
    assert forall|j: int| 0 <= j < rest.len() implies #[trigger] rest[j] == afters[j + 1] by {}
}

/// When a fan-out ends well, every branch has worked on a copy of the state, and
/// each entry is what the last branch that changed it left: what one branch wrote
/// is kept if no later one changed it, and an entry that none changed stays.
pub proof fn branches_keep_each_others_writes(
    nodes: Map<Seq<char>, GraphTask>,
    branches: Seq<Seq<char>>,
    base: State,
    before: State,
    merged: State,
) -> (afters: Seq<State>)
    requires
        branches_work(nodes, branches, base, before, Ok(merged)),
    ensures
        afters.len() == branches.len(),
        forall|i: int|
            0 <= i < branches.len() ==> works_to(
                #[trigger] nodes[branches[i]],
                base,
                afters[i],
            ),
        merges(base, before, afters, merged),
    decreases branches.len(),
{
    if branches.len() == 0 {
        Seq::empty()
    } else {
        let (after, r) = choose|after: State, r: Outcome<NextView>|
            {
                &&& #[trigger] nodes[branches[0]].node.step(base, after, r)
                &&& match r {
                    Ok(_) => branches_work(
                        nodes,
                        branches.skip(1),
                        base,
                        before.union_prefer_right(written(base, after)),
                        Ok(merged),
                    ),
                    Err(e) => Ok::<State, ErrorView>(merged) == Err::<State, ErrorView>(e),
                }
            };
        let mid = before.union_prefer_right(written(base, after));
        let rest = branches_keep_each_others_writes(nodes, branches.skip(1), base, mid, merged);
        let afters = seq![after] + rest;
        assert(works_to(nodes[branches[0]], base, after));
        assert forall|i: int| 0 <= i < branches.len() implies works_to(
            #[trigger] nodes[branches[i]],
            base,
            afters[i],
        ) by {
            if i > 0 {
                assert(branches.skip(1)[i - 1] == branches[i]);
                assert(works_to(nodes[branches.skip(1)[i - 1]], base, rest[i - 1]));
            }
        }
        assert(forall|j: int| 0 <= j < rest.len() ==> rest[j] == #[trigger] afters[j + 1]);
        assert(afters[0] == after);
        assert forall|key: Seq<char>|
            #![trigger merged.contains_key(key)]
            #![trigger before.contains_key(key)]
            untouched(base, afters, 0, key) implies merged.contains_key(key)
            == before.contains_key(key) && (before.contains_key(key) ==> merged[key]
            == before[key]) by {
            lemma_untouched_behind(base, after, rest, 0, key);
            assert(mid.contains_key(key) == before.contains_key(key));
        }
        assert forall|i: int, key: Seq<char>|
            0 <= i < afters.len() && #[trigger] written(base, afters[i]).contains_key(key)
                && untouched(base, afters, i + 1, key) implies merged.contains_key(key)
            && merged[key] == afters[i][key] by {
            lemma_untouched_behind(base, after, rest, i, key);
            if i == 0 {
                assert(mid.contains_key(key));
            } else {
                assert(written(base, rest[i - 1]).contains_key(key));
            }
        }
        afters
    }
}

/// A fan-out counts every branch: one that is wider than the nodes that may still
/// run fails, and one that leaves no step for the merge node does so too.
pub proof fn fan_outs_count_every_branch(
    g: Draft,
    current: Seq<char>,
    state: State,
    branches: Seq<Seq<char>>,
    merge: Seq<char>,
    left: nat,
    out: Outcome<State>,
)
    requires
        moves(g, current, state, Ok(NextView::FanOut { branches, merge }), left, out),
        branches.len() + 2 > left,
    ensures
        out is Err,
        branches.len() + 1 > left ==> out == Err::<State, ErrorView>(too_long(g)),
{
    assert(fan_moves(g, branches, merge, state, left, out));
    if branches.len() + 1 == left {
        let mid = choose|mid: Outcome<State>|
            {
                &&& #[trigger] fans_out(g.nodes, branches, state, mid)
                &&& match mid {
                    Ok(s) => walks(g, merge, s, (left - 1 - branches.len()) as nat, out),
                    Err(e) => out == Err::<State, ErrorView>(e),
                }
            };
        if let Ok(s) = mid {
            assert(walks(g, merge, s, 0, out));
        }
    }
}

/// A graph is refused exactly if it has no entry or its entry is not one of its nodes.
pub proof fn only_graphs_with_an_entry_are_built(d: Draft)
    ensures
        draft_error(d) is None <==> d.entry is Some && d.nodes.contains_key(d.entry->0),
{
}

} // verus!
