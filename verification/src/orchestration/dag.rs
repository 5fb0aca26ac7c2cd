//! Directed acyclic graphs of named nodes.
//!
//! Nodes run level by level: a node runs once everything that it depends on has
//! run or been skipped, and only if an edge that leads to it was activated.
//! Branch rules decide which edges are.

use crate::agent::{may_answer, Agent, AgentResponse};
use crate::error::{outcome, DaimonError, ErrorView, Outcome, Result};
use crate::json::{lemma_key_listed, names_distinct, pairs_map};
use crate::json::{Json, JsonMap, JsonView};
use crate::map::NameMap;
use crate::orchestration::plan::{edge_texts, plan, plan_error, NamedEdge, Plan};
use crate::orchestration::toposort::{in_range, level_views};
use crate::text::{cat3, owned, same, texts};
use vstd::prelude::*;

verus! {

/// The name of the entry point. Edges from it say which nodes run first.
pub const START: &'static str = "__start__";

/// The name of the exit point. Edges into it say which nodes end the run.
pub const END: &'static str = "__end__";

/// The state that flows through a graph, as contracts speak of it.
pub type State = Map<Seq<char>, JsonView>;

/// Key-value state that flows through a graph.
///
/// Nodes that run at the same time each work on a copy; what each has written
/// is merged once all of them are done.
#[derive(Debug, PartialEq)]
pub struct DagContext {
    pub state: JsonMap,
}

impl Clone for DagContext {
    fn clone(&self) -> (r: Self)
        ensures
            r@ == self@,
    {
        self.duplicate()
    }
}

impl View for DagContext {
    type V = State;

    open spec fn view(&self) -> State {
        self.state@
    }
}

/// The text of an entry, empty if there is none.
pub open spec fn text_of(state: State, key: Seq<char>) -> Seq<char> {
    match JsonView::Object(state).field(key) {
        Some(JsonView::Str(s)) => s,
        _ => Seq::empty(),
    }
}

impl DagContext {
    /// An empty context.
    pub fn new() -> (r: Self)
        ensures
            r@ == Map::<Seq<char>, JsonView>::empty(),
    {
        DagContext { state: JsonMap::new() }
    }

    /// Sets an entry.
    pub fn set(&mut self, key: &str, value: Json)
        ensures
            final(self)@ == old(self)@.insert(key@, value@),
    {
        self.state.insert(owned(key), value);
    }

    /// An entry.
    pub fn get(&self, key: &str) -> (r: Option<&Json>)
        ensures
            match r {
                Some(v) => self@.contains_key(key@) && v@ == self@[key@],
                None => !self@.contains_key(key@),
            },
    {
        self.state.get(key)
    }

    /// An entry that is a string.
    pub fn get_str(&self, key: &str) -> (r: Option<&str>)
        ensures
            match r {
                Some(s) => self@.contains_key(key@) && self@[key@] == JsonView::Str(s@),
                None => !(self@.contains_key(key@) && self@[key@] is Str),
            },
    {
        match self.state.get(key) {
            Some(v) => v.as_str(),
            None => None,
        }
    }

    /// Sets the entry `input`.
    pub fn with_input(self, input: &str) -> (r: Self)
        ensures
            r@ == self@.insert("input"@, JsonView::Str(input@)),
    {
        let mut out = self;
        out.set("input", Json::text(input));
        out
    }

    /// A copy.
    pub fn duplicate(&self) -> (r: Self)
        ensures
            r@ == self@,
    {
        DagContext { state: self.state.duplicate() }
    }
}

// ---------------------------------------------------------------------
// Nodes and rules
// ---------------------------------------------------------------------

/// A node of a graph. It reads and writes the context and has no say in what
/// runs next.
pub trait DagNode {
    /// What `process` may do. A node that says nothing here may do anything.
    open spec fn may(&self, before: State, after: State, r: Outcome<()>) -> bool {
        true
    }

    /// Works on the context.
    fn process(&self, ctx: &mut DagContext) -> (r: Result<()>)
        ensures
            self.may(old(ctx)@, final(ctx)@, outcome(r)),
    ;
}

/// What a rule selects, as contracts speak of it.
pub open spec fn selection(r: Result<Vec<String>>) -> Outcome<Seq<Seq<char>>> {
    match r {
        Ok(v) => Ok(texts(v@)),
        Err(e) => Err(e@),
    }
}

/// What a rule that picks one successor selects.
pub open spec fn one_of(r: Result<String>) -> Outcome<Seq<Seq<char>>> {
    match r {
        Ok(name) => Ok(seq![name@]),
        Err(e) => Err(e@),
    }
}

/// Whether a function that picks one successor may select these.
pub open spec fn may_pick<F: Fn(&DagContext) -> Result<String>>(
    pick: F,
    state: State,
    r: Outcome<Seq<Seq<char>>>,
) -> bool {
    exists|ctx: &DagContext, o: Result<String>|
        ctx@ == state && one_of(o) == r && #[trigger] call_ensures(pick, (ctx,), o)
}

/// Whether a function that picks some successors may select these.
pub open spec fn may_choose<F: Fn(&DagContext) -> Result<Vec<String>>>(
    pick: F,
    state: State,
    r: Outcome<Seq<Seq<char>>>,
) -> bool {
    exists|ctx: &DagContext, o: Result<Vec<String>>|
        ctx@ == state && selection(o) == r && #[trigger] call_ensures(pick, (ctx,), o)
}

/// Decides, once a node is done, which of its successors are activated.
pub trait DagBranch {
    /// What `select` may answer.
    spec fn answers(&self, state: State, r: Outcome<Seq<Seq<char>>>) -> bool;

    /// The names of the successors to activate. The others are skipped.
    fn select(&self, ctx: &DagContext) -> (r: Result<Vec<String>>)
        ensures
            self.answers(ctx@, selection(r)),
    ;
}

struct OneOf<F: Fn(&DagContext) -> Result<String>> {
    pick: F,
}

impl<F: Fn(&DagContext) -> Result<String>> OneOf<F> {
    #[verifier::type_invariant]
    spec fn takes_anything(self) -> bool {
        forall|ctx: &DagContext| #[trigger] call_requires(self.pick, (ctx,))
    }
}

impl<F: Fn(&DagContext) -> Result<String>> DagBranch for OneOf<F> {
    closed spec fn answers(&self, state: State, r: Outcome<Seq<Seq<char>>>) -> bool {
        may_pick(self.pick, state, r)
    }

    fn select(&self, ctx: &DagContext) -> (r: Result<Vec<String>>) {
        proof {
            use_type_invariant(self);
        }
        let picked = (self.pick)(ctx);
        assert(call_ensures(self.pick, (ctx,), picked));
        match picked {
            Ok(name) => {
                let mut names: Vec<String> = Vec::new();
                let ghost only = name@;
                names.push(name);
                assert(texts(names@) =~= seq![only]);
                Ok(names)
            },
            Err(e) => Err(e),
        }
    }
}

struct AnyOf<F: Fn(&DagContext) -> Result<Vec<String>>> {
    pick: F,
}

impl<F: Fn(&DagContext) -> Result<Vec<String>>> AnyOf<F> {
    #[verifier::type_invariant]
    spec fn takes_anything(self) -> bool {
        forall|ctx: &DagContext| #[trigger] call_requires(self.pick, (ctx,))
    }
}

impl<F: Fn(&DagContext) -> Result<Vec<String>>> DagBranch for AnyOf<F> {
    closed spec fn answers(&self, state: State, r: Outcome<Seq<Seq<char>>>) -> bool {
        may_choose(self.pick, state, r)
    }

    fn select(&self, ctx: &DagContext) -> (r: Result<Vec<String>>) {
        proof {
            use_type_invariant(self);
        }
        let picked = (self.pick)(ctx);
        assert(call_ensures(self.pick, (ctx,), picked));
        picked
    }
}

/// A node that is a function of the context.
pub struct FnDagNode<F: Fn(DagContext) -> Result<DagContext>> {
    func: F,
}

impl<F: Fn(DagContext) -> Result<DagContext>> FnDagNode<F> {
    #[verifier::type_invariant]
    spec fn takes_anything(self) -> bool {
        forall|ctx: DagContext| #[trigger] call_requires(self.func, (ctx,))
    }

    /// The function.
    pub closed spec fn func_held(&self) -> F {
        self.func
    }

    /// A node that is a function of the context.
    pub fn new(func: F) -> (r: Self)
        requires
            forall|ctx: DagContext| #[trigger] call_requires(func, (ctx,)),
        ensures
            r.func_held() == func,
    {
        FnDagNode { func }
    }
}

impl<F: Fn(DagContext) -> Result<DagContext>> DagNode for FnDagNode<F> {
    open spec fn may(&self, before: State, after: State, r: Outcome<()>) -> bool {
        exists|ctx: DagContext, o: Result<DagContext>|
            {
                &&& ctx@ == before
                &&& #[trigger] call_ensures(self.func_held(), (ctx,), o)
                &&& match o {
                    Ok(new) => after == new@ && r == Ok::<(), ErrorView>(()),
                    Err(e) => after == before && r == Err::<(), ErrorView>(e@),
                }
            }
    }

    fn process(&self, ctx: &mut DagContext) -> (r: Result<()>) {
        proof {
            use_type_invariant(self);
        }
        let given = ctx.duplicate();
        let ghost before = given;
        let made = (self.func)(given);
        assert(call_ensures(self.func_held(), (before,), made));
        match made {
            Ok(new) => {
                *ctx = new;
                Ok(())
            },
            Err(e) => Err(e),
        }
    }
}

/// A node that hands a text to an agent and keeps the answer.
pub struct AgentDagNode<A> {
    agent: A,
    input_key: String,
    output_key: String,
}

impl<A> AgentDagNode<A> {
    /// The agent.
    pub closed spec fn agent_held(&self) -> A {
        self.agent
    }

    /// The entry that is read and the entry that is written.
    pub closed spec fn keys(&self) -> (Seq<char>, Seq<char>) {
        (self.input_key@, self.output_key@)
    }

    /// Reads the prompt from one entry and writes the answer to another.
    pub fn new(agent: A, input_key: &str, output_key: &str) -> (r: Self)
        ensures
            r.agent_held() == agent,
            r.keys() == (input_key@, output_key@),
    {
        AgentDagNode { agent, input_key: owned(input_key), output_key: owned(output_key) }
    }
}

impl<A: Agent> DagNode for AgentDagNode<A> {
    open spec fn may(&self, before: State, after: State, r: Outcome<()>) -> bool {
        exists|answer: Result<AgentResponse>|
            {
                &&& #[trigger] may_answer(
                    self.agent_held(),
                    text_of(before, self.keys().0),
                    answer,
                )
                &&& match answer {
                    Ok(a) => r is Ok && after == before.insert(
                        self.keys().1,
                        JsonView::Str(a.final_text@),
                    ),
                    Err(e) => r == Err::<(), ErrorView>(e@) && after == before,
                }
            }
    }

    fn process(&self, ctx: &mut DagContext) -> (r: Result<()>) {
        let input = match ctx.get_str(&self.input_key) {
            Some(s) => owned(s),
            None => String::new(),
        };
        assert(input@ =~= text_of(ctx@, self.input_key@));
        let answer = self.agent.prompt(&input);
        assert(may_answer(self.agent_held(), text_of(ctx@, self.keys().0), answer));
        match answer {
            Ok(a) => {
                ctx.set(&self.output_key, Json::Str(a.final_text));
                Ok(())
            },
            Err(e) => Err(e),
        }
    }
}

/// A [`DagNode`] that can stand in a graph beside others of other types.
pub trait ErasedDagNode {
    /// What `process_erased` may do.
    spec fn step(&self, before: State, after: State, r: Outcome<()>) -> bool;

    /// Works on the context.
    fn process_erased(&self, ctx: &mut DagContext) -> (r: Result<()>)
        ensures
            self.step(old(ctx)@, final(ctx)@, outcome(r)),
    ;
}

impl<N: DagNode> ErasedDagNode for N {
    open spec fn step(&self, before: State, after: State, r: Outcome<()>) -> bool {
        self.may(before, after, r)
    }

    fn process_erased(&self, ctx: &mut DagContext) -> (r: Result<()>) {
        self.process(ctx)
    }
}

/// A node in its place in a graph.
pub struct DagTask {
    pub node: Box<dyn ErasedDagNode>,
}

/// A branch rule in its place in a graph.
pub struct DagRule {
    pub branch: Box<dyn DagBranch>,
}

fn boxed_node<N: DagNode + 'static>(node: N) -> (r: DagTask)
    ensures
        forall|before: State, after: State, o: Outcome<()>| #[trigger]
            r.node.step(before, after, o) == node.may(before, after, o),
{
    DagTask { node: Box::new(node) }
}

fn one_rule<F: Fn(&DagContext) -> Result<String> + 'static>(pick: F) -> (r: DagRule)
    requires
        forall|ctx: &DagContext| #[trigger] call_requires(pick, (ctx,)),
    ensures
        forall|state: State, o: Outcome<Seq<Seq<char>>>| #[trigger]
            r.branch.answers(state, o) == may_pick(pick, state, o),
{
    DagRule { branch: Box::new(OneOf { pick }) }
}

fn any_rule<F: Fn(&DagContext) -> Result<Vec<String>> + 'static>(pick: F) -> (r: DagRule)
    requires
        forall|ctx: &DagContext| #[trigger] call_requires(pick, (ctx,)),
    ensures
        forall|state: State, o: Outcome<Seq<Seq<char>>>| #[trigger]
            r.branch.answers(state, o) == may_choose(pick, state, o),
{
    DagRule { branch: Box::new(AnyOf { pick }) }
}

// ---------------------------------------------------------------------
// Building
// ---------------------------------------------------------------------

/// Puts a graph together.
pub struct DagBuilder {
    nodes: NameMap<DagTask>,
    edges: Vec<(String, String)>,
    branches: NameMap<DagRule>,
}

impl DagBuilder {
    /// The nodes by name.
    pub closed spec fn tasks(&self) -> Map<Seq<char>, DagTask> {
        self.nodes@
    }

    /// The edges in the order in which they were declared.
    pub closed spec fn links(&self) -> Seq<NamedEdge> {
        edge_texts(self.edges@)
    }

    /// The branch rules by the node that they stand behind.
    pub closed spec fn rules(&self) -> Map<Seq<char>, DagRule> {
        self.branches@
    }

    fn new() -> (r: Self)
        ensures
            r.tasks() == Map::<Seq<char>, DagTask>::empty(),
            r.links() == Seq::<NamedEdge>::empty(),
            r.rules() == Map::<Seq<char>, DagRule>::empty(),
    {
        let r = DagBuilder { nodes: NameMap::new(), edges: Vec::new(), branches: NameMap::new() };
        assert(r.links() =~= Seq::<NamedEdge>::empty());
        r
    }

    /// Adds a node, in place of one of the same name.
    pub fn node<N: DagNode + 'static>(self, name: &str, node: N) -> (r: Self)
        ensures
            r.tasks().dom() == self.tasks().dom().insert(name@),
            r.tasks().remove(name@) == self.tasks().remove(name@),
            forall|before: State, after: State, o: Outcome<()>| #[trigger]
                r.tasks()[name@].node.step(before, after, o) == node.may(before, after, o),
            r.links() == self.links(),
            r.rules() == self.rules(),
    {
        let mut nodes = self.nodes;
        let ghost before = nodes@;
        nodes.insert(owned(name), boxed_node(node));
        assert(nodes@.dom() =~= before.dom().insert(name@));
        assert(nodes@.remove(name@) =~= before.remove(name@));
        DagBuilder { nodes, ..self }
    }

    /// Adds an edge.
    pub fn edge(self, from: &str, to: &str) -> (r: Self)
        ensures
            r.links() == self.links().push((from@, to@)),
            r.tasks() == self.tasks(),
            r.rules() == self.rules(),
    {
        let mut edges = self.edges;
        let ghost before = edges@;
        edges.push((owned(from), owned(to)));
        assert(edge_texts(edges@) =~= edge_texts(before).push((from@, to@)));
        DagBuilder { edges, ..self }
    }

    /// Puts a rule behind a node that activates one of its successors.
    pub fn branch<F: Fn(&DagContext) -> Result<String> + 'static>(
        self,
        from: &str,
        condition: F,
    ) -> (r: Self)
        requires
            forall|ctx: &DagContext| #[trigger] call_requires(condition, (ctx,)),
        ensures
            r.rules().dom() == self.rules().dom().insert(from@),
            r.rules().remove(from@) == self.rules().remove(from@),
            forall|state: State, o: Outcome<Seq<Seq<char>>>| #[trigger]
                r.rules()[from@].branch.answers(state, o) == may_pick(condition, state, o),
            r.tasks() == self.tasks(),
            r.links() == self.links(),
    {
        let mut branches = self.branches;
        let ghost before = branches@;
        branches.insert(owned(from), one_rule(condition));
        assert(branches@.dom() =~= before.dom().insert(from@));
        assert(branches@.remove(from@) =~= before.remove(from@));
        DagBuilder { branches, ..self }
    }

    /// Puts a rule behind a node that activates some of its successors.
    pub fn multi_branch<F: Fn(&DagContext) -> Result<Vec<String>> + 'static>(
        self,
        from: &str,
        condition: F,
    ) -> (r: Self)
        requires
            forall|ctx: &DagContext| #[trigger] call_requires(condition, (ctx,)),
        ensures
            r.rules().dom() == self.rules().dom().insert(from@),
            r.rules().remove(from@) == self.rules().remove(from@),
            forall|state: State, o: Outcome<Seq<Seq<char>>>| #[trigger]
                r.rules()[from@].branch.answers(state, o) == may_choose(condition, state, o),
            r.tasks() == self.tasks(),
            r.links() == self.links(),
    {
        let mut branches = self.branches;
        let ghost before = branches@;
        branches.insert(owned(from), any_rule(condition));
        assert(branches@.dom() =~= before.dom().insert(from@));
        assert(branches@.remove(from@) =~= before.remove(from@));
        DagBuilder { branches, ..self }
    }

    /// Checks the graph and orders it.
    pub fn build(self) -> (r: Result<Dag>)
        ensures
            match r {
                Ok(dag) => {
                    &&& dag_error(self.tasks().dom(), self.links()) is None
                    &&& dag.tasks() == self.tasks()
                    &&& dag.rules() == self.rules()
                    &&& dag.plan().wf(START@, END@)
                    &&& dag.plan().named_edges() == self.links()
                    &&& dag.plan().name_texts().to_set() == self.tasks().dom().insert(
                        START@,
                    ).insert(END@)
                },
                Err(e) => dag_error(self.tasks().dom(), self.links()) is Some && e@
                    == ErrorView::Orchestration(dag_error(self.tasks().dom(), self.links())->0),
            },
    {
        let names = self.nodes.names();
        proof {
            lemma_sentinels();
        }
        let planned = plan(
            &names,
            &self.edges,
            START,
            END,
            "DAG must have at least one edge",
            "cycle detected in DAG — use Graph for cyclic orchestration",
        );
        match planned {
            Ok(p) => {
                proof {
                    assert forall|k: int| 2 <= k < p.names@.len() implies self.nodes@.contains_key(
                        (#[trigger] p.names@[k])@,
                    ) by {
                        let all = p.name_texts();
                        assert(all[k] == p.names@[k]@);
                        assert(all.contains(all[k]));
                        assert(texts(names@).to_set().contains(all[k]));
                        assert(all[0] != all[k]);
                        assert(all[1] != all[k]);
                    }
                }
                assert(p.name_texts().to_set() =~= self.nodes@.dom().insert(START@).insert(END@));
                Ok(Dag { nodes: self.nodes, plan: p, branches: self.branches })
            },
            Err(e) => Err(e),
        }
    }
}

/// What is wrong with nodes and edges as a graph, if anything.
pub open spec fn dag_error(nodes: Set<Seq<char>>, edges: Seq<NamedEdge>) -> Option<Seq<char>> {
    plan_error(
        nodes,
        edges,
        START@,
        END@,
        "DAG must have at least one edge"@,
        "cycle detected in DAG — use Graph for cyclic orchestration"@,
    )
}

proof fn lemma_sentinels()
    ensures
        START@ != END@,
{
    reveal_strlit("__start__");
    reveal_strlit("__end__");
    assert(START@.len() != END@.len());
}

/// A checked and ordered graph.
pub struct Dag {
    nodes: NameMap<DagTask>,
    plan: Plan,
    branches: NameMap<DagRule>,
}

impl Dag {
    #[verifier::type_invariant]
    spec fn inv(self) -> bool {
        &&& self.plan.wf(START@, END@)
        &&& forall|k: int|
            2 <= k < self.plan.names@.len() ==> self.nodes@.contains_key(
                (#[trigger] self.plan.names@[k])@,
            )
    }

    /// The nodes by name.
    pub closed spec fn tasks(&self) -> Map<Seq<char>, DagTask> {
        self.nodes@
    }

    /// The branch rules by the node that they stand behind.
    pub closed spec fn rules(&self) -> Map<Seq<char>, DagRule> {
        self.branches@
    }

    /// The names, edges and levels.
    pub closed spec fn plan(&self) -> Plan {
        self.plan
    }

    /// A builder.
    pub fn builder() -> (r: DagBuilder)
        ensures
            r.tasks() == Map::<Seq<char>, DagTask>::empty(),
            r.links() == Seq::<NamedEdge>::empty(),
            r.rules() == Map::<Seq<char>, DagRule>::empty(),
    {
        DagBuilder::new()
    }
}

// ---------------------------------------------------------------------
// Running
// ---------------------------------------------------------------------

/// Whether an activated edge leads to a node.
pub open spec fn has_active(edges: Seq<(usize, usize)>, active: Seq<bool>, v: int) -> bool {
    exists|e: int| 0 <= e < edges.len() && (#[trigger] edges[e]).1 == v && active[e]
}

/// The nodes of a level, other than the sentinels, to which an activated edge
/// leads.
pub open spec fn runnable(
    edges: Seq<(usize, usize)>,
    level: Seq<usize>,
    active: Seq<bool>,
) -> Seq<usize>
    decreases level.len(),
{
    if level.len() == 0 {
        Seq::empty()
    } else {
        let before = runnable(edges, level.drop_last(), active);
        if level.last() >= 2 && has_active(edges, active, level.last() as int) {
            before.push(level.last())
        } else {
            before
        }
    }
}

/// The activated edges once a node is done: those that were, and those from the
/// node to the successors that were picked, or to all of them.
pub open spec fn activated(
    names: Seq<Seq<char>>,
    edges: Seq<(usize, usize)>,
    active: Seq<bool>,
    node: int,
    picked: Option<Seq<Seq<char>>>,
) -> Seq<bool> {
    Seq::new(
        edges.len(),
        |e: int|
            active[e] || (edges[e].0 == node && (match picked {
                Some(p) => p.contains(names[edges[e].1 as int]),
                None => true,
            })),
    )
}

/// The entries of `branch` that `base` does not have in this form.
pub open spec fn written(base: State, branch: State) -> State {
    Map::new(
        |k: Seq<char>|
            branch.contains_key(k) && !(base.contains_key(k) && base[k] == branch[k]),
        |k: Seq<char>| branch[k],
    )
}

/// The nodes of a level, other than the sentinels, to which an activated edge
/// leads.
pub fn runnable_nodes(plan: &Plan, level: &Vec<usize>, active: &Vec<bool>) -> (r: Vec<usize>)
    requires
        active@.len() == plan.edges@.len(),
    ensures
        r@ == runnable(plan.edges@, level@, active@),
{
    let mut r: Vec<usize> = Vec::new();
    let mut i: usize = 0;
    while i < level.len()
        invariant
            i <= level@.len(),
            active@.len() == plan.edges@.len(),
            r@ == runnable(plan.edges@, level@.take(i as int), active@),
        decreases level@.len() - i,
    {
        let v: usize = level[i];
        assert(level@.take(i + 1).drop_last() =~= level@.take(i as int));
        if v >= 2 && is_active(plan, active, v) {
            r.push(v);
        }
        i += 1;
    }
    assert(level@.take(i as int) =~= level@);
    r
}

fn is_active(plan: &Plan, active: &Vec<bool>, v: usize) -> (r: bool)
    requires
        active@.len() == plan.edges@.len(),
    ensures
        r == has_active(plan.edges@, active@, v as int),
{
    let mut e: usize = 0;
    while e < plan.edges.len()
        invariant
            e <= plan.edges@.len() == active@.len(),
            forall|d: int| 0 <= d < e ==> !((#[trigger] plan.edges@[d]).1 == v && active@[d]),
        decreases plan.edges@.len() - e,
    {
        if plan.edges[e].1 == v && active[e] {
            assert(plan.edges@[e as int].1 == v);
            return true;
        }
        e += 1;
    }
    false
}

/// Whether the run has reached the exit point.
pub fn end_reached(plan: &Plan, active: &Vec<bool>) -> (r: bool)
    requires
        active@.len() == plan.edges@.len(),
    ensures
        r == has_active(plan.edges@, active@, 1),
{
    is_active(plan, active, 1)
}

fn holds(names: &Vec<String>, name: &str) -> (r: bool)
    ensures
        r == texts(names@).contains(name@),
{
    let mut i: usize = 0;
    while i < names.len()
        invariant
            i <= names@.len(),
            forall|j: int| 0 <= j < i ==> (#[trigger] names@[j])@ != name@,
        decreases names@.len() - i,
    {
        if same(&names[i], name) {
            assert(texts(names@)[i as int] == name@);
            return true;
        }
        i += 1;
    }
    proof {
        if texts(names@).contains(name@) {
            let j = choose|j: int| 0 <= j < texts(names@).len() && texts(names@)[j] == name@;
            assert(names@[j]@ == name@);
        }
    }
    false
}

/// The names that were picked, if a rule picked.
pub open spec fn picked_texts(picked: Option<Vec<String>>) -> Option<Seq<Seq<char>>> {
    match picked {
        Some(p) => Some(texts(p@)),
        None => None,
    }
}

/// Activates the edges from a node to the successors that were picked, or to all
/// of them.
pub fn activate(plan: &Plan, node: usize, picked: &Option<Vec<String>>, active: &mut Vec<bool>)
    requires
        in_range(plan.names@.len(), plan.edges@),
        old(active)@.len() == plan.edges@.len(),
    ensures
        final(active)@ == activated(
            plan.name_texts(),
            plan.edges@,
            old(active)@,
            node as int,
            picked_texts(*picked),
        ),
{
    let ghost want = activated(
        plan.name_texts(),
        plan.edges@,
        old(active)@,
        node as int,
        picked_texts(*picked),
    );
    let mut e: usize = 0;
    while e < plan.edges.len()
        invariant
            e <= plan.edges@.len() == active@.len(),
            active@.len() == old(active)@.len(),
            in_range(plan.names@.len(), plan.edges@),
            want == activated(
                plan.name_texts(),
                plan.edges@,
                old(active)@,
                node as int,
                picked_texts(*picked),
            ),
            forall|d: int| 0 <= d < e ==> active@[d] == want[d],
            forall|d: int| e <= d < active@.len() ==> active@[d] == old(active)@[d],
        decreases plan.edges@.len() - e,
    {
        assert(plan.edges@[e as int].1 < plan.names@.len());
        if plan.edges[e].0 == node {
            let go = match picked {
                Some(p) => holds(p, &plan.names[plan.edges[e].1]),
                None => true,
            };
            if go {
                active.set(e, true);
            }
        }
        e += 1;
    }
    assert(active@ =~= want);
}

/// Merges what was written on a copy of `base` into a state.
pub fn merge_entries(state: &mut JsonMap, base: &JsonMap, branch: &JsonMap)
    ensures
        final(state)@ == old(state)@.union_prefer_right(written(base@, branch@)),
{
    let n: usize = branch.len();
    let ghost pairs = branch.pairs();
    let ghost start = state@;
    let mut i: usize = 0;
    assert(state@ =~= start.union_prefer_right(written(base@, pairs_map(pairs.take(0)))));
    while i < n
        invariant
            i <= n == pairs.len(),
            pairs == branch.pairs(),
            names_distinct(pairs),
            branch@ == pairs_map(pairs),
            state@ == start.union_prefer_right(written(base@, pairs_map(pairs.take(i as int)))),
        decreases n - i,
    {
        let name = branch.name(i);
        let value = branch.value(i);
        let unchanged = match base.get(name) {
            Some(v) => v.equals(value),
            None => false,
        };
        let ghost before = pairs_map(pairs.take(i as int));
        proof {
            assert(pairs.take(i + 1).drop_last() =~= pairs.take(i as int));
            assert forall|j: int| 0 <= j < pairs.take(i as int).len() implies (#[trigger] pairs.take(
                i as int,
            )[j]).0 != name@ by {
                assert(pairs[j].0 != pairs[i as int].0);
            }
            lemma_unlisted(pairs.take(i as int), name@);
        }
        if !unchanged {
            state.insert(name.clone(), value.duplicate());
        }
        i += 1;
        proof {
            let now = pairs_map(pairs.take(i as int));
            assert(now == before.insert(name@, value@));
            if unchanged {
                assert(written(base@, now) =~= written(base@, before));
            } else {
                assert(written(base@, now) =~= written(base@, before).insert(name@, value@));
            }
            assert(state@ =~= start.union_prefer_right(written(base@, now)));
        }
    }
    assert(pairs.take(i as int) =~= pairs);
}

/// Merges what a node has written on its copy of `base` into the context.
pub fn merge_writes(ctx: &mut DagContext, base: &DagContext, branch: &DagContext)
    ensures
        final(ctx)@ == old(ctx)@.union_prefer_right(written(base@, branch@)),
{
    merge_entries(&mut ctx.state, &base.state, &branch.state)
}

proof fn lemma_unlisted(s: Seq<(Seq<char>, JsonView)>, key: Seq<char>)
    requires
        forall|j: int| 0 <= j < s.len() ==> (#[trigger] s[j]).0 != key,
    ensures
        !pairs_map(s).contains_key(key),
{
    if pairs_map(s).contains_key(key) {
        let j = lemma_key_listed(s, key);
        assert(s[j].0 != key);
    }
}

/// Whether a node has a successor.
pub open spec fn has_successor(edges: Seq<(usize, usize)>, node: int) -> bool {
    exists|e: int| 0 <= e < edges.len() && (#[trigger] edges[e]).0 == node
}

/// Whether `out` may be the activated edges once a node is done: its rule, if it
/// has one and a successor, picks, and a rule that fails ends the run.
pub open spec fn settles(
    dag: Dag,
    node: int,
    state: State,
    active: Seq<bool>,
    out: Outcome<Seq<bool>>,
) -> bool {
    let names = dag.plan().name_texts();
    let edges = dag.plan().edges@;
    if has_successor(edges, node) && dag.rules().contains_key(names[node]) {
        exists|picked: Outcome<Seq<Seq<char>>>|
            {
                &&& #[trigger] dag.rules()[names[node]].branch.answers(state, picked)
                &&& match picked {
                    Ok(p) => out == Ok::<Seq<bool>, ErrorView>(
                        activated(names, edges, active, node, Some(p)),
                    ),
                    Err(e) => out == Err::<Seq<bool>, ErrorView>(e),
                }
            }
    } else {
        out == Ok::<Seq<bool>, ErrorView>(activated(names, edges, active, node, None))
    }
}

/// Whether `out` may be the activated edges once several nodes are done.
pub open spec fn settles_all(
    dag: Dag,
    nodes: Seq<usize>,
    state: State,
    active: Seq<bool>,
    out: Outcome<Seq<bool>>,
) -> bool
    decreases nodes.len(),
{
    if nodes.len() == 0 {
        out == Ok::<Seq<bool>, ErrorView>(active)
    } else {
        exists|mid: Outcome<Seq<bool>>|
            {
                &&& #[trigger] settles(dag, nodes[0] as int, state, active, mid)
                &&& match mid {
                    Ok(a) => settles_all(dag, nodes.skip(1), state, a, out),
                    Err(e) => out == Err::<Seq<bool>, ErrorView>(e),
                }
            }
    }
}

/// Whether `out` may come of several nodes, each working on a copy of `base`,
/// with their writes merged one after the other.
pub open spec fn works(
    dag: Dag,
    nodes: Seq<usize>,
    base: State,
    merged: State,
    out: Outcome<State>,
) -> bool
    decreases nodes.len(),
{
    if nodes.len() == 0 {
        out == Ok::<State, ErrorView>(merged)
    } else {
        let name = dag.plan().name_texts()[nodes[0] as int];
        exists|after: State, r: Outcome<()>|
            {
                &&& #[trigger] dag.tasks()[name].node.step(base, after, r)
                &&& match r {
                    Ok(_) => works(
                        dag,
                        nodes.skip(1),
                        base,
                        merged.union_prefer_right(written(base, after)),
                        out,
                    ),
                    Err(e) => out == Err::<State, ErrorView>(e),
                }
            }
    }
}

/// Whether `out` may come of the runnable nodes of a level: one works on the
/// context itself, several on copies.
pub open spec fn level_runs(
    dag: Dag,
    nodes: Seq<usize>,
    state: State,
    active: Seq<bool>,
    out: Outcome<(State, Seq<bool>)>,
) -> bool {
    exists|mid: Outcome<State>|
        {
            &&& #[trigger] level_works(dag, nodes, state, mid)
            &&& match mid {
                Ok(s) => level_ends(dag, nodes, s, active, out),
                Err(e) => out == Err::<(State, Seq<bool>), ErrorView>(e),
            }
        }
}

/// Whether `out` may be the state and the activated edges once the nodes of a
/// level have left that state.
pub open spec fn level_ends(
    dag: Dag,
    nodes: Seq<usize>,
    state: State,
    active: Seq<bool>,
    out: Outcome<(State, Seq<bool>)>,
) -> bool {
    exists|edges: Outcome<Seq<bool>>|
        {
            &&& #[trigger] settles_all(dag, nodes, state, active, edges)
            &&& match edges {
                Ok(a) => out == Ok::<(State, Seq<bool>), ErrorView>((state, a)),
                Err(e) => out == Err::<(State, Seq<bool>), ErrorView>(e),
            }
        }
}

/// Whether `out` may be the state that the runnable nodes of a level leave.
pub open spec fn level_works(
    dag: Dag,
    nodes: Seq<usize>,
    state: State,
    out: Outcome<State>,
) -> bool {
    if nodes.len() == 1 {
        let name = dag.plan().name_texts()[nodes[0] as int];
        exists|after: State, r: Outcome<()>|
            {
                &&& #[trigger] dag.tasks()[name].node.step(state, after, r)
                &&& match r {
                    Ok(_) => out == Ok::<State, ErrorView>(after),
                    Err(e) => out == Err::<State, ErrorView>(e),
                }
            }
    } else {
        works(dag, nodes, state, state, out)
    }
}

/// Whether `out` may come of running the levels from position `k` on.
pub open spec fn runs_from(
    dag: Dag,
    k: int,
    state: State,
    active: Seq<bool>,
    out: Outcome<State>,
) -> bool
    decreases dag.plan().levels@.len() - k,
{
    if k < 0 || k >= dag.plan().levels@.len() {
        if has_active(dag.plan().edges@, active, 1) {
            out == Ok::<State, ErrorView>(state)
        } else {
            out == Err::<State, ErrorView>(
                ErrorView::Orchestration(
                    "DAG execution did not reach END — all paths were skipped by branches"@,
                ),
            )
        }
    } else {
        let nodes = runnable(dag.plan().edges@, dag.plan().levels@[k]@, active);
        exists|mid: Outcome<(State, Seq<bool>)>|
            {
                &&& #[trigger] level_runs(dag, nodes, state, active, mid)
                &&& match mid {
                    Ok(sa) => runs_from(dag, k + 1, sa.0, sa.1, out),
                    Err(e) => out == Err::<State, ErrorView>(e),
                }
            }
    }
}

/// Whether running a graph on a state may come out as `out`: the edges from the
/// entry point are activated, and the levels run one after the other.
pub open spec fn runs(dag: Dag, state: State, out: Outcome<State>) -> bool {
    let none = Seq::new(dag.plan().edges@.len(), |e: int| false);
    exists|first: Outcome<Seq<bool>>|
        {
            &&& #[trigger] settles(dag, 0, state, none, first)
            &&& match first {
                Ok(a) => runs_from(dag, 0, state, a, out),
                Err(e) => out == Err::<State, ErrorView>(e),
            }
        }
}

/// A result with its context as contracts speak of it.
pub open spec fn state_outcome(r: Result<DagContext>) -> Outcome<State> {
    match r {
        Ok(c) => Ok(c@),
        Err(e) => Err(e@),
    }
}

impl Dag {
    fn activate_successors(&self, node: usize, ctx: &DagContext, active: &mut Vec<bool>) -> (r:
        Result<()>)
        requires
            node < self.plan().names@.len(),
            old(active)@.len() == self.plan().edges@.len(),
        ensures
            final(active)@.len() == old(active)@.len(),
            settles(
                *self,
                node as int,
                ctx@,
                old(active)@,
                match r {
                    Ok(_) => Ok(final(active)@),
                    Err(e) => Err(e@),
                },
            ),
    {
        proof {
            use_type_invariant(self);
        }
        let mut any = false;
        let mut e: usize = 0;
        while e < self.plan.edges.len()
            invariant
                e <= self.plan.edges@.len(),
                any == exists|d: int|
                    0 <= d < e && (#[trigger] self.plan.edges@[d]).0 == node as int,
            decreases self.plan.edges@.len() - e,
        {
            if self.plan.edges[e].0 == node {
                assert(self.plan.edges@[e as int].0 == node as int);
                any = true;
            }
            e += 1;
        }
        assert(any == has_successor(self.plan().edges@, node as int));
        assert(self.plan.names@[node as int]@ == self.plan().name_texts()[node as int]);
        if any {
            if let Some(rule) = self.branches.get(&self.plan.names[node]) {
                let picked = rule.branch.select(ctx);
                let ghost answer = selection(picked);
                assert(self.rules()[self.plan().name_texts()[node as int]].branch.answers(
                    ctx@,
                    answer,
                ));
                match picked {
                    Ok(p) => {
                        activate(&self.plan, node, &Some(p), active);
                        return Ok(());
                    },
                    Err(e) => {
                        return Err(e);
                    },
                }
            }
        }
        activate(&self.plan, node, &None, active);
        Ok(())
    }

    fn settle_from(&self, nodes: &Vec<usize>, i: usize, ctx: &DagContext, active: &mut Vec<bool>) -> (r:
        Result<()>)
        requires
            i <= nodes@.len(),
            forall|j: int| 0 <= j < nodes@.len() ==> (#[trigger] nodes@[j]) < self.plan().names@.len(),
            old(active)@.len() == self.plan().edges@.len(),
        ensures
            final(active)@.len() == old(active)@.len(),
            settles_all(
                *self,
                nodes@.skip(i as int),
                ctx@,
                old(active)@,
                match r {
                    Ok(_) => Ok(final(active)@),
                    Err(e) => Err(e@),
                },
            ),
        decreases nodes@.len() - i,
    {
        let ghost rest = nodes@.skip(i as int);
        if i >= nodes.len() {
            return Ok(());
        }
        assert(rest.skip(1) =~= nodes@.skip(i + 1));
        assert(rest[0] == nodes@[i as int]);
        let ghost before = active@;
        let r = self.activate_successors(nodes[i], ctx, active);
        match r {
            Ok(_) => {
                assert(settles(*self, rest[0] as int, ctx@, before, Ok(active@)));
                self.settle_from(nodes, i + 1, ctx, active)
            },
            Err(e) => {
                assert(settles(*self, rest[0] as int, ctx@, before, Err(e@)));
                Err(e)
            },
        }
    }

    fn work_from(&self, nodes: &Vec<usize>, i: usize, base: &DagContext, merged: DagContext) -> (r:
        Result<DagContext>)
        requires
            i <= nodes@.len(),
            forall|j: int|
                0 <= j < nodes@.len() ==> 2 <= (#[trigger] nodes@[j]) < self.plan().names@.len(),
        ensures
            works(*self, nodes@.skip(i as int), base@, merged@, state_outcome(r)),
        decreases nodes@.len() - i,
    {
        let ghost rest = nodes@.skip(i as int);
        if i >= nodes.len() {
            return Ok(merged);
        }
        proof {
            use_type_invariant(self);
        }
        assert(rest.skip(1) =~= nodes@.skip(i + 1));
        assert(rest[0] == nodes@[i as int]);
        let mut branch = base.duplicate();
        let r = self.process_node(nodes[i], &mut branch);
        match r {
            Ok(_) => {
                let mut out = merged;
                merge_writes(&mut out, base, &branch);
                self.work_from(nodes, i + 1, base, out)
            },
            Err(e) => Err(e),
        }
    }

    fn process_node(&self, node: usize, ctx: &mut DagContext) -> (r: Result<()>)
        requires
            2 <= node < self.plan().names@.len(),
        ensures
            self.tasks()[self.plan().name_texts()[node as int]].node.step(
                old(ctx)@,
                final(ctx)@,
                outcome(r),
            ),
    {
        proof {
            use_type_invariant(self);
            assert(self.plan.names@[node as int]@ == self.plan().name_texts()[node as int]);
        }
        match self.nodes.get(&self.plan.names[node]) {
            Some(task) => task.node.process_erased(ctx),
            None => Err(
                DaimonError::Orchestration(
                    cat3("node '", &self.plan.names[node], "' not found"),
                ),
            ),
        }
    }

    fn run_level(&self, nodes: &Vec<usize>, ctx: DagContext, active: &mut Vec<bool>) -> (r: Result<
        DagContext,
    >)
        requires
            forall|j: int|
                0 <= j < nodes@.len() ==> 2 <= (#[trigger] nodes@[j]) < self.plan().names@.len(),
            old(active)@.len() == self.plan().edges@.len(),
        ensures
            final(active)@.len() == old(active)@.len(),
            level_runs(
                *self,
                nodes@,
                ctx@,
                old(active)@,
                match r {
                    Ok(c) => Ok((c@, final(active)@)),
                    Err(e) => Err(e@),
                },
            ),
    {
        let ghost start = ctx@;
        assert(nodes@.skip(0) =~= nodes@);
        let worked: Result<DagContext> = if nodes.len() == 1 {
            let mut out = ctx;
            let r = self.process_node(nodes[0], &mut out);
            match r {
                Ok(_) => Ok(out),
                Err(e) => Err(e),
            }
        } else {
            let base = ctx.duplicate();
            self.work_from(nodes, 0, &base, ctx)
        };
        let ghost mid = state_outcome(worked);
        assert(level_works(*self, nodes@, start, mid));
        match worked {
            Ok(c) => {
                assert(mid == Ok::<State, ErrorView>(c@));
                let settled = self.settle_from(nodes, 0, &c, active);
                match settled {
                    Ok(_) => {
                        let ghost a = Ok::<Seq<bool>, ErrorView>(active@);
                        assert(settles_all(*self, nodes@, c@, old(active)@, a));
                        assert(level_ends(*self, nodes@, c@, old(active)@, Ok((c@, active@))));
                        Ok(c)
                    },
                    Err(e) => {
                        let ghost a = Err::<Seq<bool>, ErrorView>(e@);
                        assert(settles_all(*self, nodes@, c@, old(active)@, a));
                        assert(level_ends(*self, nodes@, c@, old(active)@, Err(e@)));
                        Err(e)
                    },
                }
            },
            Err(e) => Err(e),
        }
    }

    fn run_from(&self, k: usize, ctx: DagContext, active: Vec<bool>) -> (r: Result<DagContext>)
        requires
            k <= self.plan().levels@.len(),
            active@.len() == self.plan().edges@.len(),
        ensures
            runs_from(*self, k as int, ctx@, active@, state_outcome(r)),
        decreases self.plan().levels@.len() - k,
    {
        if k >= self.plan.levels.len() {
            if end_reached(&self.plan, &active) {
                return Ok(ctx);
            }
            return Err(
                DaimonError::Orchestration(
                    owned("DAG execution did not reach END — all paths were skipped by branches"),
                ),
            );
        }
        let nodes = runnable_nodes(&self.plan, &self.plan.levels[k], &active);
        proof {
            use_type_invariant(self);
            assert forall|j: int| 0 <= j < nodes@.len() implies 2 <= (#[trigger] nodes@[j])
                < self.plan().names@.len() by {
                runnable_nodes_are_waited_for(
                    self.plan.edges@,
                    self.plan.levels@[k as int]@,
                    active@,
                    nodes@[j],
                );
                lemma_level_in_range(self.plan, START@, END@, k as int, nodes@[j]);
            }
        }
        let mut now = active;
        let ghost state = ctx@;
        let r = self.run_level(&nodes, ctx, &mut now);
        match r {
            Ok(c) => {
                assert(level_runs(*self, nodes@, state, active@, Ok((c@, now@))));
                self.run_from(k + 1, c, now)
            },
            Err(e) => {
                assert(level_runs(*self, nodes@, state, active@, Err(e@)));
                Err(e)
            },
        }
    }

    /// Runs the graph: level by level, every node to which an activated edge
    /// leads, with the rules deciding after each node which edges are activated.
    pub fn run(&self, ctx: DagContext) -> (r: Result<DagContext>)
        ensures
            runs(*self, ctx@, state_outcome(r)),
    {
        proof {
            use_type_invariant(self);
        }
        let mut active: Vec<bool> = Vec::new();
        let mut e: usize = 0;
        while e < self.plan.edges.len()
            invariant
                e <= self.plan.edges@.len(),
                active@ == Seq::new(e as nat, |d: int| false),
            decreases self.plan.edges@.len() - e,
        {
            active.push(false);
            e += 1;
            assert(active@ =~= Seq::new(e as nat, |d: int| false));
        }
        let ghost none = active@;
        let r = self.activate_successors(0, &ctx, &mut active);
        match r {
            Ok(_) => {
                assert(settles(*self, 0, ctx@, none, Ok(active@)));
                self.run_from(0, ctx, active)
            },
            Err(e) => {
                assert(settles(*self, 0, ctx@, none, Err(e@)));
                Err(e)
            },
        }
    }
}

proof fn lemma_level_in_range(p: Plan, start: Seq<char>, end: Seq<char>, k: int, v: usize)
    requires
        p.wf(start, end),
        0 <= k < p.levels@.len(),
        p.levels@[k]@.contains(v),
    ensures
        v < p.names@.len(),
{
    let rank = choose|rank: Seq<nat>|
        crate::orchestration::toposort::ranked(
            p.names@.len(),
            p.edges@,
            level_views(p.levels@),
            rank,
        );
    let i = choose|i: int| 0 <= i < p.levels@[k]@.len() && p.levels@[k]@[i] == v;
    assert(level_views(p.levels@)[k][i] == v);
}

/// A node runs only in its level and only if an activated edge leads to it;
/// skipped nodes never run.
pub proof fn runnable_nodes_are_waited_for(
    edges: Seq<(usize, usize)>,
    level: Seq<usize>,
    active: Seq<bool>,
    v: usize,
)
    ensures
        runnable(edges, level, active).contains(v) <==> level.contains(v) && v >= 2 && has_active(
            edges,
            active,
            v as int,
        ),
    decreases level.len(),
{
    if level.len() > 0 {
        let init = level.drop_last();
        runnable_nodes_are_waited_for(edges, init, active, v);
        let before = runnable(edges, init, active);
        let now = runnable(edges, level, active);
        assert(level =~= init.push(level.last()));
        if init.contains(v) {
            let i = choose|i: int| 0 <= i < init.len() && init[i] == v;
            assert(level[i] == v);
        }
        if before.contains(v) {
            let i = choose|i: int| 0 <= i < before.len() && before[i] == v;
            assert(now[i] == v);
        }
        if now.contains(v) && !before.contains(v) {
            let i = choose|i: int| 0 <= i < now.len() && now[i] == v;
            assert(i == before.len());
            assert(level[level.len() - 1] == v);
        }
        if level.contains(v) && !init.contains(v) {
            let i = choose|i: int| 0 <= i < level.len() && level[i] == v;
            if i < init.len() {
                assert(init[i] == v);
            }
            assert(v == level.last());
            if v >= 2 && has_active(edges, active, v as int) {
                assert(now[before.len() as int] == v);
            }
        }
    }
}

/// A rule activates nothing but declared edges to the successors that it picks,
/// and never takes an activation back.
pub proof fn unpicked_successors_are_skipped(
    names: Seq<Seq<char>>,
    edges: Seq<(usize, usize)>,
    active: Seq<bool>,
    node: int,
    picked: Seq<Seq<char>>,
    e: int,
)
    requires
        0 <= e < edges.len(),
        active.len() == edges.len(),
    ensures
        active[e] ==> activated(names, edges, active, node, Some(picked))[e],
        !active[e] && !picked.contains(names[edges[e].1 as int]) ==> !activated(
            names,
            edges,
            active,
            node,
            Some(picked),
        )[e],
        !active[e] && edges[e].0 != node ==> !activated(names, edges, active, node, Some(picked))[e],
{
}

/// What one node wrote is kept when another, which ran at the same time, left
/// the entry alone.
pub proof fn parallel_writes_are_kept(base: State, one: State, other: State, key: Seq<char>)
    requires
        written(base, one).contains_key(key),
        base.contains_key(key) ==> other.contains_key(key) && other[key] == base[key],
        !base.contains_key(key) ==> !other.contains_key(key),
    ensures
        ({
            let merged = base.union_prefer_right(written(base, one)).union_prefer_right(
                written(base, other),
            );
            merged.contains_key(key) && merged[key] == one[key]
        }),
        ({
            let merged = base.union_prefer_right(written(base, other)).union_prefer_right(
                written(base, one),
            );
            merged.contains_key(key) && merged[key] == one[key]
        }),
{
}

/// A run in which no activated edge leads to the exit point fails.
pub proof fn a_run_that_misses_the_end_fails(dag: Dag, state: State, active: Seq<bool>, out: Outcome<State>)
    requires
        runs_from(dag, dag.plan().levels@.len() as int, state, active, out),
    ensures
        out is Ok <==> has_active(dag.plan().edges@, active, 1),
        out matches Ok(s) ==> s == state,
{
}

} // verus!
