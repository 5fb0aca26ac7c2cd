//! Workflows: acyclic graphs whose edges say which output field of one node
//! becomes which input field of the next.

use crate::agent::{may_answer, Agent, AgentResponse};
use crate::error::{DaimonError, ErrorView, Outcome, Result};
use crate::json::{pairs_map, Json, JsonMap, JsonView};
use crate::map::NameMap;
use crate::orchestration::plan::{edge_texts, plan, plan_error, NamedEdge, Plan};
use crate::orchestration::toposort::{in_range, level_views, ranked};
use crate::text::{cat3, owned, texts};
use vstd::prelude::*;

verus! {

/// The name of the entry point.
pub const START: &'static str = "__wf_start__";

/// The name of the exit point.
pub const END: &'static str = "__wf_end__";

/// A result with its value as contracts speak of it.
pub open spec fn json_outcome(r: Result<Json>) -> Outcome<JsonView> {
    match r {
        Ok(v) => Ok(v@),
        Err(e) => Err(e@),
    }
}

/// A node of a workflow. It makes an output object of an input object.
pub trait WorkflowNode {
    /// What `process` may answer. A node that says nothing here may answer
    /// anything.
    open spec fn may(&self, input: JsonView, r: Outcome<JsonView>) -> bool {
        true
    }

    /// Makes the output.
    fn process(&self, input: Json) -> (r: Result<Json>)
        ensures
            self.may(input@, json_outcome(r)),
    ;
}

/// A [`WorkflowNode`] that can stand in a workflow beside others of other types.
pub trait ErasedWorkflowNode {
    /// What `process_erased` may answer.
    spec fn answers(&self, input: JsonView, r: Outcome<JsonView>) -> bool;

    /// Makes the output.
    fn process_erased(&self, input: Json) -> (r: Result<Json>)
        ensures
            self.answers(input@, json_outcome(r)),
    ;
}

impl<N: WorkflowNode> ErasedWorkflowNode for N {
    open spec fn answers(&self, input: JsonView, r: Outcome<JsonView>) -> bool {
        self.may(input, r)
    }

    fn process_erased(&self, input: Json) -> (r: Result<Json>) {
        self.process(input)
    }
}

/// A node in its place in a workflow.
pub struct WorkflowTask {
    pub node: Box<dyn ErasedWorkflowNode>,
}

fn boxed_node<N: WorkflowNode + 'static>(node: N) -> (r: WorkflowTask)
    ensures
        forall|input: JsonView, o: Outcome<JsonView>| #[trigger]
            r.node.answers(input, o) == node.may(input, o),
{
    WorkflowTask { node: Box::new(node) }
}

/// A node that is a function.
pub struct FnWorkflowNode<F: Fn(Json) -> Result<Json>> {
    func: F,
}

impl<F: Fn(Json) -> Result<Json>> FnWorkflowNode<F> {
    #[verifier::type_invariant]
    spec fn takes_anything(self) -> bool {
        forall|input: Json| #[trigger] call_requires(self.func, (input,))
    }

    /// The function.
    pub closed spec fn func_held(&self) -> F {
        self.func
    }

    /// A node that is a function.
    pub fn new(func: F) -> (r: Self)
        requires
            forall|input: Json| #[trigger] call_requires(func, (input,)),
        ensures
            r.func_held() == func,
    {
        FnWorkflowNode { func }
    }
}

impl<F: Fn(Json) -> Result<Json>> WorkflowNode for FnWorkflowNode<F> {
    open spec fn may(&self, input: JsonView, r: Outcome<JsonView>) -> bool {
        exists|i: Json, o: Result<Json>|
            i@ == input && json_outcome(o) == r && #[trigger] call_ensures(
                self.func_held(),
                (i,),
                o,
            )
    }

    fn process(&self, input: Json) -> (r: Result<Json>) {
        proof {
            use_type_invariant(self);
        }
        let ghost given = input;
        let r = (self.func)(input);
        assert(call_ensures(self.func_held(), (given,), r));
        r
    }
}

/// The text of a member, empty if there is none.
pub open spec fn member_text(v: JsonView, name: Seq<char>) -> Seq<char> {
    match v.field(name) {
        Some(JsonView::Str(s)) => s,
        _ => Seq::empty(),
    }
}

/// A node that hands a field of its input to an agent and answers with an object
/// that holds the agent's text.
pub struct AgentWorkflowNode<A> {
    agent: A,
    input_field: String,
}

impl<A> AgentWorkflowNode<A> {
    /// The agent.
    pub closed spec fn agent_held(&self) -> A {
        self.agent
    }

    /// The field with the prompt.
    pub closed spec fn field(&self) -> Seq<char> {
        self.input_field@
    }

    /// Reads the prompt from a field of the input.
    pub fn new(agent: A, input_field: &str) -> (r: Self)
        ensures
            r.agent_held() == agent,
            r.field() == input_field@,
    {
        AgentWorkflowNode { agent, input_field: owned(input_field) }
    }
}

impl<A: Agent> WorkflowNode for AgentWorkflowNode<A> {
    open spec fn may(&self, input: JsonView, r: Outcome<JsonView>) -> bool {
        exists|answer: Result<AgentResponse>|
            {
                &&& #[trigger] may_answer(
                    self.agent_held(),
                    member_text(input, self.field()),
                    answer,
                )
                &&& r == match answer {
                    Ok(a) => Ok::<JsonView, ErrorView>(
                        JsonView::Object(map!["text"@ => JsonView::Str(a.final_text@)]),
                    ),
                    Err(e) => Err(e@),
                }
            }
    }

    fn process(&self, input: Json) -> (r: Result<Json>) {
        let prompt = match input.get(&self.input_field) {
            Some(v) => match v.as_str() {
                Some(s) => owned(s),
                None => String::new(),
            },
            None => String::new(),
        };
        assert(prompt@ =~= member_text(input@, self.input_field@));
        let answer = self.agent.prompt(&prompt);
        assert(may_answer(self.agent_held(), member_text(input@, self.field()), answer));
        match answer {
            Ok(a) => {
                let mut out = JsonMap::new();
                let ghost text = a.final_text@;
                out.insert(owned("text"), Json::Str(a.final_text));
                assert(out@ =~= map!["text"@ => JsonView::Str(text)]);
                Ok(Json::Object(out))
            },
            Err(e) => Err(e),
        }
    }
}

/// Carries one output field of a node to one input field of the next.
#[derive(Debug, PartialEq)]
pub struct FieldMapping {
    /// The field in the output of the source.
    pub source_field: String,
    /// The field in the input of the target.
    pub target_field: String,
}

impl Clone for FieldMapping {
    fn clone(&self) -> (r: Self)
        ensures
            r.source_field@ == self.source_field@,
            r.target_field@ == self.target_field@,
    {
        FieldMapping {
            source_field: owned(&self.source_field),
            target_field: owned(&self.target_field),
        }
    }
}

/// The fields that a list of mappings joins.
pub open spec fn field_texts(s: Seq<FieldMapping>) -> Seq<(Seq<char>, Seq<char>)> {
    Seq::new(s.len(), |i: int| (s[i].source_field@, s[i].target_field@))
}

/// The fields that lists of mappings join.
pub open spec fn mapping_texts(s: Seq<Vec<FieldMapping>>) -> Seq<Seq<(Seq<char>, Seq<char>)>> {
    Seq::new(s.len(), |i: int| field_texts(s[i]@))
}

// ---------------------------------------------------------------------
// Assembling inputs
// ---------------------------------------------------------------------

/// The members of an object under construction.
pub type Members = Map<Seq<char>, JsonView>;

/// `input` with the mapped fields that `value` has.
pub open spec fn mapped(
    maps: Seq<(Seq<char>, Seq<char>)>,
    value: JsonView,
    input: Members,
) -> Members
    decreases maps.len(),
{
    if maps.len() == 0 {
        input
    } else {
        let before = mapped(maps.drop_last(), value, input);
        match value.field(maps.last().0) {
            Some(v) => before.insert(maps.last().1, v),
            None => before,
        }
    }
}

/// `input` with all members of `value`, if that is an object.
pub open spec fn passed(value: JsonView, input: Members) -> Members {
    match value {
        JsonView::Object(m) => input.union_prefer_right(m),
        _ => input,
    }
}

/// The mappings of all edges between two nodes, among the first `n` edges.
pub open spec fn pair_maps(
    edges: Seq<(usize, usize)>,
    maps: Seq<Seq<(Seq<char>, Seq<char>)>>,
    pair: (usize, usize),
    n: nat,
) -> Seq<(Seq<char>, Seq<char>)>
    decreases n,
{
    if n == 0 {
        Seq::empty()
    } else {
        let before = pair_maps(edges, maps, pair, (n - 1) as nat);
        if edges[n - 1] == pair {
            before + maps[n - 1]
        } else {
            before
        }
    }
}

/// Whether an edge between two nodes has no mappings.
pub open spec fn pair_open(
    edges: Seq<(usize, usize)>,
    maps: Seq<Seq<(Seq<char>, Seq<char>)>>,
    pair: (usize, usize),
) -> bool {
    exists|e: int| 0 <= e < edges.len() && #[trigger] edges[e] == pair && maps[e].len() == 0
}

/// `input` with what the edges between two nodes carry over of `value`: all
/// members if one of the edges has no mappings, and the mapped fields.
pub open spec fn carried(
    edges: Seq<(usize, usize)>,
    maps: Seq<Seq<(Seq<char>, Seq<char>)>>,
    pair: (usize, usize),
    value: JsonView,
    input: Members,
) -> Members {
    mapped(
        pair_maps(edges, maps, pair, edges.len()),
        value,
        if pair_open(edges, maps, pair) {
            passed(value, input)
        } else {
            input
        },
    )
}

/// The input of a node after the first `n` edges: what each edge into it carries
/// over from a source that has an output, the later over the earlier.
pub open spec fn assembled(
    edges: Seq<(usize, usize)>,
    maps: Seq<Seq<(Seq<char>, Seq<char>)>>,
    outputs: Seq<Option<JsonView>>,
    node: int,
    n: nat,
) -> Members
    decreases n,
{
    if n == 0 {
        Map::empty()
    } else {
        let before = assembled(edges, maps, outputs, node, (n - 1) as nat);
        let e = edges[n - 1];
        if e.1 == node && outputs[e.0 as int] is Some {
            carried(edges, maps, e, outputs[e.0 as int]->0, before)
        } else {
            before
        }
    }
}

/// The outputs, as contracts speak of them.
pub open spec fn output_views(outputs: Seq<Option<Json>>) -> Seq<Option<JsonView>> {
    Seq::new(
        outputs.len(),
        |i: int|
            match outputs[i] {
                Some(v) => Some(v@),
                None => None,
            },
    )
}

/// A result with its outputs as contracts speak of them.
pub open spec fn outputs_outcome(r: Result<Vec<Option<Json>>>) -> Outcome<Seq<Option<JsonView>>> {
    match r {
        Ok(o) => Ok(output_views(o@)),
        Err(e) => Err(e@),
    }
}

fn pass_all(value: &Json, input: &mut JsonMap)
    ensures
        final(input)@ == passed(value@, old(input)@),
{
    if let Json::Object(m) = value {
        let n: usize = m.len();
        let ghost pairs = m.pairs();
        let ghost start = input@;
        let mut i: usize = 0;
        assert(input@ =~= start.union_prefer_right(pairs_map(pairs.take(0))));
        while i < n
            invariant
                i <= n == pairs.len(),
                pairs == m.pairs(),
                input@ == start.union_prefer_right(pairs_map(pairs.take(i as int))),
            decreases n - i,
        {
            let ghost before = pairs_map(pairs.take(i as int));
            assert(pairs.take(i + 1).drop_last() =~= pairs.take(i as int));
            input.insert(m.name(i).clone(), m.value(i).duplicate());
            assert(input@ =~= start.union_prefer_right(
                before.insert(pairs[i as int].0, pairs[i as int].1),
            ));
            i += 1;
        }
        assert(pairs.take(i as int) =~= pairs);
    }
}

fn map_fields(maps: &Vec<FieldMapping>, value: &Json, input: &mut JsonMap)
    ensures
        final(input)@ == mapped(field_texts(maps@), value@, old(input)@),
{
    let ghost all = field_texts(maps@);
    let ghost start = input@;
    let mut i: usize = 0;
    assert(all.take(0) =~= Seq::<(Seq<char>, Seq<char>)>::empty());
    while i < maps.len()
        invariant
            i <= maps@.len(),
            all == field_texts(maps@),
            input@ == mapped(all.take(i as int), value@, start),
        decreases maps@.len() - i,
    {
        assert(all.take(i + 1).drop_last() =~= all.take(i as int));
        if let Some(v) = value.get(&maps[i].source_field) {
            input.insert(maps[i].target_field.clone(), v.duplicate());
        }
        i += 1;
    }
    assert(all.take(i as int) =~= all);
}

pub(crate) proof fn lemma_mapped_concat(
    a: Seq<(Seq<char>, Seq<char>)>,
    b: Seq<(Seq<char>, Seq<char>)>,
    value: JsonView,
    input: Members,
)
    ensures
        mapped(a + b, value, input) == mapped(b, value, mapped(a, value, input)),
    decreases b.len(),
{
    if b.len() == 0 {
        assert(a + b =~= a);
    } else {
        lemma_mapped_concat(a, b.drop_last(), value, input);
        assert((a + b).drop_last() =~= a + b.drop_last());
    }
}

fn carry(
    edges: &Vec<(usize, usize)>,
    maps: &Vec<Vec<FieldMapping>>,
    pair: (usize, usize),
    value: &Json,
    input: &mut JsonMap,
)
    requires
        edges@.len() == maps@.len(),
    ensures
        final(input)@ == carried(edges@, mapping_texts(maps@), pair, value@, old(input)@),
{
    let ghost all = mapping_texts(maps@);
    let mut open = false;
    let mut e: usize = 0;
    while e < edges.len()
        invariant
            e <= edges@.len() == maps@.len(),
            all == mapping_texts(maps@),
            open == exists|d: int|
                0 <= d < e && #[trigger] edges@[d] == pair && all[d].len() == 0,
        decreases edges@.len() - e,
    {
        if edges[e].0 == pair.0 && edges[e].1 == pair.1 && maps[e].len() == 0 {
            assert(edges@[e as int] == pair && all[e as int].len() == 0);
            open = true;
        }
        e += 1;
    }
    assert(open == pair_open(edges@, all, pair));
    if open {
        pass_all(value, input);
    }
    let ghost start = input@;
    e = 0;
    while e < edges.len()
        invariant
            e <= edges@.len() == maps@.len(),
            all == mapping_texts(maps@),
            input@ == mapped(pair_maps(edges@, all, pair, e as nat), value@, start),
        decreases edges@.len() - e,
    {
        if edges[e].0 == pair.0 && edges[e].1 == pair.1 {
            proof {
                lemma_mapped_concat(
                    pair_maps(edges@, all, pair, e as nat),
                    all[e as int],
                    value@,
                    start,
                );
            }
            map_fields(&maps[e], value, input);
        }
        e += 1;
    }
}

/// Assembles the input of a node from the outputs of those it depends on.
pub fn assemble_input(
    plan: &Plan,
    maps: &Vec<Vec<FieldMapping>>,
    node: usize,
    outputs: &Vec<Option<Json>>,
) -> (r: Json)
    requires
        plan.edges@.len() == maps@.len(),
        in_range(outputs@.len(), plan.edges@),
    ensures
        r@ == JsonView::Object(
            assembled(
                plan.edges@,
                mapping_texts(maps@),
                output_views(outputs@),
                node as int,
                plan.edges@.len(),
            ),
        ),
{
    let mut input = JsonMap::new();
    let mut e: usize = 0;
    while e < plan.edges.len()
        invariant
            e <= plan.edges@.len() == maps@.len(),
            in_range(outputs@.len(), plan.edges@),
            input@ == assembled(
                plan.edges@,
                mapping_texts(maps@),
                output_views(outputs@),
                node as int,
                e as nat,
            ),
        decreases plan.edges@.len() - e,
    {
        let pair = plan.edges[e];
        assert(plan.edges@[e as int].0 < outputs@.len());
        if pair.1 == node {
            if let Some(value) = &outputs[pair.0] {
                carry(&plan.edges, maps, pair, value, &mut input);
            }
        }
        e += 1;
    }
    Json::Object(input)
}

// ---------------------------------------------------------------------
// Building
// ---------------------------------------------------------------------

/// Puts a workflow together.
pub struct WorkflowBuilder {
    nodes: NameMap<WorkflowTask>,
    edges: Vec<(String, String)>,
    mappings: Vec<Vec<FieldMapping>>,
}

fn field_mappings(pairs: &Vec<(&str, &str)>) -> (r: Vec<FieldMapping>)
    ensures
        field_texts(r@) == pairs@.map_values(|p: (&str, &str)| (p.0@, p.1@)),
{
    let mut r: Vec<FieldMapping> = Vec::new();
    let mut i: usize = 0;
    while i < pairs.len()
        invariant
            i <= pairs@.len(),
            r@.len() == i,
            forall|j: int|
                0 <= j < i ==> (#[trigger] r@[j]).source_field@ == pairs@[j].0@
                    && r@[j].target_field@ == pairs@[j].1@,
        decreases pairs@.len() - i,
    {
        r.push(
            FieldMapping { source_field: owned(pairs[i].0), target_field: owned(pairs[i].1) },
        );
        i += 1;
    }
    assert(field_texts(r@) =~= pairs@.map_values(|p: (&str, &str)| (p.0@, p.1@)));
    r
}

impl WorkflowBuilder {
    #[verifier::type_invariant]
    spec fn inv(self) -> bool {
        self.edges@.len() == self.mappings@.len()
    }

    /// The nodes by name.
    pub closed spec fn tasks(&self) -> Map<Seq<char>, WorkflowTask> {
        self.nodes@
    }

    /// The edges in the order in which they were declared.
    pub closed spec fn links(&self) -> Seq<NamedEdge> {
        edge_texts(self.edges@)
    }

    /// The mappings of each edge.
    pub closed spec fn fields(&self) -> Seq<Seq<(Seq<char>, Seq<char>)>> {
        mapping_texts(self.mappings@)
    }

    fn new() -> (r: Self)
        ensures
            r.tasks() == Map::<Seq<char>, WorkflowTask>::empty(),
            r.links() == Seq::<NamedEdge>::empty(),
            r.fields() == Seq::<Seq<(Seq<char>, Seq<char>)>>::empty(),
    {
        let r = WorkflowBuilder {
            nodes: NameMap::new(),
            edges: Vec::new(),
            mappings: Vec::new(),
        };
        assert(r.links() =~= Seq::<NamedEdge>::empty());
        assert(r.fields() =~= Seq::<Seq<(Seq<char>, Seq<char>)>>::empty());
        r
    }

    /// Adds a node, in place of one of the same name.
    pub fn node<N: WorkflowNode + 'static>(self, name: &str, node: N) -> (r: Self)
        ensures
            r.tasks().dom() == self.tasks().dom().insert(name@),
            r.tasks().remove(name@) == self.tasks().remove(name@),
            forall|input: JsonView, o: Outcome<JsonView>| #[trigger]
                r.tasks()[name@].node.answers(input, o) == node.may(input, o),
            r.links() == self.links(),
            r.fields() == self.fields(),
    {
        proof {
            use_type_invariant(&self);
        }
        let mut nodes = self.nodes;
        let ghost before = nodes@;
        nodes.insert(owned(name), boxed_node(node));
        assert(nodes@.dom() =~= before.dom().insert(name@));
        assert(nodes@.remove(name@) =~= before.remove(name@));
        WorkflowBuilder { nodes, edges: self.edges, mappings: self.mappings }
    }

    fn linked(self, from: &str, to: &str, maps: Vec<FieldMapping>) -> (r: Self)
        ensures
            r.links() == self.links().push((from@, to@)),
            r.fields() == self.fields().push(field_texts(maps@)),
            r.tasks() == self.tasks(),
    {
        proof {
            use_type_invariant(&self);
        }
        let mut edges = self.edges;
        let mut mappings = self.mappings;
        let ghost e = edges@;
        let ghost m = mappings@;
        edges.push((owned(from), owned(to)));
        mappings.push(maps);
        assert(edge_texts(edges@) =~= edge_texts(e).push((from@, to@)));
        assert(mapping_texts(mappings@) =~= mapping_texts(m).push(field_texts(maps@)));
        WorkflowBuilder { nodes: self.nodes, edges, mappings }
    }

    /// Adds an edge that carries fields of the source to fields of the target.
    /// Without any it carries all fields.
    pub fn edge(self, from: &str, to: &str, mappings: Vec<(&str, &str)>) -> (r: Self)
        ensures
            r.links() == self.links().push((from@, to@)),
            r.fields() == self.fields().push(
                mappings@.map_values(|p: (&str, &str)| (p.0@, p.1@)),
            ),
            r.tasks() == self.tasks(),
    {
        self.linked(from, to, field_mappings(&mappings))
    }

    /// Adds an edge that carries all fields, unchanged.
    pub fn edge_passthrough(self, from: &str, to: &str) -> (r: Self)
        ensures
            r.links() == self.links().push((from@, to@)),
            r.fields() == self.fields().push(Seq::empty()),
            r.tasks() == self.tasks(),
    {
        let none: Vec<FieldMapping> = Vec::new();
        assert(field_texts(none@) =~= Seq::<(Seq<char>, Seq<char>)>::empty());
        self.linked(from, to, none)
    }

    /// Checks the workflow and orders it.
    pub fn build(self) -> (r: Result<Workflow>)
        ensures
            match r {
                Ok(wf) => {
                    &&& workflow_error(self.tasks().dom(), self.links()) is None
                    &&& wf.tasks() == self.tasks()
                    &&& wf.fields() == self.fields()
                    &&& wf.plan().wf(START@, END@)
                    &&& wf.plan().named_edges() == self.links()
                    &&& wf.plan().name_texts().to_set() == self.tasks().dom().insert(
                        START@,
                    ).insert(END@)
                },
                Err(e) => workflow_error(self.tasks().dom(), self.links()) is Some && e@
                    == ErrorView::Orchestration(
                    workflow_error(self.tasks().dom(), self.links())->0,
                ),
            },
    {
        proof {
            use_type_invariant(&self);
            lemma_sentinels();
        }
        let names = self.nodes.names();
        let planned = plan(
            &names,
            &self.edges,
            START,
            END,
            "workflow must have at least one edge",
            "cycle detected in workflow — workflows must be acyclic",
        );
        match planned {
            Ok(p) => {
                proof {
                    assert(p.named_edges().len() == self.links().len());
                    assert forall|k: int| 2 <= k < p.names@.len() implies self.nodes@.contains_key(
                        (#[trigger] p.names@[k])@,
                    ) by {
                        let all = p.name_texts();
                        assert(all[k] == p.names@[k]@);
                        assert(all.contains(all[k]));
                        assert(texts(names@).to_set().contains(all[k]));
                        assert(all[0] != all[k]);
                        assert(all[1] != all[k]);
                    }
                    assert(p.name_texts().to_set() =~= self.nodes@.dom().insert(START@).insert(
                        END@,
                    ));
                }
                Ok(Workflow { nodes: self.nodes, plan: p, mappings: self.mappings })
            },
            Err(e) => Err(e),
        }
    }
}

/// What is wrong with nodes and edges as a workflow, if anything.
pub open spec fn workflow_error(
    nodes: Set<Seq<char>>,
    edges: Seq<NamedEdge>,
) -> Option<Seq<char>> {
    plan_error(
        nodes,
        edges,
        START@,
        END@,
        "workflow must have at least one edge"@,
        "cycle detected in workflow — workflows must be acyclic"@,
    )
}

proof fn lemma_sentinels()
    ensures
        START@ != END@,
{
    reveal_strlit("__wf_start__");
    reveal_strlit("__wf_end__");
    assert(START@.len() != END@.len());
}

// ---------------------------------------------------------------------
// Running
// ---------------------------------------------------------------------

/// A checked and ordered workflow.
pub struct Workflow {
    nodes: NameMap<WorkflowTask>,
    plan: Plan,
    mappings: Vec<Vec<FieldMapping>>,
}

/// Whether a node depends on something and all that it depends on has an output.
pub open spec fn ready(
    edges: Seq<(usize, usize)>,
    outputs: Seq<Option<JsonView>>,
    v: int,
) -> bool {
    &&& exists|e: int| 0 <= e < edges.len() && (#[trigger] edges[e]).1 == v
    &&& forall|e: int|
        0 <= e < edges.len() && (#[trigger] edges[e]).1 == v ==> outputs[edges[e].0 as int] is Some
}

/// The nodes of a level, other than the sentinels, that are ready.
pub open spec fn ready_nodes(
    edges: Seq<(usize, usize)>,
    level: Seq<usize>,
    outputs: Seq<Option<JsonView>>,
) -> Seq<usize>
    decreases level.len(),
{
    if level.len() == 0 {
        Seq::empty()
    } else {
        let before = ready_nodes(edges, level.drop_last(), outputs);
        if level.last() >= 2 && ready(edges, outputs, level.last() as int) {
            before.push(level.last())
        } else {
            before
        }
    }
}

/// Whether `out` may be the outputs once several nodes have worked, each on an
/// input assembled from `base`.
pub open spec fn works(
    wf: Workflow,
    nodes: Seq<usize>,
    base: Seq<Option<JsonView>>,
    outputs: Seq<Option<JsonView>>,
    out: Outcome<Seq<Option<JsonView>>>,
) -> bool
    decreases nodes.len(),
{
    if nodes.len() == 0 {
        out == Ok::<Seq<Option<JsonView>>, ErrorView>(outputs)
    } else {
        let name = wf.plan().name_texts()[nodes[0] as int];
        let input = JsonView::Object(
            assembled(
                wf.plan().edges@,
                wf.fields(),
                base,
                nodes[0] as int,
                wf.plan().edges@.len(),
            ),
        );
        exists|r: Outcome<JsonView>|
            {
                &&& #[trigger] wf.tasks()[name].node.answers(input, r)
                &&& match r {
                    Ok(v) => works(
                        wf,
                        nodes.skip(1),
                        base,
                        outputs.update(nodes[0] as int, Some(v)),
                        out,
                    ),
                    Err(e) => out == Err::<Seq<Option<JsonView>>, ErrorView>(e),
                }
            }
    }
}

/// Whether `out` may come of running the levels from position `k` on: what the
/// edges into the exit point carry over in the end.
pub open spec fn runs_from(
    wf: Workflow,
    k: int,
    outputs: Seq<Option<JsonView>>,
    out: Outcome<JsonView>,
) -> bool
    decreases wf.plan().levels@.len() - k,
{
    if k < 0 || k >= wf.plan().levels@.len() {
        out == Ok::<JsonView, ErrorView>(
            JsonView::Object(
                assembled(wf.plan().edges@, wf.fields(), outputs, 1, wf.plan().edges@.len()),
            ),
        )
    } else {
        let nodes = ready_nodes(wf.plan().edges@, wf.plan().levels@[k]@, outputs);
        exists|mid: Outcome<Seq<Option<JsonView>>>|
            {
                &&& #[trigger] works(wf, nodes, outputs, outputs, mid)
                &&& match mid {
                    Ok(o) => runs_from(wf, k + 1, o, out),
                    Err(e) => out == Err::<JsonView, ErrorView>(e),
                }
            }
    }
}

/// The outputs before the first level: only the entry point has one.
pub open spec fn initial_outputs(n: nat, input: JsonView) -> Seq<Option<JsonView>> {
    Seq::new(
        n,
        |i: int|
            if i == 0 {
                Some(input)
            } else {
                None
            },
    )
}

fn is_ready(plan: &Plan, outputs: &Vec<Option<Json>>, v: usize) -> (r: bool)
    requires
        in_range(outputs@.len(), plan.edges@),
    ensures
        r == ready(plan.edges@, output_views(outputs@), v as int),
{
    let mut any = false;
    let mut e: usize = 0;
    while e < plan.edges.len()
        invariant
            e <= plan.edges@.len(),
            in_range(outputs@.len(), plan.edges@),
            any == exists|d: int| 0 <= d < e && (#[trigger] plan.edges@[d]).1 == v as int,
            forall|d: int|
                0 <= d < e && (#[trigger] plan.edges@[d]).1 == v as int
                    ==> output_views(outputs@)[plan.edges@[d].0 as int] is Some,
        decreases plan.edges@.len() - e,
    {
        if plan.edges[e].1 == v {
            assert(plan.edges@[e as int].1 == v as int);
            assert(plan.edges@[e as int].0 < outputs@.len());
            if outputs[plan.edges[e].0].is_none() {
                assert(output_views(outputs@)[plan.edges@[e as int].0 as int] is None);
                return false;
            }
            any = true;
        }
        e += 1;
    }
    any
}

/// The nodes of a level, other than the sentinels, that are ready.
pub fn ready_in_level(plan: &Plan, level: &Vec<usize>, outputs: &Vec<Option<Json>>) -> (r: Vec<usize>)
    requires
        in_range(outputs@.len(), plan.edges@),
    ensures
        r@ == ready_nodes(plan.edges@, level@, output_views(outputs@)),
{
    let mut r: Vec<usize> = Vec::new();
    let mut i: usize = 0;
    while i < level.len()
        invariant
            i <= level@.len(),
            in_range(outputs@.len(), plan.edges@),
            r@ == ready_nodes(plan.edges@, level@.take(i as int), output_views(outputs@)),
        decreases level@.len() - i,
    {
        let v: usize = level[i];
        assert(level@.take(i + 1).drop_last() =~= level@.take(i as int));
        if v >= 2 && is_ready(plan, outputs, v) {
            r.push(v);
        }
        i += 1;
    }
    assert(level@.take(i as int) =~= level@);
    r
}

fn copy_outputs(outputs: &Vec<Option<Json>>) -> (r: Vec<Option<Json>>)
    ensures
        output_views(r@) == output_views(outputs@),
{
    let mut r: Vec<Option<Json>> = Vec::new();
    let mut i: usize = 0;
    while i < outputs.len()
        invariant
            i <= outputs@.len(),
            r@.len() == i,
            forall|j: int| 0 <= j < i ==> output_views(r@)[j] == #[trigger] output_views(outputs@)[j],
        decreases outputs@.len() - i,
    {
        let ghost before = r@;
        let o = match &outputs[i] {
            Some(v) => Some(v.duplicate()),
            None => None,
        };
        r.push(o);
        proof {
            assert forall|j: int| 0 <= j < i + 1 implies output_views(r@)[j]
                == #[trigger] output_views(outputs@)[j] by {
                if j < i {
                    assert(output_views(before)[j] == output_views(outputs@)[j]);
                    assert(r@[j] == before[j]);
                }
            }
        }
        i += 1;
    }
    assert(output_views(r@) =~= output_views(outputs@));
    r
}

impl Workflow {
    #[verifier::type_invariant]
    spec fn inv(self) -> bool {
        &&& self.plan.wf(START@, END@)
        &&& self.plan.edges@.len() == self.mappings@.len()
        &&& forall|k: int|
            2 <= k < self.plan.names@.len() ==> self.nodes@.contains_key(
                (#[trigger] self.plan.names@[k])@,
            )
    }

    /// The nodes by name.
    pub closed spec fn tasks(&self) -> Map<Seq<char>, WorkflowTask> {
        self.nodes@
    }

    /// The names, edges and levels.
    pub closed spec fn plan(&self) -> Plan {
        self.plan
    }

    /// The mappings of each edge.
    pub closed spec fn fields(&self) -> Seq<Seq<(Seq<char>, Seq<char>)>> {
        mapping_texts(self.mappings@)
    }

    /// A builder.
    pub fn builder() -> (r: WorkflowBuilder)
        ensures
            r.tasks() == Map::<Seq<char>, WorkflowTask>::empty(),
            r.links() == Seq::<NamedEdge>::empty(),
            r.fields() == Seq::<Seq<(Seq<char>, Seq<char>)>>::empty(),
    {
        WorkflowBuilder::new()
    }

    fn work_from(
        &self,
        nodes: &Vec<usize>,
        i: usize,
        base: &Vec<Option<Json>>,
        outputs: Vec<Option<Json>>,
    ) -> (r: Result<Vec<Option<Json>>>)
        requires
            i <= nodes@.len(),
            forall|j: int|
                0 <= j < nodes@.len() ==> 2 <= (#[trigger] nodes@[j]) < self.plan().names@.len(),
            base@.len() == self.plan().names@.len(),
            outputs@.len() == self.plan().names@.len(),
        ensures
            works(
                *self,
                nodes@.skip(i as int),
                output_views(base@),
                output_views(outputs@),
                outputs_outcome(r),
            ),
            r matches Ok(o) ==> o@.len() == outputs@.len(),
        decreases nodes@.len() - i,
    {
        let ghost rest = nodes@.skip(i as int);
        if i >= nodes.len() {
            return Ok(outputs);
        }
        proof {
            use_type_invariant(self);
        }
        assert(rest.skip(1) =~= nodes@.skip(i + 1));
        assert(rest[0] == nodes@[i as int]);
        let v: usize = nodes[i];
        let r = self.process_node(v, base);
        let ghost answer = json_outcome(r);
        match r {
            Ok(out) => {
                let ghost before = output_views(outputs@);
                let ghost seen = out@;
                let mut later = outputs;
                later.set(v, Some(out));
                assert(output_views(later@) =~= before.update(v as int, Some(seen)));
                assert(answer == Ok::<JsonView, ErrorView>(seen));
                self.work_from(nodes, i + 1, base, later)
            },
            Err(e) => {
                assert(answer == Err::<JsonView, ErrorView>(e@));
                Err(e)
            },
        }
    }

    fn process_node(&self, v: usize, base: &Vec<Option<Json>>) -> (r: Result<Json>)
        requires
            2 <= v < self.plan().names@.len(),
            base@.len() == self.plan().names@.len(),
        ensures
            self.tasks()[self.plan().name_texts()[v as int]].node.answers(
                JsonView::Object(
                    assembled(
                        self.plan().edges@,
                        self.fields(),
                        output_views(base@),
                        v as int,
                        self.plan().edges@.len(),
                    ),
                ),
                json_outcome(r),
            ),
    {
        proof {
            use_type_invariant(self);
            assert(self.plan.names@[v as int]@ == self.plan().name_texts()[v as int]);
        }
        let input = assemble_input(&self.plan, &self.mappings, v, base);
        match self.nodes.get(&self.plan.names[v]) {
            Some(task) => task.node.process_erased(input),
            None => Err(
                DaimonError::Orchestration(cat3("node '", &self.plan.names[v], "' not found")),
            ),
        }
    }

    fn run_from(&self, k: usize, outputs: Vec<Option<Json>>) -> (r: Result<Json>)
        requires
            k <= self.plan().levels@.len(),
            outputs@.len() == self.plan().names@.len(),
        ensures
            runs_from(*self, k as int, output_views(outputs@), json_outcome(r)),
        decreases self.plan().levels@.len() - k,
    {
        proof {
            use_type_invariant(self);
        }
        if k >= self.plan.levels.len() {
            return Ok(assemble_input(&self.plan, &self.mappings, 1, &outputs));
        }
        let nodes = ready_in_level(&self.plan, &self.plan.levels[k], &outputs);
        proof {
            assert forall|j: int| 0 <= j < nodes@.len() implies 2 <= (#[trigger] nodes@[j])
                < self.plan().names@.len() by {
                ready_nodes_have_all_inputs(
                    self.plan.edges@,
                    self.plan.levels@[k as int]@,
                    output_views(outputs@),
                    nodes@[j],
                );
                lemma_level_in_range(self.plan, k as int, nodes@[j]);
            }
            assert(nodes@.skip(0) =~= nodes@);
        }
        let base = copy_outputs(&outputs);
        let ghost before = output_views(outputs@);
        assert(output_views(base@).len() == outputs@.len());
        let r = self.work_from(&nodes, 0, &base, outputs);
        assert(works(*self, nodes@, before, before, outputs_outcome(r)));
        match r {
            Ok(o) => self.run_from(k + 1, o),
            Err(e) => Err(e),
        }
    }

    /// Runs the workflow on an input, which the entry point puts out.
    pub fn run(&self, initial_input: Json) -> (r: Result<Json>)
        ensures
            runs_from(
                *self,
                0,
                initial_outputs(self.plan().names@.len(), initial_input@),
                json_outcome(r),
            ),
    {
        proof {
            use_type_invariant(self);
        }
        let mut outputs: Vec<Option<Json>> = Vec::new();
        let ghost given = initial_input@;
        outputs.push(Some(initial_input));
        let mut i: usize = 1;
        while i < self.plan.names.len()
            invariant
                1 <= i <= self.plan.names@.len(),
                outputs@.len() == i,
                output_views(outputs@)[0] == Some(given),
                forall|j: int| 1 <= j < i ==> outputs@[j] is None,
            decreases self.plan.names@.len() - i,
        {
            outputs.push(None);
            i += 1;
        }
        assert(output_views(outputs@) =~= initial_outputs(self.plan.names@.len(), given));
        self.run_from(0, outputs)
    }
}

proof fn lemma_level_in_range(p: Plan, k: int, v: usize)
    requires
        p.wf(START@, END@),
        0 <= k < p.levels@.len(),
        p.levels@[k]@.contains(v),
    ensures
        v < p.names@.len(),
{
    let rank = choose|rank: Seq<nat>|
        ranked(p.names@.len(), p.edges@, level_views(p.levels@), rank);
    let i = choose|i: int| 0 <= i < p.levels@[k]@.len() && p.levels@[k]@[i] == v;
    assert(level_views(p.levels@)[k][i] == v);
}

/// A node runs only in its level and only once everything that it depends on has
/// an output.
pub proof fn ready_nodes_have_all_inputs(
    edges: Seq<(usize, usize)>,
    level: Seq<usize>,
    outputs: Seq<Option<JsonView>>,
    v: usize,
)
    ensures
        ready_nodes(edges, level, outputs).contains(v) <==> level.contains(v) && v >= 2 && ready(
            edges,
            outputs,
            v as int,
        ),
    decreases level.len(),
{
    if level.len() > 0 {
        let init = level.drop_last();
        ready_nodes_have_all_inputs(edges, init, outputs, v);
        let before = ready_nodes(edges, init, outputs);
        let now = ready_nodes(edges, level, outputs);
        assert(level =~= init.push(level.last()));
        if init.contains(v) {
            let i = choose|i: int| 0 <= i < init.len() && init[i] == v;
            assert(level[i] == v);
        }
        if before.contains(v) {
            let i = choose|i: int| 0 <= i < before.len() && before[i] == v;
            assert(now[i] == v);
        }
        if now.contains(v) && !before.contains(v) {
            let i = choose|i: int| 0 <= i < now.len() && now[i] == v;
            assert(i == before.len());
            assert(level[level.len() - 1] == v);
        }
        if level.contains(v) && !init.contains(v) {
            let i = choose|i: int| 0 <= i < level.len() && level[i] == v;
            if i < init.len() {
                assert(init[i] == v);
            }
            assert(v == level.last());
            if v >= 2 && ready(edges, outputs, v as int) {
                assert(now[before.len() as int] == v);
            }
        }
    }
}

/// Edges without mappings carry every member of their source over unchanged.
pub proof fn passthrough_carries_everything(
    edges: Seq<(usize, usize)>,
    maps: Seq<Seq<(Seq<char>, Seq<char>)>>,
    pair: (usize, usize),
    m: Members,
    input: Members,
)
    requires
        pair_open(edges, maps, pair),
        pair_maps(edges, maps, pair, edges.len()) == Seq::<(Seq<char>, Seq<char>)>::empty(),
    ensures
        carried(edges, maps, pair, JsonView::Object(m), input) == input.union_prefer_right(m),
{
}

/// Mapped fields are all that a mapped edge carries over: a target field is set
/// only if some mapping names it.
pub proof fn unmapped_fields_stay_behind(
    maps: Seq<(Seq<char>, Seq<char>)>,
    value: JsonView,
    input: Members,
    field: Seq<char>,
)
    requires
        forall|i: int| 0 <= i < maps.len() ==> (#[trigger] maps[i]).1 != field,
    ensures
        mapped(maps, value, input).contains_key(field) == input.contains_key(field),
        input.contains_key(field) ==> mapped(maps, value, input)[field] == input[field],
    decreases maps.len(),
{
    if maps.len() > 0 {
        unmapped_fields_stay_behind(maps.drop_last(), value, input, field);
        assert(maps[maps.len() - 1].1 != field);
    }
}

} // verus!
