//! What passes between a model and its tools.

use crate::contained::{holds, lemma_holds_within};
use crate::error::{DaimonError, ErrorView, Outcome, Result};
use crate::json::{Json, JsonView};
use crate::map::NameMap;
use crate::model::types::{spec_views, ToolSpec, ToolSpecView};
use crate::text::{cat3, owned};
use vstd::prelude::*;

verus! {

/// A call of a tool that a model asks for.
#[derive(Debug, PartialEq)]
pub struct ToolCall {
    pub id: String,
    pub name: String,
    pub arguments: Json,
}

/// A tool call, as contracts speak of it.
pub struct ToolCallView {
    pub id: Seq<char>,
    pub name: Seq<char>,
    pub arguments: JsonView,
}

impl View for ToolCall {
    type V = ToolCallView;

    open spec fn view(&self) -> ToolCallView {
        ToolCallView { id: self.id@, name: self.name@, arguments: self.arguments@ }
    }
}

/// The models of a list of tool calls.
pub open spec fn call_views(s: Seq<ToolCall>) -> Seq<ToolCallView> {
    Seq::new(s.len(), |i: int| s[i]@)
}

impl Clone for ToolCall {
    fn clone(&self) -> (r: Self)
        ensures
            r@ == self@,
    {
        ToolCall {
            id: self.id.clone(),
            name: self.name.clone(),
            arguments: self.arguments.duplicate(),
        }
    }
}

/// Copies of all calls of a list.
pub fn clone_calls(v: &Vec<ToolCall>) -> (r: Vec<ToolCall>)
    ensures
        call_views(r@) == call_views(v@),
        r@.len() == v@.len(),
{
    let mut r: Vec<ToolCall> = Vec::new();
    let mut i: usize = 0;
    while i < v.len()
        invariant
            i <= v@.len(),
            r@.len() == i,
            forall|j: int| 0 <= j < i ==> (#[trigger] r@[j])@ == v@[j]@,
        decreases v@.len() - i,
    {
        r.push(v[i].clone());
        i += 1;
    }
    assert(call_views(r@) =~= call_views(v@));
    r
}

/// What a tool hands back.
#[derive(Debug, PartialEq)]
pub struct ToolOutput {
    pub content: String,
    pub is_error: bool,
}

impl ToolOutput {
    /// A successful result.
    pub fn text(content: &str) -> (r: Self)
        ensures
            r.content@ == content@,
            !r.is_error,
    {
        ToolOutput { content: owned(content), is_error: false }
    }

    /// A failure, in words.
    pub fn error(content: &str) -> (r: Self)
        ensures
            r.content@ == content@,
            r.is_error,
    {
        ToolOutput { content: owned(content), is_error: true }
    }
}

/// What a tool hands back, as contracts speak of it.
pub struct OutputView {
    pub content: Seq<char>,
    pub is_error: bool,
}

impl View for ToolOutput {
    type V = OutputView;

    open spec fn view(&self) -> OutputView {
        OutputView { content: self.content@, is_error: self.is_error }
    }
}

/// A result with its output as contracts speak of it.
pub open spec fn output_outcome(r: Result<ToolOutput>) -> Outcome<OutputView> {
    match r {
        Ok(o) => Ok(o@),
        Err(e) => Err(e@),
    }
}

/// A tool that a model may call.
pub trait Tool {
    /// What `execute` may hand back. A tool that says nothing here may hand back
    /// anything.
    open spec fn may_run(&self, input: JsonView, r: Outcome<OutputView>) -> bool {
        true
    }

    /// The name that a model calls it by.
    fn name(&self) -> (r: &str);

    /// What it does, in words.
    fn description(&self) -> (r: &str);

    /// The JSON schema of its arguments.
    fn parameters_schema(&self) -> (r: Json);

    /// Runs it.
    fn execute(&self, input: &Json) -> (r: Result<ToolOutput>)
        ensures
            self.may_run(input@, output_outcome(r)),
    ;
}

/// A [`Tool`] that can stand in a registry beside others of other types.
pub trait ErasedTool {
    /// What `execute_erased` may hand back.
    spec fn runs(&self, input: JsonView, r: Outcome<OutputView>) -> bool;

    /// Runs it.
    fn execute_erased(&self, input: &Json) -> (r: Result<ToolOutput>)
        ensures
            self.runs(input@, output_outcome(r)),
    ;
}

impl<T: Tool> ErasedTool for T {
    open spec fn runs(&self, input: JsonView, r: Outcome<OutputView>) -> bool {
        self.may_run(input, r)
    }

    fn execute_erased(&self, input: &Json) -> (r: Result<ToolOutput>) {
        self.execute(input)
    }
}

/// A tool in its place in a registry, with the description that it gave of
/// itself when it was put there.
pub struct RegisteredTool {
    pub description: ToolSpec,
    pub tool: Box<dyn ErasedTool>,
}

/// Whether a tool may describe itself in this way.
pub open spec fn may_describe<T: Tool>(tool: T, description: ToolSpecView) -> bool {
    exists|name: &str, words: &str, schema: Json|
        {
            &&& #[trigger] call_ensures(T::name, (&tool,), name)
            &&& #[trigger] call_ensures(T::description, (&tool,), words)
            &&& #[trigger] call_ensures(T::parameters_schema, (&tool,), schema)
            &&& description == ToolSpecView {
                name: name@,
                description: words@,
                parameters: schema@,
            }
        }
}

fn describe<T: Tool>(tool: &T) -> (r: ToolSpec)
    ensures
        may_describe(*tool, r@),
{
    let name = tool.name();
    let words = tool.description();
    let schema = tool.parameters_schema();
    let ghost shape = schema;
    let r = ToolSpec { name: owned(name), description: owned(words), parameters: schema };
    assert(call_ensures(T::name, (tool,), name));
    assert(call_ensures(T::description, (tool,), words));
    assert(call_ensures(T::parameters_schema, (tool,), shape));
    r
}

fn registered<T: Tool + 'static>(description: ToolSpec, tool: T) -> (r: RegisteredTool)
    ensures
        r.description == description,
        forall|input: JsonView, o: Outcome<OutputView>| #[trigger]
            r.tool.runs(input, o) == tool.may_run(input, o),
{
    RegisteredTool { description, tool: Box::new(tool) }
}

/// The tools that an agent or a server has, by name and in the order in which
/// they were registered.
pub struct ToolRegistry {
    pub tools: NameMap<RegisteredTool>,
}

/// The error for a second tool with one name.
pub open spec fn duplicate_error(name: Seq<char>) -> ErrorView {
    ErrorView::Builder("tool '"@ + name + "' is already registered"@)
}

impl ToolRegistry {
    /// No tools.
    pub fn new() -> (r: Self)
        ensures
            r.tools@ == Map::<Seq<char>, RegisteredTool>::empty(),
            r.tools.list() == Seq::<(Seq<char>, RegisteredTool)>::empty(),
    {
        ToolRegistry { tools: NameMap::new() }
    }

    /// Adds a tool under the name that it gives. A name that is taken is refused.
    pub fn register<T: Tool + 'static>(&mut self, tool: T) -> (r: Result<()>)
        ensures
            exists|d: ToolSpecView| #[trigger]
                may_describe(tool, d) && match r {
                    Ok(_) => {
                        &&& !old(self).tools@.contains_key(d.name)
                        &&& final(self).tools.list().len() == old(self).tools.list().len() + 1
                        &&& final(self).tools.list().drop_last() == old(self).tools.list()
                        &&& final(self).tools.list().last().0 == d.name
                        &&& final(self).tools@ == old(self).tools@.insert(
                            d.name,
                            final(self).tools.list().last().1,
                        )
                        &&& final(self).tools.list().last().1.description@ == d
                        &&& forall|input: JsonView, o: Outcome<OutputView>| #[trigger]
                            final(self).tools.list().last().1.tool.runs(input, o) == tool.may_run(
                                input,
                                o,
                            )
                    },
                    Err(e) => {
                        &&& old(self).tools@.contains_key(d.name)
                        &&& e@ == duplicate_error(d.name)
                        &&& *final(self) == *old(self)
                    },
                },
    {
        let description = describe(&tool);
        let ghost d = description@;
        assert(may_describe(tool, d));
        let name = description.name.clone();
        if self.tools.contains(&name) {
            return Err(
                DaimonError::Builder(cat3("tool '", &name, "' is already registered")),
            );
        }
        let ghost before = self.tools.list();
        let entry = registered(description, tool);
        let ghost kept = entry;
        self.tools.insert(name, entry);
        assert(self.tools.list() == before.push((d.name, kept)));
        assert(self.tools.list().drop_last() =~= before);
        Ok(())
    }

    /// The tool with a name.
    pub fn get(&self, name: &str) -> (r: Option<&RegisteredTool>)
        ensures
            match r {
                Some(t) => self.tools@.contains_key(name@) && *t == self.tools@[name@],
                None => !self.tools@.contains_key(name@),
            },
    {
        self.tools.get(name)
    }

    /// The descriptions of the tools, in order.
    pub open spec fn descriptions(self) -> Seq<ToolSpecView> {
        self.tools.list().map_values(|e: (Seq<char>, RegisteredTool)| e.1.description@)
    }

    /// The descriptions of the tools, in order.
    pub fn tool_specs(&self) -> (r: Vec<ToolSpec>)
        ensures
            spec_views(r@) == self.descriptions(),
    {
        let mut specs: Vec<ToolSpec> = Vec::new();
        let n: usize = self.tools.len();
        let mut i: usize = 0;
        while i < n
            invariant
                i <= n == self.tools.list().len(),
                specs@.len() == i,
                forall|j: int|
                    0 <= j < i ==> (#[trigger] specs@[j])@ == self.tools.list()[j].1.description@,
            decreases n - i,
        {
            specs.push(self.tools.value(i).description.clone());
            i += 1;
        }
        assert(spec_views(specs@) =~= self.descriptions());
        specs
    }
}

/// The list of descriptions holds that of each tool, in the order in which the tools were
/// registered.
pub proof fn every_tool_is_described(registry: ToolRegistry)
    ensures
        registry.descriptions().len() == registry.tools.list().len(),
        forall|i: int|
            0 <= i < registry.tools.list().len() ==> #[trigger] registry.descriptions()[i]
                == registry.tools.list()[i].1.description@,
{
}

/// The error for a name that is taken says which name it is.
pub proof fn taken_names_are_said(name: Seq<char>)
    ensures
        duplicate_error(name) matches ErrorView::Builder(words) && holds(words, name),
{
    lemma_holds_within("tool '"@, name, "' is already registered"@);
}

/// A tool that gives but one name, one description and one schema is described by these.
pub proof fn tools_are_described_by_themselves<T: Tool>(
    tool: T,
    name: Seq<char>,
    words: Seq<char>,
    schema: JsonView,
    d: ToolSpecView,
)
    requires
        may_describe(tool, d),
        forall|s: &str| #[trigger] call_ensures(T::name, (&tool,), s) ==> s@ == name,
        forall|s: &str| #[trigger] call_ensures(T::description, (&tool,), s) ==> s@ == words,
        forall|s: Json| #[trigger]
            call_ensures(T::parameters_schema, (&tool,), s) ==> s@ == schema,
    ensures
        d.name == name,
        d.description == words,
        d.parameters == schema,
{
}

} // verus!
