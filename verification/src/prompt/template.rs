//! Templates with `{variable}` placeholders.

use crate::map::{entries_map, text_map, NameMap};
use crate::prompt::dynamic::ErasedDynamicContext;
use crate::text::{chars_of, owned, string_of};
use vstd::prelude::*;

verus! {

/// The position of the first brace of `t`, or its length.
pub open spec fn first_brace(t: Seq<char>) -> nat
    decreases t.len(),
{
    if t.len() == 0 || t[0] == '{' || t[0] == '}' {
        0
    } else {
        1 + first_brace(t.skip(1))
    }
}

/// Whether `t` begins with a name and a closing brace, no other brace between.
pub open spec fn closes(t: Seq<char>) -> bool {
    first_brace(t) < t.len() && t[first_brace(t) as int] == '}'
}

/// What stands for the placeholder of a name: its value, or the placeholder
/// itself.
pub open spec fn substituted(name: Seq<char>, vars: Map<Seq<char>, Seq<char>>) -> Seq<char> {
    if vars.contains_key(name) {
        vars[name]
    } else {
        seq!['{'] + name + seq!['}']
    }
}

/// `t` with each `{name}` replaced in one pass. An opening brace that no name
/// and closing brace follow stands for itself.
pub open spec fn interpolated(t: Seq<char>, vars: Map<Seq<char>, Seq<char>>) -> Seq<char>
    decreases t.len(),
{
    if t.len() == 0 {
        Seq::empty()
    } else if t[0] == '{' && closes(t.skip(1)) {
        let end = first_brace(t.skip(1)) as int;
        substituted(t.subrange(1, 1 + end), vars) + interpolated(t.skip(end + 2), vars)
    } else {
        seq![t[0]] + interpolated(t.skip(1), vars)
    }
}

proof fn lemma_first_brace(t: Seq<char>)
    ensures
        first_brace(t) <= t.len(),
        forall|i: int| 0 <= i < first_brace(t) ==> t[i] != '{' && t[i] != '}',
        first_brace(t) < t.len() ==> t[first_brace(t) as int] == '{' || t[first_brace(t) as int]
            == '}',
    decreases t.len(),
{
    if t.len() == 0 || t[0] == '{' || t[0] == '}' {
    } else {
        lemma_first_brace(t.skip(1));
        assert forall|i: int| 0 <= i < first_brace(t) implies t[i] != '{' && t[i] != '}' by {
            if i > 0 {
                assert(t.skip(1)[i - 1] == t[i]);
            }
        }
    }
}

proof fn lemma_brace_at(t: Seq<char>, n: nat)
    requires
        n <= t.len(),
        forall|i: int| 0 <= i < n ==> t[i] != '{' && t[i] != '}',
        n < t.len() ==> t[n as int] == '{' || t[n as int] == '}',
    ensures
        first_brace(t) == n,
{
    lemma_first_brace(t);
}

fn brace_from(chars: &Vec<char>, from: usize) -> (r: usize)
    requires
        from <= chars@.len(),
    ensures
        from <= r <= chars@.len(),
        r - from == first_brace(chars@.skip(from as int)),
{
    let mut i: usize = from;
    while i < chars.len() && chars[i] != '{' && chars[i] != '}'
        invariant
            from <= i <= chars@.len(),
            forall|j: int| from <= j < i ==> chars@[j] != '{' && chars@[j] != '}',
        decreases chars@.len() - i,
    {
        i += 1;
    }
    proof {
        let t = chars@.skip(from as int);
        assert forall|k: int| 0 <= k < i - from implies t[k] != '{' && t[k] != '}' by {
            assert(t[k] == chars@[from + k]);
        }
        lemma_brace_at(t, (i - from) as nat);
    }
    i
}

/// The value of a name in the first of two maps that has one.
fn lookup<'a>(first: &'a NameMap<String>, second: &'a NameMap<String>, name: &str) -> (r: Option<
    &'a String,
>)
    ensures
        ({
            let vars = text_map(second@).union_prefer_right(text_map(first@));
            match r {
                Some(v) => vars.contains_key(name@) && vars[name@] == v@,
                None => !vars.contains_key(name@),
            }
        }),
{
    match first.get(name) {
        Some(v) => Some(v),
        None => second.get(name),
    }
}

/// Replaces each `{name}` of a template in one pass, with values from `first`
/// before those from `second`. Values go in as they are: what looks like a
/// placeholder inside a value is not expanded again.
pub fn interpolate(template: &str, first: &NameMap<String>, second: &NameMap<String>) -> (r: String)
    ensures
        r@ == interpolated(template@, text_map(second@).union_prefer_right(text_map(first@))),
{
    let chars = chars_of(template);
    let ghost vars = text_map(second@).union_prefer_right(text_map(first@));
    let ghost t = template@;
    let mut out = String::new();
    let mut i: usize = 0;
    assert(t.skip(0) =~= t);
    while i < chars.len()
        invariant
            i <= chars@.len(),
            chars@ == t,
            vars == text_map(second@).union_prefer_right(text_map(first@)),
            out@ + interpolated(t.skip(i as int), vars) == interpolated(t, vars),
        decreases chars@.len() - i,
    {
        let ghost rest = t.skip(i as int);
        let ghost before = out@;
        let c = chars[i];
        assert(rest.skip(1) =~= t.skip(i + 1));
        if c == '{' {
            let end: usize = brace_from(&chars, i + 1);
            if end < chars.len() && chars[end] == '}' {
                let name = string_of(&chars, i + 1, end);
                proof {
                    assert(rest.subrange(1, end - i) =~= name@);
                    assert(rest.skip(end + 1 - i) =~= t.skip(end + 1));
                    assert(rest.skip(1)[end - i - 1] == '}');
                }
                match lookup(first, second, &name) {
                    Some(value) => {
                        out.push_str(value);
                    },
                    None => {
                        out.push('{');
                        out.push_str(&name);
                        out.push('}');
                        assert(out@ =~= before + (seq!['{'] + name@ + seq!['}']));
                    },
                }
                assert(out@ == before + substituted(name@, vars));
                i = end + 1;
                assert(out@ + interpolated(t.skip(i as int), vars) =~= before + interpolated(
                    rest,
                    vars,
                ));
                continue ;
            }
            proof {
                assert(end < chars.len() ==> rest.skip(1)[end - i - 1] == chars@[end as int]);
                assert(!closes(rest.skip(1)));
            }
        }
        out.push(c);
        i += 1;
        assert(out@ + interpolated(t.skip(i as int), vars) =~= before + interpolated(rest, vars));
    }
    assert(t.skip(i as int) =~= Seq::<char>::empty());
    assert(out@ =~= out@ + interpolated(t.skip(i as int), vars));
    out
}

/// A prompt template with `{variable}` placeholders.
///
/// Variables are replaced when the template is rendered. Unknown ones stay as
/// they are.
#[derive(Debug)]
pub struct PromptTemplate {
    template: String,
    variables: NameMap<String>,
}

impl PromptTemplate {
    /// The text with its placeholders.
    pub closed spec fn source(&self) -> Seq<char> {
        self.template@
    }

    /// The variables that have been set.
    pub closed spec fn vars_set(&self) -> Map<Seq<char>, Seq<char>> {
        text_map(self.variables@)
    }

    /// A template from a text with `{name}` placeholders.
    pub fn new(template: &str) -> (r: Self)
        ensures
            r.source() == template@,
            r.vars_set() == Map::<Seq<char>, Seq<char>>::empty(),
    {
        let r = PromptTemplate { template: owned(template), variables: NameMap::new() };
        assert(r.vars_set() =~= Map::<Seq<char>, Seq<char>>::empty());
        r
    }

    /// Sets a variable.
    pub fn var(self, key: &str, value: &str) -> (r: Self)
        ensures
            r.source() == self.source(),
            r.vars_set() == self.vars_set().insert(key@, value@),
    {
        let mut variables = self.variables;
        let ghost before = variables@;
        let value = owned(value);
        variables.insert(owned(key), value);
        assert(text_map(variables@) =~= text_map(before).insert(key@, value@));
        PromptTemplate { template: self.template, variables }
    }

    /// Sets several variables, one after the other.
    pub fn vars(self, vars: Vec<(&str, &str)>) -> (r: Self)
        ensures
            r.source() == self.source(),
            r.vars_set() == with_vars(self.vars_set(), vars@),
    {
        let mut out = self;
        let mut i: usize = 0;
        assert(vars@.take(0) =~= Seq::<(&str, &str)>::empty());
        while i < vars.len()
            invariant
                i <= vars@.len(),
                out.source() == self.source(),
                out.vars_set() == with_vars(self.vars_set(), vars@.take(i as int)),
            decreases vars@.len() - i,
        {
            out = out.var(vars[i].0, vars[i].1);
            i += 1;
            assert(vars@.take(i as int).drop_last() =~= vars@.take(i - 1));
        }
        assert(vars@.take(i as int) =~= vars@);
        out
    }

    /// Renders the template. Variables that are not set stay as `{name}`.
    pub fn render_static(&self) -> (r: String)
        ensures
            r@ == interpolated(self.source(), self.vars_set()),
    {
        let none: NameMap<String> = NameMap::new();
        assert(self.vars_set().union_prefer_right(text_map(none@)) =~= self.vars_set());
        interpolate(&self.template, &none, &self.variables)
    }

    /// Renders with further variables, which win over those of the template.
    pub fn render_with(&self, overrides: &NameMap<String>) -> (r: String)
        ensures
            r@ == interpolated(
                self.source(),
                self.vars_set().union_prefer_right(text_map(overrides@)),
            ),
    {
        interpolate(&self.template, overrides, &self.variables)
    }

    /// Renders with the values that providers find for the placeholders that the
    /// variables of the template leave. Of two providers of one variable the later
    /// counts.
    pub fn render_dynamic(&self, contexts: &[&dyn ErasedDynamicContext]) -> (r: String)
        ensures
            exists|given: Seq<(Seq<char>, Seq<char>)>|
                {
                    &&& given.len() == contexts@.len()
                    &&& forall|i: int|
                        0 <= i < given.len() ==> contexts@[i].may_name((#[trigger] given[i]).0)
                            && contexts@[i].may_resolve(given[i].1)
                    &&& r@ == interpolated(
                        self.source(),
                        (#[trigger] entries_map(given)).union_prefer_right(self.vars_set()),
                    )
                },
    {
        let mut found: NameMap<String> = NameMap::new();
        let ghost mut given: Seq<(Seq<char>, Seq<char>)> = Seq::empty();
        let mut i: usize = 0;
        assert(text_map(found@) =~= entries_map(given));
        while i < contexts.len()
            invariant
                i <= contexts@.len(),
                given.len() == i,
                forall|j: int|
                    0 <= j < i ==> contexts@[j].may_name((#[trigger] given[j]).0)
                        && contexts@[j].may_resolve(given[j].1),
                text_map(found@) == entries_map(given),
            decreases contexts@.len() - i,
        {
            let value = contexts[i].resolve_erased();
            let key = contexts[i].key();
            let ghost before = found@;
            let ghost v = value;
            found.insert(owned(key), value);
            proof {
                let grown = given.push((key@, v@));
                assert(grown.drop_last() =~= given);
                assert(text_map(found@) =~= text_map(before).insert(key@, v@));
                given = grown;
            }
            i += 1;
        }
        interpolate(&self.template, &self.variables, &found)
    }
}

fn copied(vars: &NameMap<String>) -> (r: NameMap<String>)
    ensures
        text_map(r@) == text_map(vars@),
{
    let mut r: NameMap<String> = NameMap::new();
    let n: usize = vars.len();
    let ghost list = vars.list();
    let mut i: usize = 0;
    assert(text_map(r@) =~= text_map(entries_map(list.take(0))));
    while i < n
        invariant
            i <= n == list.len(),
            list == vars.list(),
            text_map(r@) == text_map(entries_map(list.take(i as int))),
        decreases n - i,
    {
        let ghost before = r@;
        let value = owned(vars.value(i));
        let ghost v = value@;
        r.insert(owned(vars.name(i)), value);
        proof {
            let grown = list.take(i + 1);
            assert(grown.drop_last() =~= list.take(i as int));
            assert(text_map(r@) =~= text_map(before).insert(list[i as int].0, v));
            assert(text_map(entries_map(grown)) =~= text_map(entries_map(list.take(i as int))).insert(
                list[i as int].0,
                v,
            ));
        }
        i += 1;
    }
    assert(list.take(i as int) =~= list);
    r
}

impl Clone for PromptTemplate {
    fn clone(&self) -> (r: Self)
        ensures
            r.source() == self.source(),
            r.vars_set() == self.vars_set(),
    {
        PromptTemplate { template: owned(&self.template), variables: copied(&self.variables) }
    }
}

/// Variables with further ones set, one after the other.
pub open spec fn with_vars(
    vars: Map<Seq<char>, Seq<char>>,
    more: Seq<(&str, &str)>,
) -> Map<Seq<char>, Seq<char>>
    decreases more.len(),
{
    if more.len() == 0 {
        vars
    } else {
        with_vars(vars, more.drop_last()).insert(more.last().0@, more.last().1@)
    }
}

/// A text without an opening brace is rendered as it is.
pub proof fn text_without_placeholders_is_kept(t: Seq<char>, vars: Map<Seq<char>, Seq<char>>)
    requires
        !t.contains('{'),
    ensures
        interpolated(t, vars) == t,
    decreases t.len(),
{
    if t.len() > 0 {
        assert(t.contains(t[0]));
        assert forall|c: char| t.skip(1).contains(c) implies t.contains(c) by {
            let i = choose|i: int| 0 <= i < t.skip(1).len() && t.skip(1)[i] == c;
            assert(t[i + 1] == c);
        }
        text_without_placeholders_is_kept(t.skip(1), vars);
        assert(seq![t[0]] + t.skip(1) =~= t);
    } else {
        assert(t =~= Seq::<char>::empty());
    }
}

/// Without variables every template renders to itself.
pub proof fn unknown_variables_are_kept(t: Seq<char>)
    ensures
        interpolated(t, Map::empty()) == t,
    decreases t.len(),
{
    if t.len() == 0 {
        assert(t =~= Seq::<char>::empty());
    } else if t[0] == '{' && closes(t.skip(1)) {
        let end = first_brace(t.skip(1)) as int;
        unknown_variables_are_kept(t.skip(end + 2));
        assert(t.skip(1)[end] == '}');
        assert(seq!['{'] + t.subrange(1, 1 + end) + seq!['}'] + t.skip(end + 2) =~= t);
    } else {
        unknown_variables_are_kept(t.skip(1));
        assert(seq![t[0]] + t.skip(1) =~= t);
    }
}

/// A placeholder is replaced by the value as it stands, whatever the value
/// holds, and rendering goes on behind the placeholder.
pub proof fn values_are_not_expanded_again(
    before: Seq<char>,
    name: Seq<char>,
    after: Seq<char>,
    vars: Map<Seq<char>, Seq<char>>,
)
    requires
        !before.contains('{'),
        !name.contains('{'),
        !name.contains('}'),
        vars.contains_key(name),
    ensures
        interpolated(before + seq!['{'] + name + seq!['}'] + after, vars) == before + vars[name]
            + interpolated(after, vars),
    decreases before.len(),
{
    let t = before + seq!['{'] + name + seq!['}'] + after;
    if before.len() == 0 {
        let tail = t.skip(1);
        assert forall|i: int| 0 <= i < name.len() implies tail[i] != '{' && tail[i] != '}' by {
            assert(tail[i] == name[i]);
            assert(name.contains(name[i]));
        }
        assert(tail[name.len() as int] == '}');
        lemma_brace_at(tail, name.len());
        assert(t.subrange(1, 1 + name.len() as int) =~= name);
        assert(t.skip(name.len() as int + 2) =~= after);
        assert(before + vars[name] =~= vars[name]);
    } else {
        assert(before.contains(before[0]));
        assert(t[0] == before[0]);
        let shorter = before.skip(1);
        assert forall|c: char| shorter.contains(c) implies before.contains(c) by {
            let i = choose|i: int| 0 <= i < shorter.len() && shorter[i] == c;
            assert(before[i + 1] == c);
        }
        values_are_not_expanded_again(shorter, name, after, vars);
        assert(t.skip(1) =~= shorter + seq!['{'] + name + seq!['}'] + after);
        assert(seq![t[0]] + (shorter + vars[name] + interpolated(after, vars)) =~= before
            + vars[name] + interpolated(after, vars));
    }
}

/// Text before the first opening brace is kept, whatever follows it.
pub proof fn text_before_placeholders_is_kept(
    before: Seq<char>,
    rest: Seq<char>,
    vars: Map<Seq<char>, Seq<char>>,
)
    requires
        !before.contains('{'),
    ensures
        interpolated(before + rest, vars) == before + interpolated(rest, vars),
    decreases before.len(),
{
    let t = before + rest;
    if before.len() == 0 {
        assert(t =~= rest);
        assert(before + interpolated(rest, vars) =~= interpolated(rest, vars));
    } else {
        assert(before.contains(before[0]));
        let shorter = before.skip(1);
        assert forall|c: char| shorter.contains(c) implies before.contains(c) by {
            let i = choose|i: int| 0 <= i < shorter.len() && shorter[i] == c;
            assert(before[i + 1] == c);
        }
        text_before_placeholders_is_kept(shorter, rest, vars);
        assert(t.skip(1) =~= shorter + rest);
        assert(seq![t[0]] + (shorter + interpolated(rest, vars)) =~= before + interpolated(
            rest,
            vars,
        ));
    }
}

/// A placeholder stands for its value if it has one and for itself otherwise,
/// whatever other variables are set, and rendering goes on behind it.
pub proof fn placeholders_stand_for_values(
    name: Seq<char>,
    after: Seq<char>,
    vars: Map<Seq<char>, Seq<char>>,
)
    requires
        !name.contains('{'),
        !name.contains('}'),
    ensures
        vars.contains_key(name) ==> interpolated(seq!['{'] + name + seq!['}'] + after, vars)
            == vars[name] + interpolated(after, vars),
        !vars.contains_key(name) ==> interpolated(seq!['{'] + name + seq!['}'] + after, vars)
            == seq!['{'] + name + seq!['}'] + interpolated(after, vars),
{
    let t = seq!['{'] + name + seq!['}'] + after;
    let tail = t.skip(1);
    assert forall|i: int| 0 <= i < name.len() implies tail[i] != '{' && tail[i] != '}' by {
        assert(tail[i] == name[i]);
        assert(name.contains(name[i]));
    }
    assert(tail[name.len() as int] == '}');
    lemma_brace_at(tail, name.len());
    assert(t.subrange(1, 1 + name.len() as int) =~= name);
    assert(t.skip(name.len() as int + 2) =~= after);
}

/// An opening brace that another one follows before any closing brace, or that no
/// brace follows, stands for itself.
pub proof fn lone_braces_are_kept(
    name: Seq<char>,
    after: Seq<char>,
    vars: Map<Seq<char>, Seq<char>>,
)
    requires
        !name.contains('{'),
        !name.contains('}'),
        after.len() == 0 || after[0] == '{',
    ensures
        interpolated(seq!['{'] + name + after, vars) == seq!['{'] + name + interpolated(after, vars),
{
    let t = seq!['{'] + name + after;
    let tail = t.skip(1);
    assert(tail =~= name + after);
    assert forall|i: int| 0 <= i < name.len() implies tail[i] != '{' && tail[i] != '}' by {
        assert(tail[i] == name[i]);
        assert(name.contains(name[i]));
    }
    assert(after.len() > 0 ==> tail[name.len() as int] == after[0]);
    lemma_brace_at(tail, name.len());
    text_before_placeholders_is_kept(name, after, vars);
    assert(seq!['{'] + (name + interpolated(after, vars)) =~= seq!['{'] + name + interpolated(
        after,
        vars,
    ));
}

/// Of several variables that are set one after the other, the last of a name counts,
/// and variables of other names stay.
pub proof fn the_last_value_counts(
    vars: Map<Seq<char>, Seq<char>>,
    more: Seq<(&str, &str)>,
    i: int,
)
    requires
        0 <= i < more.len(),
        forall|j: int| i < j < more.len() ==> (#[trigger] more[j]).0@ != more[i].0@,
    ensures
        with_vars(vars, more).contains_key(more[i].0@),
        with_vars(vars, more)[more[i].0@] == more[i].1@,
    decreases more.len(),
{
    if i < more.len() - 1 {
        let init = more.drop_last();
        assert(more[more.len() - 1].0@ != more[i].0@);
        assert forall|j: int| i < j < init.len() implies (#[trigger] init[j]).0@ != init[i].0@ by {
            assert(init[j] == more[j]);
        }
        the_last_value_counts(vars, init, i);
    }
}

/// Setting variables leaves those of other names as they were.
pub proof fn other_variables_stay(
    vars: Map<Seq<char>, Seq<char>>,
    more: Seq<(&str, &str)>,
    name: Seq<char>,
)
    requires
        forall|j: int| 0 <= j < more.len() ==> (#[trigger] more[j]).0@ != name,
    ensures
        with_vars(vars, more).contains_key(name) == vars.contains_key(name),
        vars.contains_key(name) ==> with_vars(vars, more)[name] == vars[name],
    decreases more.len(),
{
    if more.len() > 0 {
        let init = more.drop_last();
        assert forall|j: int| 0 <= j < init.len() implies (#[trigger] init[j]).0@ != name by {
            assert(init[j] == more[j]);
        }
        assert(more[more.len() - 1].0@ != name);
        other_variables_stay(vars, init, name);
    }
}

} // verus!
