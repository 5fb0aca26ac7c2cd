//! Prompts composed from sections.

use crate::prompt::template::PromptTemplate;
use crate::text::{cat2, join, joined, opt_text, owned, texts};
use vstd::prelude::*;

verus! {

/// A heading and a list of points, set off by an empty line; nothing if there
/// are no points.
pub open spec fn points(title: Seq<char>, items: Seq<Seq<char>>) -> Seq<Seq<char>> {
    if items.len() == 0 {
        Seq::empty()
    } else {
        seq![Seq::empty(), title] + items.map_values(|s: Seq<char>| "- "@ + s)
    }
}

/// Examples with an empty line between each two.
pub open spec fn spaced(items: Seq<Seq<char>>) -> Seq<Seq<char>>
    decreases items.len(),
{
    if items.len() == 0 {
        Seq::empty()
    } else if items.len() == 1 {
        items
    } else {
        spaced(items.drop_last()) + seq![Seq::<char>::empty(), items.last()]
    }
}

/// Custom sections, each with an empty line and a heading above it.
pub open spec fn sections(items: Seq<(Seq<char>, Seq<char>)>) -> Seq<Seq<char>>
    decreases items.len(),
{
    if items.len() == 0 {
        Seq::empty()
    } else {
        sections(items.drop_last()) + seq![
            Seq::<char>::empty(),
            "## "@ + items.last().0,
            items.last().1,
        ]
    }
}

/// What a prompt is made of.
pub struct Outline {
    pub persona: Option<Seq<char>>,
    pub instructions: Seq<Seq<char>>,
    pub constraints: Seq<Seq<char>>,
    pub examples: Seq<Seq<char>>,
    pub extra: Seq<(Seq<char>, Seq<char>)>,
}

impl Outline {
    /// The lines of the prompt, from the persona down to the custom sections.
    pub open spec fn lines(self) -> Seq<Seq<char>> {
        (match self.persona {
            Some(p) => seq![p],
            None => Seq::empty(),
        }) + points("## Instructions"@, self.instructions) + points(
            "## Constraints"@,
            self.constraints,
        ) + (if self.examples.len() == 0 {
            Seq::empty()
        } else {
            seq![Seq::empty(), "## Examples"@] + spaced(self.examples)
        }) + sections(self.extra)
    }
}

/// Fluent builder for prompts.
#[derive(Debug)]
pub struct PromptBuilder {
    persona: Option<String>,
    instructions: Vec<String>,
    constraints: Vec<String>,
    examples: Vec<String>,
    extra_sections: Vec<(String, String)>,
}

spec fn section_texts(s: Seq<(String, String)>) -> Seq<(Seq<char>, Seq<char>)> {
    Seq::new(s.len(), |i: int| (s[i].0@, s[i].1@))
}

impl View for PromptBuilder {
    type V = Outline;

    closed spec fn view(&self) -> Outline {
        Outline {
            persona: opt_text(self.persona),
            instructions: texts(self.instructions@),
            constraints: texts(self.constraints@),
            examples: texts(self.examples@),
            extra: section_texts(self.extra_sections@),
        }
    }
}

fn pushed(list: Vec<String>, item: &str) -> (r: Vec<String>)
    ensures
        texts(r@) == texts(list@).push(item@),
{
    let mut r = list;
    r.push(owned(item));
    assert(texts(r@) =~= texts(list@).push(item@));
    r
}

fn push_points(parts: &mut Vec<String>, title: &str, items: &Vec<String>)
    ensures
        texts(final(parts)@) == texts(old(parts)@) + points(title@, texts(items@)),
{
    let ghost before = texts(parts@);
    let ghost all = texts(items@);
    if items.len() == 0 {
        assert(before + points(title@, all) =~= before);
        return ;
    }
    parts.push(String::new());
    parts.push(owned(title));
    let ghost head: Seq<Seq<char>> = seq![Seq::empty(), title@];
    let ghost bullet = |s: Seq<char>| "- "@ + s;
    assert(texts(parts@) =~= before + head + all.take(0).map_values(bullet));
    let mut i: usize = 0;
    while i < items.len()
        invariant
            i <= items@.len(),
            all == texts(items@),
            bullet == (|s: Seq<char>| "- "@ + s),
            texts(parts@) == before + head + all.take(i as int).map_values(bullet),
        decreases items@.len() - i,
    {
        let ghost so_far = texts(parts@);
        parts.push(cat2("- ", &items[i]));
        i += 1;
        proof {
            assert(texts(parts@) =~= so_far.push("- "@ + items@[i - 1]@));
            assert(all.take(i as int).map_values(bullet) =~= all.take(i - 1).map_values(
                bullet,
            ).push("- "@ + all[i - 1]));
            assert(texts(parts@) =~= before + head + all.take(i as int).map_values(bullet));
        }
    }
    assert(all.take(i as int) =~= all);
    assert(texts(parts@) =~= before + (head + all.map_values(bullet)));
}

fn push_spaced(parts: &mut Vec<String>, items: &Vec<String>)
    ensures
        texts(final(parts)@) == texts(old(parts)@) + spaced(texts(items@)),
{
    let ghost before = texts(parts@);
    let ghost all = texts(items@);
    assert(all.take(0) =~= Seq::<Seq<char>>::empty());
    assert(texts(parts@) =~= before + spaced(all.take(0)));
    let mut i: usize = 0;
    while i < items.len()
        invariant
            i <= items@.len(),
            all == texts(items@),
            texts(parts@) == before + spaced(all.take(i as int)),
        decreases items@.len() - i,
    {
        let ghost so_far = texts(parts@);
        if i > 0 {
            parts.push(String::new());
            assert(texts(parts@) =~= so_far.push(Seq::empty()));
        }
        let ghost mid = texts(parts@);
        parts.push(items[i].clone());
        assert(texts(parts@) =~= mid.push(items@[i as int]@));
        i += 1;
        proof {
            assert(all.take(i as int).drop_last() =~= all.take(i - 1));
            assert(all.take(i as int).last() == all[i - 1]);
            if i == 1 {
                assert(spaced(all.take(1)) =~= seq![all[0]]);
            }
            assert(texts(parts@) =~= before + spaced(all.take(i as int)));
        }
    }
    assert(all.take(i as int) =~= all);
}

fn push_sections(parts: &mut Vec<String>, items: &Vec<(String, String)>)
    ensures
        texts(final(parts)@) == texts(old(parts)@) + sections(section_texts(items@)),
{
    let ghost before = texts(parts@);
    let ghost all = section_texts(items@);
    assert(all.take(0) =~= Seq::<(Seq<char>, Seq<char>)>::empty());
    assert(texts(parts@) =~= before + sections(all.take(0)));
    let mut i: usize = 0;
    while i < items.len()
        invariant
            i <= items@.len(),
            all == section_texts(items@),
            texts(parts@) == before + sections(all.take(i as int)),
        decreases items@.len() - i,
    {
        let ghost so_far = texts(parts@);
        parts.push(String::new());
        parts.push(cat2("## ", &items[i].0));
        parts.push(items[i].1.clone());
        i += 1;
        proof {
            let it = all[i - 1];
            assert(texts(parts@) =~= so_far + seq![Seq::<char>::empty(), "## "@ + it.0, it.1]);
            assert(all.take(i as int).drop_last() =~= all.take(i - 1));
            assert(texts(parts@) =~= before + sections(all.take(i as int)));
        }
    }
    assert(all.take(i as int) =~= all);
}

impl PromptBuilder {
    /// A builder with no sections.
    pub fn new() -> (r: Self)
        ensures
            r@ == (Outline {
                persona: None,
                instructions: Seq::empty(),
                constraints: Seq::empty(),
                examples: Seq::empty(),
                extra: Seq::empty(),
            }),
    {
        let r = PromptBuilder {
            persona: None,
            instructions: Vec::new(),
            constraints: Vec::new(),
            examples: Vec::new(),
            extra_sections: Vec::new(),
        };
        assert(r@.instructions =~= Seq::<Seq<char>>::empty());
        assert(r@.extra =~= Seq::<(Seq<char>, Seq<char>)>::empty());
        r
    }

    /// Sets the persona.
    pub fn persona(self, persona: &str) -> (r: Self)
        ensures
            r@ == (Outline { persona: Some(persona@), ..self@ }),
    {
        PromptBuilder { persona: Some(owned(persona)), ..self }
    }

    /// Adds an instruction.
    pub fn instruction(self, instruction: &str) -> (r: Self)
        ensures
            r@ == (Outline { instructions: self@.instructions.push(instruction@), ..self@ }),
    {
        PromptBuilder { instructions: pushed(self.instructions, instruction), ..self }
    }

    /// Adds a constraint that the model should follow.
    pub fn constraint(self, constraint: &str) -> (r: Self)
        ensures
            r@ == (Outline { constraints: self@.constraints.push(constraint@), ..self@ }),
    {
        PromptBuilder { constraints: pushed(self.constraints, constraint), ..self }
    }

    /// Adds an example.
    pub fn example(self, example: &str) -> (r: Self)
        ensures
            r@ == (Outline { examples: self@.examples.push(example@), ..self@ }),
    {
        PromptBuilder { examples: pushed(self.examples, example), ..self }
    }

    /// Adds a section with a title of its own.
    pub fn section(self, title: &str, content: &str) -> (r: Self)
        ensures
            r@ == (Outline { extra: self@.extra.push((title@, content@)), ..self@ }),
    {
        let mut extra_sections = self.extra_sections;
        let ghost before = extra_sections@;
        extra_sections.push((owned(title), owned(content)));
        assert(section_texts(extra_sections@) =~= section_texts(before).push((title@, content@)));
        PromptBuilder { extra_sections, ..self }
    }

    /// The template made of all sections.
    pub fn build(self) -> (r: PromptTemplate)
        ensures
            r.source() == joined(self@.lines(), "\n"@),
            r.vars_set() == Map::<Seq<char>, Seq<char>>::empty(),
    {
        let mut parts: Vec<String> = Vec::new();
        let ghost persona: Seq<Seq<char>> = match self@.persona {
            Some(p) => seq![p],
            None => Seq::empty(),
        };
        if let Some(p) = &self.persona {
            parts.push(p.clone());
        }
        assert(texts(parts@) =~= persona);
        push_points(&mut parts, "## Instructions", &self.instructions);
        push_points(&mut parts, "## Constraints", &self.constraints);
        let ghost above = texts(parts@);
        if self.examples.len() > 0 {
            parts.push(String::new());
            parts.push(owned("## Examples"));
            assert(texts(parts@) =~= above + seq![Seq::<char>::empty(), "## Examples"@]);
            push_spaced(&mut parts, &self.examples);
            assert(texts(parts@) =~= above + (seq![Seq::<char>::empty(), "## Examples"@] + spaced(
                self@.examples,
            )));
        } else {
            assert(texts(parts@) =~= above + Seq::<Seq<char>>::empty());
        }
        push_sections(&mut parts, &self.extra_sections);
        assert(texts(parts@) =~= self@.lines());
        PromptTemplate::new(&join(&parts, "\n"))
    }
}

impl Default for PromptBuilder {
    fn default() -> (r: Self)
        ensures
            r@ == (Outline {
                persona: None,
                instructions: Seq::empty(),
                constraints: Seq::empty(),
                examples: Seq::empty(),
                extra: Seq::empty(),
            }),
    {
        PromptBuilder::new()
    }
}

/// A prompt with nothing but a persona is the persona.
pub proof fn persona_alone_is_the_prompt(persona: Seq<char>)
    ensures
        joined(
            (Outline {
                persona: Some(persona),
                instructions: Seq::empty(),
                constraints: Seq::empty(),
                examples: Seq::empty(),
                extra: Seq::empty(),
            }).lines(),
            "\n"@,
        ) == persona,
{
    let o = Outline {
        persona: Some(persona),
        instructions: Seq::empty(),
        constraints: Seq::empty(),
        examples: Seq::empty(),
        extra: Seq::empty(),
    };
    assert(o.lines() =~= seq![persona]);
}

/// Whether some lines stand among others from a place on, and none else up to
/// another place.
pub open spec fn stands_between(
    lines: Seq<Seq<char>>,
    from: int,
    to: int,
    part: Seq<Seq<char>>,
) -> bool {
    0 <= from <= to <= lines.len() && lines.subrange(from, to) == part
}

/// Whether lines are a list of points under a heading: an empty line, the heading,
/// and a line for each point.
pub open spec fn lists_points(
    part: Seq<Seq<char>>,
    title: Seq<char>,
    items: Seq<Seq<char>>,
) -> bool {
    if items.len() == 0 {
        part.len() == 0
    } else {
        &&& part.len() == items.len() + 2
        &&& part[0].len() == 0
        &&& part[1] == title
        &&& forall|i: int| 0 <= i < items.len() ==> part[i + 2] == "- "@ + #[trigger] items[i]
    }
}

/// Whether the i-th example stands in lines that are examples under a heading.
pub open spec fn example_at(part: Seq<Seq<char>>, i: int, item: Seq<char>) -> bool {
    part[2 * i + 2] == item && (i > 0 ==> part[2 * i + 1].len() == 0)
}

/// Whether lines are examples under a heading: an empty line, the heading, and each
/// example, with an empty line between each two.
pub open spec fn lists_examples(part: Seq<Seq<char>>, items: Seq<Seq<char>>) -> bool {
    if items.len() == 0 {
        part.len() == 0
    } else {
        &&& part.len() == 2 * items.len() + 1
        &&& part[0].len() == 0
        &&& part[1] == "## Examples"@
        &&& forall|i: int| 0 <= i < items.len() ==> example_at(part, i, #[trigger] items[i])
    }
}

/// Whether the i-th section stands in lines that are sections: an empty line, its
/// title and its text.
pub open spec fn section_at(part: Seq<Seq<char>>, i: int, item: (Seq<char>, Seq<char>)) -> bool {
    part[3 * i].len() == 0 && part[3 * i + 1] == "## "@ + item.0 && part[3 * i + 2] == item.1
}

/// Whether lines are sections.
pub open spec fn lists_sections(part: Seq<Seq<char>>, items: Seq<(Seq<char>, Seq<char>)>) -> bool {
    &&& part.len() == 3 * items.len()
    &&& forall|i: int| 0 <= i < items.len() ==> section_at(part, i, #[trigger] items[i])
}

proof fn lemma_spaced(items: Seq<Seq<char>>, i: int)
    ensures
        spaced(items).len() == (if items.len() == 0 {
            0
        } else {
            2 * items.len() - 1
        }),
        0 <= i < items.len() ==> spaced(items)[2 * i] == items[i],
        0 < i < items.len() ==> spaced(items)[2 * i - 1].len() == 0,
    decreases items.len(),
{
    if items.len() > 1 {
        let init = items.drop_last();
        lemma_spaced(init, i);
        if 0 <= i < init.len() {
            assert(init[i] == items[i]);
            assert(spaced(items)[2 * i] == spaced(init)[2 * i]);
            assert(i > 0 ==> spaced(items)[2 * i - 1] == spaced(init)[2 * i - 1]);
        }
    }
}

proof fn lemma_sections(items: Seq<(Seq<char>, Seq<char>)>, i: int)
    ensures
        sections(items).len() == 3 * items.len(),
        0 <= i < items.len() ==> section_at(sections(items), i, items[i]),
    decreases items.len(),
{
    if items.len() > 0 {
        let init = items.drop_last();
        lemma_sections(init, i);
        if 0 <= i < init.len() {
            assert(init[i] == items[i]);
            assert(sections(items)[3 * i] == sections(init)[3 * i]);
            assert(sections(items)[3 * i + 1] == sections(init)[3 * i + 1]);
            assert(sections(items)[3 * i + 2] == sections(init)[3 * i + 2]);
        }
    }
}

/// Everything that was given is in the prompt: the persona, each instruction, each
/// constraint, each example and each section, in the order in which they were given,
/// under their headings. There are no other lines.
pub proof fn every_part_is_in_the_prompt(o: Outline) -> (at: (int, int, int, int))
    ensures
        stands_between(
            o.lines(),
            0,
            at.0,
            match o.persona {
                Some(p) => seq![p],
                None => Seq::empty(),
            },
        ),
        0 <= at.0 <= at.1 <= at.2 <= at.3 <= o.lines().len(),
        lists_points(o.lines().subrange(at.0, at.1), "## Instructions"@, o.instructions),
        lists_points(o.lines().subrange(at.1, at.2), "## Constraints"@, o.constraints),
        lists_examples(o.lines().subrange(at.2, at.3), o.examples),
        lists_sections(o.lines().skip(at.3), o.extra),
{
    let lines = o.lines();
    let persona: Seq<Seq<char>> = match o.persona {
        Some(p) => seq![p],
        None => Seq::empty(),
    };
    let instructions = points("## Instructions"@, o.instructions);
    let constraints = points("## Constraints"@, o.constraints);
    let examples = if o.examples.len() == 0 {
        Seq::empty()
    } else {
        seq![Seq::empty(), "## Examples"@] + spaced(o.examples)
    };
    let a = persona.len() as int;
    let b = a + instructions.len();
    let c = b + constraints.len();
    let d = c + examples.len();
    assert(lines.subrange(0, a) =~= persona);
    assert(lines.subrange(a, b) =~= instructions);
    assert(lines.subrange(b, c) =~= constraints);
    assert(lines.subrange(c, d) =~= examples);
    assert(lines.skip(d) =~= sections(o.extra));
    lemma_spaced(o.examples, 0);
    lemma_sections(o.extra, 0);
    assert forall|i: int| 0 <= i < o.examples.len() implies example_at(
        examples,
        i,
        #[trigger] o.examples[i],
    ) by {
        lemma_spaced(o.examples, i);
        assert(examples[2 * i + 2] == spaced(o.examples)[2 * i]);
        assert(i > 0 ==> examples[2 * i + 1] == spaced(o.examples)[2 * i - 1]);
    }
    assert forall|i: int| 0 <= i < o.extra.len() implies section_at(
        sections(o.extra),
        i,
        #[trigger] o.extra[i],
    ) by {
        lemma_sections(o.extra, i);
    }
    (a, b, c, d)
}

} // verus!
