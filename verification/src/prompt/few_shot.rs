//! Input and output pairs that show a model what to do.

use crate::text::{cat3, join, joined, opt_text, owned, owned_opt, texts};
use vstd::prelude::*;

verus! {

/// The two lines of each example, with an empty line between each two examples.
pub open spec fn shown(
    examples: Seq<(Seq<char>, Seq<char>)>,
    input_label: Seq<char>,
    output_label: Seq<char>,
) -> Seq<Seq<char>>
    decreases examples.len(),
{
    if examples.len() == 0 {
        Seq::empty()
    } else {
        let last = examples.last();
        let lines = seq![input_label + ": "@ + last.0, output_label + ": "@ + last.1];
        if examples.len() == 1 {
            lines
        } else {
            shown(examples.drop_last(), input_label, output_label) + seq![Seq::<char>::empty()]
                + lines
        }
    }
}

/// What a few-shot template holds.
pub struct Shots {
    pub examples: Seq<(Seq<char>, Seq<char>)>,
    pub prefix: Option<Seq<char>>,
    pub input_label: Seq<char>,
    pub output_label: Seq<char>,
}

impl Shots {
    /// The lines of the rendered template: the prefix and an empty line, then
    /// the examples.
    pub open spec fn lines(self) -> Seq<Seq<char>> {
        (match self.prefix {
            Some(p) => seq![p, Seq::empty()],
            None => Seq::empty(),
        }) + shown(self.examples, self.input_label, self.output_label)
    }
}

/// Input and output pairs that go into a prompt.
#[derive(Debug)]
pub struct FewShotTemplate {
    examples: Vec<(String, String)>,
    prefix: Option<String>,
    input_label: String,
    output_label: String,
}

spec fn example_texts(s: Seq<(String, String)>) -> Seq<(Seq<char>, Seq<char>)> {
    Seq::new(s.len(), |i: int| (s[i].0@, s[i].1@))
}

impl View for FewShotTemplate {
    type V = Shots;

    closed spec fn view(&self) -> Shots {
        Shots {
            examples: example_texts(self.examples@),
            prefix: opt_text(self.prefix),
            input_label: self.input_label@,
            output_label: self.output_label@,
        }
    }
}

impl Clone for FewShotTemplate {
    fn clone(&self) -> (r: Self)
        ensures
            r@ == self@,
    {
        let mut examples: Vec<(String, String)> = Vec::new();
        let mut i: usize = 0;
        while i < self.examples.len()
            invariant
                i <= self.examples@.len(),
                examples@.len() == i,
                forall|j: int|
                    0 <= j < i ==> (#[trigger] examples@[j]).0@ == self.examples@[j].0@
                        && examples@[j].1@ == self.examples@[j].1@,
            decreases self.examples@.len() - i,
        {
            examples.push((owned(&self.examples[i].0), owned(&self.examples[i].1)));
            i += 1;
        }
        let r = FewShotTemplate {
            examples,
            prefix: owned_opt(&self.prefix),
            input_label: owned(&self.input_label),
            output_label: owned(&self.output_label),
        };
        assert(r@.examples =~= self@.examples);
        r
    }
}

impl FewShotTemplate {
    /// A template without examples.
    pub fn new() -> (r: Self)
        ensures
            r@ == (Shots {
                examples: Seq::empty(),
                prefix: None,
                input_label: "Input"@,
                output_label: "Output"@,
            }),
    {
        let r = FewShotTemplate {
            examples: Vec::new(),
            prefix: None,
            input_label: owned("Input"),
            output_label: owned("Output"),
        };
        assert(r@.examples =~= Seq::<(Seq<char>, Seq<char>)>::empty());
        r
    }

    /// Adds an example.
    pub fn example(self, input: &str, output: &str) -> (r: Self)
        ensures
            r@ == (Shots { examples: self@.examples.push((input@, output@)), ..self@ }),
    {
        let mut examples = self.examples;
        let ghost before = examples@;
        examples.push((owned(input), owned(output)));
        assert(example_texts(examples@) =~= example_texts(before).push((input@, output@)));
        FewShotTemplate { examples, ..self }
    }

    /// Sets a text above the examples.
    pub fn with_prefix(self, prefix: &str) -> (r: Self)
        ensures
            r@ == (Shots { prefix: Some(prefix@), ..self@ }),
    {
        FewShotTemplate { prefix: Some(owned(prefix)), ..self }
    }

    /// Sets the label of inputs, which is `Input` at first.
    pub fn with_input_label(self, label: &str) -> (r: Self)
        ensures
            r@ == (Shots { input_label: label@, ..self@ }),
    {
        FewShotTemplate { input_label: owned(label), ..self }
    }

    /// Sets the label of outputs, which is `Output` at first.
    pub fn with_output_label(self, label: &str) -> (r: Self)
        ensures
            r@ == (Shots { output_label: label@, ..self@ }),
    {
        FewShotTemplate { output_label: owned(label), ..self }
    }

    /// The examples as a text.
    pub fn render(&self) -> (r: String)
        ensures
            r@ == joined(self@.lines(), "\n"@),
    {
        let mut parts: Vec<String> = Vec::new();
        let ghost head: Seq<Seq<char>> = match self@.prefix {
            Some(p) => seq![p, Seq::empty()],
            None => Seq::empty(),
        };
        if let Some(prefix) = &self.prefix {
            parts.push(prefix.clone());
            parts.push(String::new());
        }
        let ghost all = self@.examples;
        let ghost il = self@.input_label;
        let ghost ol = self@.output_label;
        assert(texts(parts@) =~= head);
        assert(all.take(0) =~= Seq::<(Seq<char>, Seq<char>)>::empty());
        assert(texts(parts@) =~= head + shown(all.take(0), il, ol));
        let mut i: usize = 0;
        while i < self.examples.len()
            invariant
                i <= self.examples@.len(),
                all == self@.examples,
                il == self@.input_label,
                ol == self@.output_label,
                texts(parts@) == head + shown(all.take(i as int), il, ol),
            decreases self.examples@.len() - i,
        {
            let ghost so_far = texts(parts@);
            if i > 0 {
                parts.push(String::new());
                assert(texts(parts@) =~= so_far + seq![Seq::<char>::empty()]);
            }
            let ghost mid = texts(parts@);
            parts.push(cat3(&self.input_label, ": ", &self.examples[i].0));
            parts.push(cat3(&self.output_label, ": ", &self.examples[i].1));
            i += 1;
            proof {
                let last = all[i - 1];
                assert(texts(parts@) =~= mid + seq![il + ": "@ + last.0, ol + ": "@ + last.1]);
                assert(all.take(i as int).drop_last() =~= all.take(i - 1));
                assert(all.take(i as int).last() == last);
                assert(texts(parts@) =~= head + shown(all.take(i as int), il, ol));
            }
        }
        assert(all.take(i as int) =~= all);
        join(&parts, "\n")
    }

    /// The number of examples.
    pub fn len(&self) -> (n: usize)
        ensures
            n == self@.examples.len(),
    {
        self.examples.len()
    }

    /// Whether there are no examples.
    pub fn is_empty(&self) -> (r: bool)
        ensures
            r == (self@.examples.len() == 0),
    {
        self.examples.len() == 0
    }
}

impl Default for FewShotTemplate {
    /// A template without examples and with empty labels.
    fn default() -> (r: Self)
        ensures
            r@ == (Shots {
                examples: Seq::empty(),
                prefix: None,
                input_label: Seq::empty(),
                output_label: Seq::empty(),
            }),
    {
        let r = FewShotTemplate {
            examples: Vec::new(),
            prefix: None,
            input_label: String::new(),
            output_label: String::new(),
        };
        assert(r@.examples =~= Seq::<(Seq<char>, Seq<char>)>::empty());
        r
    }
}

/// Whether an example is shown at a line: its input, then its output.
pub open spec fn shown_at(
    lines: Seq<Seq<char>>,
    at: int,
    input_label: Seq<char>,
    output_label: Seq<char>,
    example: (Seq<char>, Seq<char>),
) -> bool {
    &&& lines[at] == input_label + ": "@ + example.0
    &&& lines[at + 1] == output_label + ": "@ + example.1
}

/// Whether an empty line stands before the i-th of the examples that are shown from a
/// line on.
pub open spec fn set_apart(lines: Seq<Seq<char>>, from: int, i: int) -> bool {
    lines[from + 3 * i - 1].len() == 0
}

proof fn lemma_shown(
    examples: Seq<(Seq<char>, Seq<char>)>,
    input_label: Seq<char>,
    output_label: Seq<char>,
    i: int,
)
    ensures
        ({
            let lines = shown(examples, input_label, output_label);
            &&& examples.len() == 0 ==> lines.len() == 0
            &&& examples.len() > 0 ==> lines.len() == 3 * examples.len() - 1
            &&& 0 <= i < examples.len() ==> shown_at(
                lines,
                3 * i,
                input_label,
                output_label,
                examples[i],
            )
            &&& 0 < i < examples.len() ==> set_apart(lines, 0, i)
        }),
    decreases examples.len(),
{
    if examples.len() > 1 {
        let init = examples.drop_last();
        lemma_shown(init, input_label, output_label, i);
        let lines = shown(examples, input_label, output_label);
        let before = shown(init, input_label, output_label);
        if 0 <= i < init.len() {
            assert(init[i] == examples[i]);
            assert(lines[3 * i] == before[3 * i]);
            assert(lines[3 * i + 1] == before[3 * i + 1]);
            assert(i > 0 ==> lines[3 * i - 1] == before[3 * i - 1]);
        }
    }
}

/// Every example is shown, in order: a line with its input, a line with its output,
/// and an empty line before the next. Above them stand the prefix and an empty line,
/// if there is a prefix, and there are no other lines.
pub proof fn every_example_is_shown(s: Shots)
    ensures
        ({
            let head: int = if s.prefix is Some {
                2
            } else {
                0
            };
            let n = s.examples.len();
            &&& s.lines().len() == head + if n == 0 {
                0
            } else {
                3 * n - 1
            }
            &&& s.prefix matches Some(p) ==> s.lines()[0] == p && s.lines()[1].len() == 0
            &&& forall|i: int|
                0 <= i < n ==> shown_at(
                    s.lines(),
                    head + 3 * i,
                    s.input_label,
                    s.output_label,
                    #[trigger] s.examples[i],
                )
            &&& forall|i: int| 0 < i < n ==> #[trigger] set_apart(s.lines(), head, i)
        }),
{
    lemma_shown(s.examples, s.input_label, s.output_label, 0);
    let lines = shown(s.examples, s.input_label, s.output_label);
    let head: int = if s.prefix is Some {
        2
    } else {
        0
    };
    assert forall|i: int| 0 <= i < s.examples.len() implies shown_at(
        s.lines(),
        head + 3 * i,
        s.input_label,
        s.output_label,
        #[trigger] s.examples[i],
    ) by {
        lemma_shown(s.examples, s.input_label, s.output_label, i);
        assert(s.lines()[head + 3 * i] == lines[3 * i]);
        assert(s.lines()[head + 3 * i + 1] == lines[3 * i + 1]);
    }
    assert forall|i: int| 0 < i < s.examples.len() implies #[trigger] set_apart(
        s.lines(),
        head,
        i,
    ) by {
        lemma_shown(s.examples, s.input_label, s.output_label, i);
        assert(s.lines()[head + 3 * i - 1] == lines[3 * i - 1]);
    }
}

} // verus!
