//! A retriever as a tool.

use crate::contained::{
    holds_in_order, lemma_holds_within, lemma_nothing_held, lemma_one_behind_the_other,
    lemma_single,
};
use crate::error::{ErrorView, Outcome, Result};
use crate::json::{
    json_text, make_object2, make_object3, number_value, object2, object3, Json, JsonView,
    NumberView,
};
use crate::members::{counts, item, lists, says};
use crate::retriever::traits::{Retriever, SharedRetriever};
use crate::retriever::types::Document;
use crate::text::{cat3, decimal, decimal_text, owned, same, trim_text, trimmed};
use crate::text_laws::{blank, trimming_takes_white_space};
use crate::tool::{OutputView, Tool, ToolOutput};
use vstd::prelude::*;

verus! {

/// How many documents are asked for, unless told otherwise.
pub const DEFAULT_TOP_K: usize = 5;

/// A number with four digits behind the point.
pub uninterp spec fn fixed_point(n: NumberView) -> Seq<char>;

/// `format!` on the double that `serde_json::Number::as_f64` gives, with four
/// digits behind the point.
#[verifier::external_body]
fn fixed_point_text(n: &serde_json::Number) -> (r: String)
    ensures
        r@ == fixed_point(number_value(*n)),
{
    format!("{:.4}", n.as_f64().unwrap_or_default())
}

/// A score in words. JSON has no number that is not finite: an infinite score is its
/// sign and name as a text, and anything else is not a number.
pub open spec fn score_words(score: JsonView) -> Seq<char> {
    match score {
        JsonView::Number(n) => fixed_point(n),
        JsonView::Str(t) => if t == "inf"@ || t == "-inf"@ {
            t
        } else {
            "NaN"@
        },
        _ => "NaN"@,
    }
}

fn score_text(score: &Json) -> (r: String)
    ensures
        r@ == score_words(score@),
{
    match score {
        Json::Number(n) => fixed_point_text(n),
        Json::Str(t) => if same(t, "inf") || same(t, "-inf") {
            owned(t)
        } else {
            owned("NaN")
        },
        _ => owned("NaN"),
    }
}

// ---------------------------------------------------------------------
// Documents in words
// ---------------------------------------------------------------------

/// The metadata of a document in words, a line for each entry.
pub open spec fn metadata_words(pairs: Seq<(Seq<char>, JsonView)>) -> Seq<char>
    decreases pairs.len(),
{
    if pairs.len() == 0 {
        Seq::empty()
    } else {
        metadata_words(pairs.drop_last()) + (pairs.last().0 + ": "@ + json_text(pairs.last().1)
            + "\n"@)
    }
}

/// A document in words, under its number.
pub open spec fn document_words(number: nat, d: Document) -> Seq<char> {
    ("--- Document "@ + decimal(number) + " ---\n"@) + (match d.score {
        Some(s) => "Score: "@ + score_words(s@) + "\n"@,
        None => Seq::empty(),
    }) + metadata_words(d.metadata.pairs()) + d.content@ + "\n\n"@
}

/// Some documents in words, one after the other.
pub open spec fn documents_words(docs: Seq<Document>) -> Seq<char>
    decreases docs.len(),
{
    if docs.len() == 0 {
        Seq::empty()
    } else {
        documents_words(docs.drop_last()) + document_words(docs.len(), docs.last())
    }
}

/// What is said of some documents.
pub open spec fn answer_words(docs: Seq<Document>) -> Seq<char> {
    if docs.len() == 0 {
        "No relevant documents found."@
    } else {
        trimmed(documents_words(docs))
    }
}

fn push_metadata(out: &mut String, d: &Document)
    ensures
        final(out)@ == old(out)@ + metadata_words(d.metadata.pairs()),
{
    let n: usize = d.metadata.len();
    let ghost start = out@;
    let ghost pairs = d.metadata.pairs();
    let mut i: usize = 0;
    assert(pairs.take(0) =~= Seq::<(Seq<char>, JsonView)>::empty());
    assert(out@ =~= start + metadata_words(pairs.take(0)));
    while i < n
        invariant
            i <= n == pairs.len(),
            pairs == d.metadata.pairs(),
            out@ == start + metadata_words(pairs.take(i as int)),
        decreases n - i,
    {
        assert(pairs.take(i + 1).drop_last() =~= pairs.take(i as int));
        assert(pairs.take(i + 1).last() == pairs[i as int]);
        let ghost before = out@;
        out.push_str(d.metadata.name(i));
        out.push_str(": ");
        out.push_str(&d.metadata.value(i).to_text());
        out.push_str("\n");
        assert(out@ =~= start + metadata_words(pairs.take(i + 1)));
        i += 1;
    }
    assert(pairs.take(i as int) =~= pairs);
}

fn push_document(out: &mut String, number: usize, d: &Document)
    ensures
        final(out)@ == old(out)@ + document_words(number as nat, *d),
{
    let ghost start = out@;
    out.push_str(&cat3("--- Document ", &decimal_text(number as u64), " ---\n"));
    if let Some(s) = &d.score {
        out.push_str(&cat3("Score: ", &score_text(s), "\n"));
    }
    let ghost head = out@;
    push_metadata(out, d);
    out.push_str(&d.content);
    out.push_str("\n\n");
    assert(out@ =~= start + document_words(number as nat, *d));
}

/// What is said of some documents.
pub fn format_documents(docs: &Vec<Document>) -> (r: String)
    ensures
        r@ == answer_words(docs@),
{
    if docs.len() == 0 {
        return owned("No relevant documents found.");
    }
    let mut out = String::new();
    let n: usize = docs.len();
    let mut i: usize = 0;
    assert(docs@.take(0) =~= Seq::<Document>::empty());
    assert(out@ =~= documents_words(docs@.take(0)));
    while i < n
        invariant
            i <= n == docs@.len(),
            out@ == documents_words(docs@.take(i as int)),
        decreases n - i,
    {
        assert(docs@.take(i + 1).drop_last() =~= docs@.take(i as int));
        assert(docs@.take(i + 1).last() == docs@[i as int]);
        push_document(&mut out, i + 1, &docs[i]);
        i += 1;
    }
    assert(docs@.take(i as int) =~= docs@);
    trim_text(&out)
}

// ---------------------------------------------------------------------
// The tool
// ---------------------------------------------------------------------

/// A retriever as a tool. Called with a query, and perhaps with how many
/// documents to find, it answers with the documents in words.
pub struct RetrieverTool {
    pub retriever: SharedRetriever,
    pub name: String,
    pub description: String,
    pub default_top_k: usize,
}

/// The schema of the arguments.
pub open spec fn retriever_schema(default_top_k: usize) -> JsonView {
    object3(
        "type"@,
        JsonView::Str("object"@),
        "properties"@,
        object2(
            "query"@,
            object2(
                "type"@,
                JsonView::Str("string"@),
                "description"@,
                JsonView::Str("The search query"@),
            ),
            "top_k"@,
            object3(
                "type"@,
                JsonView::Str("integer"@),
                "description"@,
                JsonView::Str("Maximum number of results to return"@),
                "default"@,
                JsonView::Number(NumberView::PosInt(default_top_k as u64)),
            ),
        ),
        "required"@,
        JsonView::Array(seq![JsonView::Str("query"@)]),
    )
}

/// The query of a call; empty where it gives none.
pub open spec fn query_of(input: JsonView) -> Seq<char> {
    match input.field("query"@) {
        Some(JsonView::Str(q)) => q,
        _ => ""@,
    }
}

/// How many documents a call asks for.
pub open spec fn top_k_of(input: JsonView, default_top_k: usize) -> usize {
    match input.field("top_k"@) {
        Some(v) => match v.as_uint() {
            Some(k) => k as usize,
            None => default_top_k,
        },
        None => default_top_k,
    }
}

impl RetrieverTool {
    /// A retriever as a tool with a name and a description.
    pub fn new<R: Retriever + 'static>(retriever: R, name: &str, description: &str) -> (r: Self)
        ensures
            r.name@ == name@,
            r.description@ == description@,
            r.default_top_k == DEFAULT_TOP_K,
            forall|query: Seq<char>, top_k: usize, o: Result<Vec<Document>>| #[trigger]
                r.retriever.inner.finds(query, top_k, o) == retriever.may_find(query, top_k, o),
    {
        RetrieverTool::from_shared(SharedRetriever::new(retriever), name, description)
    }

    /// A retriever behind a pointer as a tool with a name and a description.
    pub fn from_shared(retriever: SharedRetriever, name: &str, description: &str) -> (r: Self)
        ensures
            r.retriever == retriever,
            r.name@ == name@,
            r.description@ == description@,
            r.default_top_k == DEFAULT_TOP_K,
    {
        RetrieverTool {
            retriever,
            name: owned(name),
            description: owned(description),
            default_top_k: DEFAULT_TOP_K,
        }
    }

    /// Sets how many documents are asked for where a call does not say.
    pub fn with_default_top_k(self, top_k: usize) -> (r: Self)
        ensures
            r == (RetrieverTool { default_top_k: top_k, ..self }),
    {
        RetrieverTool {
            retriever: self.retriever,
            name: self.name,
            description: self.description,
            default_top_k: top_k,
        }
    }
}

impl Tool for RetrieverTool {
    open spec fn may_run(&self, input: JsonView, r: Outcome<OutputView>) -> bool {
        exists|found: Result<Vec<Document>>|
            {
                &&& #[trigger] self.retriever.inner.finds(
                    query_of(input),
                    top_k_of(input, self.default_top_k),
                    found,
                )
                &&& match found {
                    Ok(docs) => r == Ok::<OutputView, ErrorView>(
                        OutputView { content: answer_words(docs@), is_error: false },
                    ),
                    Err(e) => r == Err::<OutputView, ErrorView>(e@),
                }
            }
    }

    fn name(&self) -> (r: &str)
        ensures
            r@ == self.name@,
    {
        self.name.as_str()
    }

    fn description(&self) -> (r: &str)
        ensures
            r@ == self.description@,
    {
        self.description.as_str()
    }

    fn parameters_schema(&self) -> (r: Json)
        ensures
            r@ == retriever_schema(self.default_top_k),
    {
        let mut required: Vec<Json> = Vec::new();
        required.push(Json::text("query"));
        assert(crate::json::json_views(required@) =~= seq![JsonView::Str("query"@)]);
        make_object3(
            "type",
            Json::text("object"),
            "properties",
            make_object2(
                "query",
                make_object2(
                    "type",
                    Json::text("string"),
                    "description",
                    Json::text("The search query"),
                ),
                "top_k",
                make_object3(
                    "type",
                    Json::text("integer"),
                    "description",
                    Json::text("Maximum number of results to return"),
                    "default",
                    Json::uint(self.default_top_k as u64),
                ),
            ),
            "required",
            Json::array(required),
        )
    }

    fn execute(&self, input: &Json) -> (r: Result<ToolOutput>) {
        let query = match input.get("query") {
            Some(Json::Str(q)) => q.clone(),
            _ => owned(""),
        };
        let top_k: usize = match input.get("top_k") {
            Some(v) => match v.as_u64() {
                Some(k) => k as usize,
                None => self.default_top_k,
            },
            None => self.default_top_k,
        };
        let found = self.retriever.inner.retrieve_erased(&query, top_k);
        assert(self.retriever.inner.finds(
            query_of(input@),
            top_k_of(input@, self.default_top_k),
            found,
        ));
        match found {
            Ok(docs) => Ok(ToolOutput::text(&format_documents(&docs))),
            Err(e) => Err(e),
        }
    }
}

/// What is to be said of a document: its number, its score, its metadata by name and
/// value, and its content.
pub open spec fn document_parts(number: nat, d: Document) -> Seq<Seq<char>> {
    seq![decimal(number)] + (match d.score {
        Some(s) => seq![score_words(s@)],
        None => Seq::empty(),
    }) + metadata_parts(d.metadata.pairs()) + seq![d.content@]
}

/// The names and values of metadata, in order.
pub open spec fn metadata_parts(pairs: Seq<(Seq<char>, JsonView)>) -> Seq<Seq<char>>
    decreases pairs.len(),
{
    if pairs.len() == 0 {
        Seq::empty()
    } else {
        metadata_parts(pairs.drop_last()) + seq![pairs.last().0, json_text(pairs.last().1)]
    }
}

/// What is to be said of some documents, each under its number, counted from one.
pub open spec fn documents_parts(docs: Seq<Document>) -> Seq<Seq<char>>
    decreases docs.len(),
{
    if docs.len() == 0 {
        Seq::empty()
    } else {
        documents_parts(docs.drop_last()) + document_parts(docs.len(), docs.last())
    }
}

proof fn lemma_part(before: Seq<char>, part: Seq<char>, after: Seq<char>)
    ensures
        holds_in_order(before + part + after, seq![part]),
{
    lemma_holds_within(before, part, after);
    lemma_single(before + part + after, part);
}

proof fn lemma_metadata_held(pairs: Seq<(Seq<char>, JsonView)>)
    ensures
        holds_in_order(metadata_words(pairs), metadata_parts(pairs)),
    decreases pairs.len(),
{
    if pairs.len() == 0 {
        lemma_nothing_held(Seq::empty());
    } else {
        let init = pairs.drop_last();
        let (name, value) = pairs.last();
        lemma_metadata_held(init);
        let first = name + ": "@;
        let second = json_text(value) + "\n"@;
        lemma_part(Seq::empty(), name, ": "@);
        assert(Seq::<char>::empty() + name + ": "@ =~= first);
        lemma_part(Seq::empty(), json_text(value), "\n"@);
        assert(Seq::<char>::empty() + json_text(value) + "\n"@ =~= second);
        lemma_one_behind_the_other(first, seq![name], second, seq![json_text(value)]);
        assert(first + second =~= name + ": "@ + json_text(value) + "\n"@);
        assert(seq![name] + seq![json_text(value)] =~= seq![name, json_text(value)]);
        lemma_one_behind_the_other(
            metadata_words(init),
            metadata_parts(init),
            name + ": "@ + json_text(value) + "\n"@,
            seq![name, json_text(value)],
        );
    }
}

proof fn lemma_document_held(number: nat, d: Document)
    ensures
        holds_in_order(document_words(number, d), document_parts(number, d)),
{
    let head = "--- Document "@ + decimal(number) + " ---\n"@;
    lemma_part("--- Document "@, decimal(number), " ---\n"@);
    let score = match d.score {
        Some(s) => "Score: "@ + score_words(s@) + "\n"@,
        None => Seq::empty(),
    };
    let score_parts = match d.score {
        Some(s) => seq![score_words(s@)],
        None => Seq::empty(),
    };
    match d.score {
        Some(s) => {
            lemma_part("Score: "@, score_words(s@), "\n"@);
        },
        None => {
            lemma_nothing_held(Seq::empty());
        },
    }
    lemma_one_behind_the_other(head, seq![decimal(number)], score, score_parts);
    lemma_metadata_held(d.metadata.pairs());
    lemma_one_behind_the_other(
        head + score,
        seq![decimal(number)] + score_parts,
        metadata_words(d.metadata.pairs()),
        metadata_parts(d.metadata.pairs()),
    );
    lemma_part(Seq::empty(), d.content@, "\n\n"@);
    assert(Seq::<char>::empty() + d.content@ + "\n\n"@ =~= d.content@ + "\n\n"@);
    lemma_one_behind_the_other(
        head + score + metadata_words(d.metadata.pairs()),
        seq![decimal(number)] + score_parts + metadata_parts(d.metadata.pairs()),
        d.content@ + "\n\n"@,
        seq![d.content@],
    );
    assert(head + score + metadata_words(d.metadata.pairs()) + (d.content@ + "\n\n"@)
        =~= document_words(number, d));
}

proof fn lemma_documents_held(docs: Seq<Document>)
    ensures
        holds_in_order(documents_words(docs), documents_parts(docs)),
    decreases docs.len(),
{
    if docs.len() == 0 {
        lemma_nothing_held(Seq::empty());
    } else {
        lemma_documents_held(docs.drop_last());
        lemma_document_held(docs.len(), docs.last());
        lemma_one_behind_the_other(
            documents_words(docs.drop_last()),
            documents_parts(docs.drop_last()),
            document_words(docs.len(), docs.last()),
            document_parts(docs.len(), docs.last()),
        );
    }
}

/// Whatever was found is said: but for white space at the ends, the answer holds, one
/// behind the other, the number, the score, the metadata and the content of every
/// document, from the first to the last.
pub proof fn every_document_is_told(docs: Seq<Document>)
    requires
        docs.len() > 0,
    ensures
        exists|a: Seq<char>, b: Seq<char>|
            #![trigger blank(a), blank(b)]
            blank(a) && blank(b) && holds_in_order(
                a + answer_words(docs) + b,
                documents_parts(docs),
            ),
{
    lemma_documents_held(docs);
    let s = documents_words(docs);
    trimming_takes_white_space(s);
    let (a, b) = choose|a: Seq<char>, b: Seq<char>|
        #![trigger blank(a), blank(b)]
        blank(a) && blank(b) && s == a + trimmed(s) + b;
    assert(blank(a) && blank(b));
}

/// A call asks for the query and the number of documents that it names.
pub proof fn calls_are_understood(input: JsonView, query: Seq<char>, k: u64, default_top_k: usize)
    requires
        input.field("query"@) == Some(JsonView::Str(query)),
    ensures
        query_of(input) == query,
        input.field("top_k"@) == Some(JsonView::Number(NumberView::PosInt(k))) && k <= usize::MAX
            ==> top_k_of(input, default_top_k) == k,
        input.field("top_k"@) is None ==> top_k_of(input, default_top_k) == default_top_k,
{
}

/// The schema asks for a query, which must be there, and for a number of documents,
/// which is the usual one where it is not.
pub proof fn schemas_ask_for_a_query(default_top_k: usize)
    ensures
        ({
            let v = retriever_schema(default_top_k);
            &&& says(v, "type"@, "object"@)
            &&& lists(v, "required"@, 1)
            &&& item(v, "required"@, 0) == JsonView::Str("query"@)
            &&& v.field("properties"@) matches Some(p) && (p.field("query"@) matches Some(q)
                && says(q, "type"@, "string"@)) && (p.field("top_k"@) matches Some(k) && says(
                k,
                "type"@,
                "integer"@,
            ) && counts(k, "default"@, default_top_k as nat))
        }),
{
    reveal_strlit("type");
    reveal_strlit("properties");
    reveal_strlit("required");
    reveal_strlit("query");
    reveal_strlit("top_k");
    reveal_strlit("description");
    reveal_strlit("default");
    assert("type"@.len() == 4 && "properties"@.len() == 10 && "required"@.len() == 8);
    assert("description"@.len() == 11 && "default"@.len() == 7);
    assert("query"@[0] == 'q' && "top_k"@[0] == 't');
}

} // verus!
