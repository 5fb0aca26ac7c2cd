//! Embedding services: requests and responses.

use crate::decode::{place1, placed};
use crate::error::{DaimonError, ErrorView, Result};
use crate::json::{json_views, make_object2, object2, parsed_json, Json, JsonView};
use crate::members::{item, lists, only, says};
use crate::text::{cat2, cat4, contains_text, holds_text, owned, texts};
use vstd::prelude::*;

verus! {

/// The body of a request for the vectors of some texts.
pub open spec fn embed_request(model: Seq<char>, inputs: Seq<Seq<char>>) -> JsonView {
    object2(
        "model"@,
        JsonView::Str(model),
        "input"@,
        JsonView::Array(Seq::new(inputs.len(), |i: int| JsonView::Str(inputs[i]))),
    )
}

/// Makes the body of a request for the vectors of some texts.
pub fn make_embed_request(model: &str, inputs: &Vec<String>) -> (r: Json)
    ensures
        r@ == embed_request(model@, texts(inputs@)),
{
    let ghost all = texts(inputs@);
    let mut items: Vec<Json> = Vec::new();
    let mut i: usize = 0;
    while i < inputs.len()
        invariant
            i <= inputs@.len(),
            all == texts(inputs@),
            items@.len() == i,
            forall|j: int| 0 <= j < i ==> (#[trigger] items@[j])@ == JsonView::Str(all[j]),
        decreases inputs@.len() - i,
    {
        items.push(Json::text(&inputs[i]));
        i += 1;
    }
    assert(json_views(items@) =~= Seq::new(all.len(), |i: int| JsonView::Str(all[i])));
    make_object2("model", Json::text(model), "input", Json::array(items))
}

/// Whether a value is an array of numbers.
pub open spec fn is_vector(v: JsonView) -> bool {
    v matches JsonView::Array(items) && forall|i: int|
        0 <= i < items.len() ==> (#[trigger] items[i]) is Number
}

/// A vector, as contracts speak of it.
pub open spec fn vector_views(s: Seq<Vec<Json>>) -> Seq<Seq<JsonView>> {
    Seq::new(s.len(), |i: int| json_views(s[i]@))
}

spec fn reads(v: JsonView, numbers: Vec<Json>) -> bool {
    is_vector(v) && v == JsonView::Array(json_views(numbers@))
}

fn read_vector(v: &Json) -> (r: Option<Vec<Json>>)
    ensures
        match r {
            Some(numbers) => reads(v@, numbers),
            None => !is_vector(v@),
        },
{
    match v {
        Json::Array(items) => {
            let ghost all = json_views(items@);
            assert(v@->Array_0 =~= all);
            let mut numbers: Vec<Json> = Vec::new();
            let mut i: usize = 0;
            while i < items.len()
                invariant
                    i <= items@.len(),
                    all == json_views(items@),
                    v@ == JsonView::Array(all),
                    numbers@.len() == i,
                    forall|j: int|
                        0 <= j < i ==> (#[trigger] numbers@[j])@ == all[j] && all[j] is Number,
                decreases items@.len() - i,
            {
                match &items[i] {
                    Json::Number(n) => {
                        numbers.push(Json::Number(n.clone()));
                    },
                    _ => {
                        assert(!(all[i as int] is Number));
                        return None;
                    },
                }
                i += 1;
            }
            proof {
                assert forall|j: int| 0 <= j < all.len() implies (#[trigger] all[j]) is Number by {
                    assert(numbers@[j]@ == all[j]);
                }
                assert(json_views(numbers@) =~= all);
            }
            Some(numbers)
        },
        _ => None,
    }
}

// ---------------------------------------------------------------------
// Ollama
// ---------------------------------------------------------------------

/// An embedding model behind an Ollama server.
#[derive(Debug)]
pub struct OllamaEmbedding {
    pub model_id: String,
    pub base_url: String,
    pub dimensions: usize,
}

impl OllamaEmbedding {
    /// A model by its name, on a server.
    pub fn at(model_id: &str, base_url: &str) -> (r: Self)
        ensures
            r.model_id@ == model_id@,
            r.base_url@ == base_url@,
            r.dimensions == 768,
    {
        OllamaEmbedding { model_id: owned(model_id), base_url: owned(base_url), dimensions: 768 }
    }

    /// Sets where the service is.
    pub fn with_base_url(self, url: &str) -> (r: Self)
        ensures
            r.base_url@ == url@,
            r.model_id == self.model_id,
            r.dimensions == self.dimensions,
    {
        OllamaEmbedding { base_url: owned(url), ..self }
    }

    /// Sets the number of coordinates.
    pub fn with_dimensions(self, dims: usize) -> (r: Self)
        ensures
            r == (OllamaEmbedding { dimensions: dims, ..self }),
    {
        OllamaEmbedding { dimensions: dims, ..self }
    }

    /// The number of coordinates.
    pub fn dimensions(&self) -> (r: usize)
        ensures
            r == self.dimensions,
    {
        self.dimensions
    }

    /// Where requests go.
    pub fn embed_url(&self) -> (r: String)
        ensures
            r@ == self.base_url@ + "/api/embed"@,
    {
        cat2(&self.base_url, "/api/embed")
    }

    /// The body of a request.
    pub fn request_body(&self, inputs: &Vec<String>) -> (r: Json)
        ensures
            r@ == embed_request(self.model_id@, texts(inputs@)),
    {
        make_embed_request(&self.model_id, inputs)
    }
}

/// The vectors that a JSON object stands for.
pub open spec fn ollama_vectors(v: JsonView) -> Option<Seq<Seq<JsonView>>> {
    let v = placed(v, seq!["embeddings"@], 1);
    match v.field("embeddings"@) {
        Some(JsonView::Array(items)) => if forall|i: int|
            0 <= i < items.len() ==> is_vector(#[trigger] items[i]) {
            Some(Seq::new(items.len(), |i: int| items[i]->Array_0))
        } else {
            None
        },
        _ => None,
    }
}

fn read_ollama_vectors(v: &Json) -> (r: Option<Vec<Vec<Json>>>)
    ensures
        match r {
            Some(vectors) => ollama_vectors(v@) == Some(vector_views(vectors@)),
            None => ollama_vectors(v@) is None,
        },
{
    let held = place1(v, "embeddings", 1);
    let o = match &held {
        Some(p) => p,
        None => v,
    };
    match o.get("embeddings") {
        Some(Json::Array(items)) => {
            let ghost all = json_views(items@);
            assert(o@.field("embeddings"@)->0->Array_0 =~= all);
            let mut vectors: Vec<Vec<Json>> = Vec::new();
            let mut i: usize = 0;
            while i < items.len()
                invariant
                    i <= items@.len(),
                    all == json_views(items@),
                    o@ == placed(v@, seq!["embeddings"@], 1),
                    o@.field("embeddings"@) == Some(JsonView::Array(all)),
                    vectors@.len() == i,
                    forall|j: int| 0 <= j < i ==> reads(all[j], #[trigger] vectors@[j]),
                decreases items@.len() - i,
            {
                assert(all[i as int] == items@[i as int]@);
                match read_vector(&items[i]) {
                    Some(numbers) => {
                        vectors.push(numbers);
                    },
                    None => {
                        assert(!is_vector(all[i as int]));
                        return None;
                    },
                }
                i += 1;
            }
            proof {
                assert forall|j: int| 0 <= j < all.len() implies is_vector(#[trigger] all[j]) by {
                    assert(reads(all[j], vectors@[j]));
                }
                assert(ollama_vectors(v@)->0 =~= vector_views(vectors@));
            }
            Some(vectors)
        },
        _ => None,
    }
}

/// Whether a result is that of the service's answer.
pub open spec fn ollama_answers(
    code: u16,
    status: Seq<char>,
    body: Seq<char>,
    r: Result<Vec<Vec<Json>>>,
) -> bool {
    if !(200 <= code < 300) {
        r is Err && r->Err_0@ == ErrorView::Model(
            "Ollama embedding error "@ + status + ": "@ + body,
        )
    } else {
        match parsed_json(body) {
            Err(e) => r is Err && r->Err_0@ == ErrorView::Model(
                "Ollama embedding parse error: "@ + e,
            ),
            Ok(v) => match ollama_vectors(v) {
                Some(vectors) => r is Ok && vector_views(r->Ok_0@) == vectors,
                None => r is Err && r->Err_0@ == ErrorView::Model(
                    "Ollama embedding parse error: "@ + "not an embedding response"@,
                ),
            },
        }
    }
}

/// The vectors of the service's answer. `status` is the status in words.
pub fn ollama_vectors_from_answer(code: u16, status: &str, body: &str) -> (r: Result<
    Vec<Vec<Json>>,
>)
    ensures
        ollama_answers(code, status@, body@, r),
{
    if !(200 <= code && code < 300) {
        return Err(DaimonError::Model(cat4("Ollama embedding error ", status, ": ", body)));
    }
    match Json::parse(body) {
        Err(e) => Err(DaimonError::Model(cat2("Ollama embedding parse error: ", &e))),
        Ok(v) => match read_ollama_vectors(&v) {
            Some(vectors) => Ok(vectors),
            None => Err(
                DaimonError::Model(
                    cat2("Ollama embedding parse error: ", "not an embedding response"),
                ),
            ),
        },
    }
}

// ---------------------------------------------------------------------
// OpenAI
// ---------------------------------------------------------------------

/// An embedding model behind the OpenAI API.
#[derive(Debug)]
pub struct OpenAiEmbedding {
    pub api_key: String,
    pub model_id: String,
    pub dimensions: usize,
    pub base_url: String,
}

/// The number of coordinates of a model, unless told otherwise.
pub open spec fn openai_dimensions(model_id: Seq<char>) -> usize {
    if holds_text(model_id, "large"@) {
        3072
    } else {
        1536
    }
}

impl OpenAiEmbedding {
    /// A model by its name, with an API key.
    pub fn keyed(model_id: &str, api_key: &str) -> (r: Self)
        ensures
            r.model_id@ == model_id@,
            r.api_key@ == api_key@,
            r.dimensions == openai_dimensions(model_id@),
            r.base_url@ == "https://api.openai.com/v1"@,
    {
        let dimensions: usize = if contains_text(model_id, "large") {
            3072
        } else {
            1536
        };
        OpenAiEmbedding {
            api_key: owned(api_key),
            model_id: owned(model_id),
            dimensions,
            base_url: owned("https://api.openai.com/v1"),
        }
    }

    /// Sets the API key.
    pub fn with_api_key(self, key: &str) -> (r: Self)
        ensures
            r.api_key@ == key@,
            r.model_id == self.model_id,
            r.dimensions == self.dimensions,
            r.base_url == self.base_url,
    {
        OpenAiEmbedding { api_key: owned(key), ..self }
    }

    /// Sets where the service is.
    pub fn with_base_url(self, url: &str) -> (r: Self)
        ensures
            r.base_url@ == url@,
            r.model_id == self.model_id,
            r.dimensions == self.dimensions,
            r.api_key == self.api_key,
    {
        OpenAiEmbedding { base_url: owned(url), ..self }
    }

    /// Sets the number of coordinates.
    pub fn with_dimensions(self, dims: usize) -> (r: Self)
        ensures
            r == (OpenAiEmbedding { dimensions: dims, ..self }),
    {
        OpenAiEmbedding { dimensions: dims, ..self }
    }

    /// The number of coordinates.
    pub fn dimensions(&self) -> (r: usize)
        ensures
            r == self.dimensions,
    {
        self.dimensions
    }

    /// Where requests go.
    pub fn embed_url(&self) -> (r: String)
        ensures
            r@ == self.base_url@ + "/embeddings"@,
    {
        cat2(&self.base_url, "/embeddings")
    }

    /// The body of a request.
    pub fn request_body(&self, inputs: &Vec<String>) -> (r: Json)
        ensures
            r@ == embed_request(self.model_id@, texts(inputs@)),
    {
        make_embed_request(&self.model_id, inputs)
    }
}

/// The vector that a value holds.
pub open spec fn vector_in(v: JsonView) -> Option<JsonView> {
    placed(v, seq!["embedding"@], 1).field("embedding"@)
}

/// Whether a value is an object with a vector.
pub open spec fn has_vector(v: JsonView) -> bool {
    vector_in(v) matches Some(e) && is_vector(e)
}

/// The vectors that a JSON object stands for.
pub open spec fn openai_vectors(v: JsonView) -> Option<Seq<Seq<JsonView>>> {
    let v = placed(v, seq!["data"@], 1);
    match v.field("data"@) {
        Some(JsonView::Array(items)) => if forall|i: int|
            0 <= i < items.len() ==> has_vector(#[trigger] items[i]) {
            Some(Seq::new(items.len(), |i: int| vector_in(items[i])->0->Array_0))
        } else {
            None
        },
        _ => None,
    }
}

spec fn item_reads(v: JsonView, numbers: Vec<Json>) -> bool {
    vector_in(v) matches Some(e) && reads(e, numbers)
}

fn read_openai_vectors(v: &Json) -> (r: Option<Vec<Vec<Json>>>)
    ensures
        match r {
            Some(vectors) => openai_vectors(v@) == Some(vector_views(vectors@)),
            None => openai_vectors(v@) is None,
        },
{
    let held = place1(v, "data", 1);
    let o = match &held {
        Some(p) => p,
        None => v,
    };
    match o.get("data") {
        Some(Json::Array(items)) => {
            let ghost all = json_views(items@);
            assert(o@.field("data"@)->0->Array_0 =~= all);
            let mut vectors: Vec<Vec<Json>> = Vec::new();
            let mut i: usize = 0;
            while i < items.len()
                invariant
                    i <= items@.len(),
                    all == json_views(items@),
                    o@ == placed(v@, seq!["data"@], 1),
                    o@.field("data"@) == Some(JsonView::Array(all)),
                    vectors@.len() == i,
                    forall|j: int| 0 <= j < i ==> item_reads(all[j], #[trigger] vectors@[j]),
                decreases items@.len() - i,
            {
                assert(all[i as int] == items@[i as int]@);
                let held = place1(&items[i], "embedding", 1);
                let item = match &held {
                    Some(p) => p,
                    None => &items[i],
                };
                match item.get("embedding") {
                    Some(e) => match read_vector(e) {
                        Some(numbers) => {
                            assert(item_reads(all[i as int], numbers));
                            vectors.push(numbers);
                        },
                        None => {
                            assert(!has_vector(all[i as int]));
                            return None;
                        },
                    },
                    None => {
                        assert(!has_vector(all[i as int]));
                        return None;
                    },
                }
                i += 1;
            }
            proof {
                assert forall|j: int| 0 <= j < all.len() implies has_vector(#[trigger] all[j]) by {
                    assert(item_reads(all[j], vectors@[j]));
                }
                assert(openai_vectors(v@)->0 =~= vector_views(vectors@));
            }
            Some(vectors)
        },
        _ => None,
    }
}

/// Whether a result is that of the service's answer.
pub open spec fn openai_answers(
    code: u16,
    status: Seq<char>,
    body: Seq<char>,
    r: Result<Vec<Vec<Json>>>,
) -> bool {
    if !(200 <= code < 300) {
        r is Err && r->Err_0@ == ErrorView::Model(
            "OpenAI embedding error "@ + status + ": "@ + body,
        )
    } else {
        match parsed_json(body) {
            Err(e) => r is Err && r->Err_0@ == ErrorView::Model(
                "OpenAI embedding parse error: "@ + e,
            ),
            Ok(v) => match openai_vectors(v) {
                Some(vectors) => r is Ok && vector_views(r->Ok_0@) == vectors,
                None => r is Err && r->Err_0@ == ErrorView::Model(
                    "OpenAI embedding parse error: "@ + "not an embedding response"@,
                ),
            },
        }
    }
}

/// The vectors of the service's answer. `status` is the status in words.
pub fn openai_vectors_from_answer(code: u16, status: &str, body: &str) -> (r: Result<
    Vec<Vec<Json>>,
>)
    ensures
        openai_answers(code, status@, body@, r),
{
    if !(200 <= code && code < 300) {
        return Err(DaimonError::Model(cat4("OpenAI embedding error ", status, ": ", body)));
    }
    match Json::parse(body) {
        Err(e) => Err(DaimonError::Model(cat2("OpenAI embedding parse error: ", &e))),
        Ok(v) => match read_openai_vectors(&v) {
            Some(vectors) => Ok(vectors),
            None => Err(
                DaimonError::Model(
                    cat2("OpenAI embedding parse error: ", "not an embedding response"),
                ),
            ),
        },
    }
}

/// A request for vectors names the model and carries every text, in order.
pub proof fn embedding_requests_are_sent_whole(model: Seq<char>, inputs: Seq<Seq<char>>)
    ensures
        only(embed_request(model, inputs), set!["model"@, "input"@]),
        says(embed_request(model, inputs), "model"@, model),
        lists(embed_request(model, inputs), "input"@, inputs.len()),
        forall|i: int|
            0 <= i < inputs.len() ==> item(embed_request(model, inputs), "input"@, i)
                == JsonView::Str(#[trigger] inputs[i]),
{
    reveal_strlit("model");
    reveal_strlit("input");
    assert("model"@[0] == 'm' && "input"@[0] == 'i');
}

/// Whether a value is a vector of these numbers.
pub open spec fn tells_vector(v: JsonView, numbers: Seq<JsonView>) -> bool {
    v == JsonView::Array(numbers) && forall|i: int|
        0 <= i < numbers.len() ==> (#[trigger] numbers[i]) is Number
}

/// Vectors are read whole, one for each that the service sends, in order and with all
/// their numbers.
pub proof fn vectors_are_read_whole(v: JsonView, vectors: Seq<Seq<JsonView>>)
    requires
        v is Object,
        lists(v, "embeddings"@, vectors.len()),
        forall|i: int|
            0 <= i < vectors.len() ==> tells_vector(
                item(v, "embeddings"@, i),
                #[trigger] vectors[i],
            ),
    ensures
        ollama_vectors(v) == Some(vectors),
{
    let items = v.field("embeddings"@)->0->Array_0;
    assert forall|i: int| 0 <= i < items.len() implies is_vector(#[trigger] items[i])
        && items[i]->Array_0 == vectors[i] by {
        assert(tells_vector(item(v, "embeddings"@, i), vectors[i]));
    }
    assert(Seq::new(items.len(), |i: int| items[i]->Array_0) =~= vectors);
}

/// Whether an object holds a vector of these numbers.
pub open spec fn tells_embedding(v: JsonView, numbers: Seq<JsonView>) -> bool {
    v is Object && v.field("embedding"@) is Some && tells_vector(
        v.field("embedding"@)->0,
        numbers,
    )
}

/// Vectors in objects are read whole, one for each that the service sends, in order
/// and with all their numbers.
pub proof fn embeddings_are_read_whole(v: JsonView, vectors: Seq<Seq<JsonView>>)
    requires
        v is Object,
        lists(v, "data"@, vectors.len()),
        forall|i: int|
            0 <= i < vectors.len() ==> tells_embedding(item(v, "data"@, i), #[trigger] vectors[i]),
    ensures
        openai_vectors(v) == Some(vectors),
{
    let items = v.field("data"@)->0->Array_0;
    assert forall|i: int| 0 <= i < items.len() implies has_vector(#[trigger] items[i])
        && vector_in(items[i])->0->Array_0 == vectors[i] by {
        assert(tells_embedding(item(v, "data"@, i), vectors[i]));
    }
    assert(Seq::new(items.len(), |i: int| vector_in(items[i])->0->Array_0) =~= vectors);
}

/// The vectors of a good answer are handed on as they are, and a bad status is an error
/// that says what the service said.
pub proof fn embeddings_are_handed_on(
    code: u16,
    status: Seq<char>,
    body: Seq<char>,
    v: JsonView,
    vectors: Seq<Seq<JsonView>>,
    r: Result<Vec<Vec<Json>>>,
)
    requires
        parsed_json(body) == Ok::<JsonView, Seq<char>>(v),
    ensures
        ollama_answers(code, status, body, r) && 200 <= code < 300 && ollama_vectors(v) == Some(
            vectors,
        ) ==> r is Ok && r->Ok_0@.len() == vectors.len() && forall|i: int|
            0 <= i < vectors.len() ==> json_views((#[trigger] r->Ok_0@[i])@) == vectors[i],
        openai_answers(code, status, body, r) && 200 <= code < 300 && openai_vectors(v) == Some(
            vectors,
        ) ==> r is Ok && r->Ok_0@.len() == vectors.len() && forall|i: int|
            0 <= i < vectors.len() ==> json_views((#[trigger] r->Ok_0@[i])@) == vectors[i],
        ollama_answers(code, status, body, r) && !(200 <= code < 300) ==> r is Err,
        openai_answers(code, status, body, r) && !(200 <= code < 300) ==> r is Err,
{
    if 200 <= code < 300 && r is Ok && vector_views(r->Ok_0@) == vectors {
        assert forall|i: int| 0 <= i < vectors.len() implies json_views(
            (#[trigger] r->Ok_0@[i])@,
        ) == vectors[i] by {
            assert(vector_views(r->Ok_0@)[i] == json_views(r->Ok_0@[i]@));
        }
    }
}

} // verus!
