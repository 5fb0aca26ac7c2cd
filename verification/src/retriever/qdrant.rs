//! What becomes of a point that a Qdrant database finds.

use crate::error::{DaimonError, ErrorView};
use crate::json::{Json, JsonMap, JsonView};
use crate::map::NameMap;
use crate::retriever::types::{Document, DocumentView};
use crate::text::{cat2, owned, same};
use vstd::prelude::*;

verus! {

/// Which collection is searched, and where its points keep their text.
#[derive(Debug, PartialEq)]
pub struct QdrantRetriever {
    pub collection: String,
    pub content_field: String,
}

/// The payload of a point: the text of each field that is text.
pub type Payload = NameMap<Option<String>>;

/// The text of a document, by the payload of its point.
pub open spec fn payload_content(
    payload: Map<Seq<char>, Option<String>>,
    content_field: Seq<char>,
) -> Seq<char> {
    if payload.contains_key(content_field) {
        match payload[content_field] {
            Some(t) => t@,
            None => ""@,
        }
    } else {
        ""@
    }
}

/// The metadata of a document, by the payload of its point: every other field
/// that is text.
pub open spec fn payload_metadata(
    fields: Seq<(Seq<char>, Option<String>)>,
    content_field: Seq<char>,
) -> Map<Seq<char>, JsonView>
    decreases fields.len(),
{
    if fields.len() == 0 {
        Map::empty()
    } else {
        let before = payload_metadata(fields.drop_last(), content_field);
        let (name, text) = fields.last();
        match text {
            Some(t) => if name != content_field {
                before.insert(name, JsonView::Str(t@))
            } else {
                before
            },
            None => before,
        }
    }
}

impl QdrantRetriever {
    /// Searches a collection whose points keep their text in the field `content`.
    pub fn new(collection: &str) -> (r: Self)
        ensures
            r.collection@ == collection@,
            r.content_field@ == "content"@,
    {
        QdrantRetriever { collection: owned(collection), content_field: owned("content") }
    }

    /// Sets the field in which points keep their text.
    pub fn with_content_field(self, field: &str) -> (r: Self)
        ensures
            r.collection == self.collection,
            r.content_field@ == field@,
    {
        QdrantRetriever { collection: self.collection, content_field: owned(field) }
    }

    /// The document that a point stands for.
    pub fn document(&self, payload: &Payload, score: Json) -> (r: Document)
        ensures
            r@ == (DocumentView {
                content: payload_content(payload@, self.content_field@),
                metadata: payload_metadata(payload.list(), self.content_field@),
                score: Some(score@),
            }),
    {
        let content = match payload.get(&self.content_field) {
            Some(Some(t)) => t.clone(),
            _ => owned(""),
        };
        let mut metadata = JsonMap::new();
        let n: usize = payload.len();
        let ghost fields = payload.list();
        let mut i: usize = 0;
        assert(fields.take(0) =~= Seq::<(Seq<char>, Option<String>)>::empty());
        while i < n
            invariant
                i <= n == fields.len(),
                fields == payload.list(),
                metadata@ == payload_metadata(fields.take(i as int), self.content_field@),
            decreases n - i,
        {
            assert(fields.take(i + 1).drop_last() =~= fields.take(i as int));
            assert(fields.take(i + 1).last() == fields[i as int]);
            if let Some(t) = payload.value(i) {
                if !same(payload.name(i), &self.content_field) {
                    metadata.insert(payload.name(i).clone(), Json::Str(t.clone()));
                }
            }
            i += 1;
        }
        assert(fields.take(i as int) =~= fields);
        Document { content, metadata, score: Some(score) }
    }
}

/// The error for a database that cannot be reached.
pub fn connection_error(reason: &str) -> (r: DaimonError)
    ensures
        r@ == ErrorView::Other("Qdrant connection error: "@ + reason@),
{
    DaimonError::Other(cat2("Qdrant connection error: ", reason))
}

/// The error for a search that fails.
pub fn search_error(reason: &str) -> (r: DaimonError)
    ensures
        r@ == ErrorView::Other("Qdrant search error: "@ + reason@),
{
    DaimonError::Other(cat2("Qdrant search error: ", reason))
}

/// The text of a point is not repeated in its metadata; every other text of it
/// is there, and nothing else.
pub proof fn metadata_is_the_rest(
    fields: Seq<(Seq<char>, Option<String>)>,
    content_field: Seq<char>,
    name: Seq<char>,
)
    ensures
        payload_metadata(fields, content_field).contains_key(name) <==> name != content_field
            && exists|i: int|
            0 <= i < fields.len() && (#[trigger] fields[i]).0 == name && fields[i].1 is Some,
        payload_metadata(fields, content_field).contains_key(name) ==> payload_metadata(
            fields,
            content_field,
        )[name] is Str,
    decreases fields.len(),
{
    if fields.len() > 0 {
        let before = fields.drop_last();
        metadata_is_the_rest(before, content_field, name);
        if payload_metadata(before, content_field).contains_key(name) {
            let i = choose|i: int|
                0 <= i < before.len() && (#[trigger] before[i]).0 == name && before[i].1 is Some;
            assert(fields[i] == before[i]);
        }
        assert(forall|i: int| 0 <= i < before.len() ==> #[trigger] fields[i] == before[i]);
        assert(fields[fields.len() - 1] == fields.last());
    }
}

/// A text of a point is in the metadata as it is.
pub proof fn metadata_keeps_texts(
    fields: Seq<(Seq<char>, Option<String>)>,
    content_field: Seq<char>,
    i: int,
)
    requires
        0 <= i < fields.len(),
        fields[i].0 != content_field,
        fields[i].1 is Some,
        forall|j: int| i < j < fields.len() ==> (#[trigger] fields[j]).0 != fields[i].0,
    ensures
        payload_metadata(fields, content_field).contains_key(fields[i].0),
        payload_metadata(fields, content_field)[fields[i].0] == JsonView::Str((fields[i].1->0)@),
    decreases fields.len(),
{
    if i < fields.len() - 1 {
        let init = fields.drop_last();
        assert(fields[fields.len() - 1].0 != fields[i].0);
        assert forall|j: int| i < j < init.len() implies (#[trigger] init[j]).0 != init[i].0 by {
            assert(init[j] == fields[j]);
        }
        metadata_keeps_texts(init, content_field, i);
    }
}

/// The text of a point is that of its field, if the field is text.
pub proof fn contents_are_kept(
    payload: Map<Seq<char>, Option<String>>,
    content_field: Seq<char>,
    text: String,
)
    requires
        payload.contains_key(content_field),
        payload[content_field] == Some(text),
    ensures
        payload_content(payload, content_field) == text@,
{
}

} // verus!
