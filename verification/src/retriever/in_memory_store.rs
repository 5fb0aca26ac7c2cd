//! A vector store in memory that compares a query with every document.

use crate::json::Json;
use crate::map::{entries_map, names_unique, NameMap};
use crate::ranking::{ahead, lists_top, top};
use crate::retriever::types::{scored_views, Document, ScoredDocument, ScoredView};
use crate::text::owned;
use vstd::prelude::*;

verus! {

/// How near a document is to a query.
#[derive(Debug)]
pub struct Judgement {
    /// The larger, the nearer.
    pub key: i64,
    /// The score as JSON has it.
    pub score: Json,
}

/// The keys of some judgements.
pub open spec fn judged_keys(s: Seq<Judgement>) -> Seq<i64> {
    s.map_values(|j: Judgement| j.key)
}

/// The keys of some judgements.
pub(crate) fn keys_of(judged: &Vec<Judgement>) -> (r: Vec<i64>)
    ensures
        r@ == judged_keys(judged@),
{
    let mut keys: Vec<i64> = Vec::new();
    let mut i: usize = 0;
    while i < judged.len()
        invariant
            i <= judged@.len(),
            keys@.len() == i,
            forall|j: int| 0 <= j < i ==> (#[trigger] keys@[j]) == judged@[j].key,
        decreases judged@.len() - i,
    {
        keys.push(judged[i].key);
        i += 1;
    }
    assert(keys@ =~= judged_keys(judged@));
    keys
}

/// A document with its vector.
#[derive(Debug)]
pub struct StoredEntry<T> {
    pub embedding: Vec<T>,
    pub document: Document,
}

/// A vector store in memory.
pub struct InMemoryVectorStoreBackend<T> {
    pub entries: NameMap<StoredEntry<T>>,
}

/// What a query finds: the documents at some positions, with their scores.
pub open spec fn found_at<T>(
    list: Seq<(Seq<char>, StoredEntry<T>)>,
    judged: Seq<Judgement>,
    order: Seq<usize>,
) -> Seq<ScoredView> {
    Seq::new(
        order.len(),
        |i: int|
            ScoredView {
                id: list[order[i] as int].0,
                document: list[order[i] as int].1.document@,
                score: judged[order[i] as int].score@,
            },
    )
}

impl<T> InMemoryVectorStoreBackend<T> {
    /// An empty store.
    pub fn new() -> (r: Self)
        ensures
            r.entries@ == Map::<Seq<char>, StoredEntry<T>>::empty(),
            r.entries.list() == Seq::<(Seq<char>, StoredEntry<T>)>::empty(),
    {
        InMemoryVectorStoreBackend { entries: NameMap::new() }
    }

    /// Stores a document under an identifier, in place of an earlier one.
    pub fn upsert(&mut self, id: &str, embedding: Vec<T>, document: Document)
        ensures
            final(self).entries@ == old(self).entries@.insert(
                id@,
                (StoredEntry { embedding, document }),
            ),
    {
        self.entries.insert(owned(id), StoredEntry { embedding, document });
    }

    /// Removes a document. Says whether there was one.
    pub fn delete(&mut self, id: &str) -> (r: bool)
        ensures
            final(self).entries@ == old(self).entries@.remove(id@),
            r == old(self).entries@.contains_key(id@),
    {
        self.entries.remove(id).is_some()
    }

    /// The number of documents.
    pub fn count(&self) -> (r: usize)
        ensures
            r == self.entries@.dom().len(),
            r == self.entries.list().len(),
            names_unique(self.entries.list()),
            self.entries@ == entries_map(self.entries.list()),
    {
        self.entries.len()
    }

    /// The vector of the document at a position.
    pub fn embedding(&self, i: usize) -> (r: &Vec<T>)
        requires
            i < self.entries.list().len(),
        ensures
            *r == self.entries.list()[i as int].1.embedding,
    {
        &self.entries.value(i).embedding
    }

    /// The nearest documents, best first and at most so many. Each document is
    /// judged at its position.
    pub fn query(&self, judged: &Vec<Judgement>, top_k: usize) -> (r: Vec<ScoredDocument>)
        requires
            judged@.len() == self.entries.list().len(),
        ensures
            exists|order: Seq<usize>| #[trigger]
                lists_top(judged_keys(judged@), top_k, order) && scored_views(r@) == found_at(
                    self.entries.list(),
                    judged@,
                    order,
                ),
    {
        let ghost list = self.entries.list();
        let order = top(&keys_of(judged), top_k);
        let mut found: Vec<ScoredDocument> = Vec::new();
        let mut i: usize = 0;
        while i < order.len()
            invariant
                i <= order@.len(),
                list == self.entries.list(),
                judged@.len() == list.len(),
                lists_top(judged_keys(judged@), top_k, order@),
                found@.len() == i,
                forall|j: int|
                    0 <= j < i ==> (#[trigger] found@[j])@ == found_at(list, judged@, order@)[j],
            decreases order@.len() - i,
        {
            let p: usize = order[i];
            assert(p < judged_keys(judged@).len());
            found.push(
                ScoredDocument {
                    id: self.entries.name(p).clone(),
                    document: self.entries.value(p).document.clone(),
                    score: judged[p].score.duplicate(),
                },
            );
            i += 1;
        }
        assert(scored_views(found@) =~= found_at(list, judged@, order@));
        assert(lists_top(judged_keys(judged@), top_k, order@));
        found
    }
}

/// What is found is stored, under the identifier that it is found with: with that
/// it can be removed again.
pub proof fn found_is_stored<T>(
    list: Seq<(Seq<char>, StoredEntry<T>)>,
    judged: Seq<Judgement>,
    top_k: usize,
    order: Seq<usize>,
    i: int,
)
    requires
        names_unique(list),
        judged.len() == list.len(),
        lists_top(judged_keys(judged), top_k, order),
        0 <= i < order.len(),
    ensures
        entries_map(list).contains_key(found_at(list, judged, order)[i].id),
        entries_map(list)[found_at(list, judged, order)[i].id].document@ == found_at(
            list,
            judged,
            order,
        )[i].document,
{
    assert(order[i] < judged_keys(judged).len());
    crate::map::lemma_name_present(list, order[i] as int);
}

/// Storing under an identifier that is taken replaces what was there; another
/// identifier adds one document, and removing it takes it away again.
pub proof fn stores_count<T>(
    entries: Map<Seq<char>, StoredEntry<T>>,
    id: Seq<char>,
    entry: StoredEntry<T>,
)
    requires
        entries.dom().finite(),
    ensures
        entries.insert(id, entry).dom().len() == if entries.contains_key(id) {
            entries.dom().len()
        } else {
            entries.dom().len() + 1
        },
        !entries.contains_key(id) ==> entries.insert(id, entry).remove(id) == entries,
{
    if entries.contains_key(id) {
        assert(entries.insert(id, entry).dom() =~= entries.dom());
    } else {
        assert(entries.insert(id, entry).dom() =~= entries.dom().insert(id));
        assert(entries.insert(id, entry).remove(id) =~= entries);
    }
}

/// What is found comes with its own score, the nearest first.
pub proof fn found_is_scored<T>(
    list: Seq<(Seq<char>, StoredEntry<T>)>,
    judged: Seq<Judgement>,
    top_k: usize,
    order: Seq<usize>,
    i: int,
)
    requires
        judged.len() == list.len(),
        lists_top(judged_keys(judged), top_k, order),
        0 <= i < order.len(),
    ensures
        found_at(list, judged, order)[i].score == judged[order[i] as int].score@,
        found_at(list, judged, order)[i].id == list[order[i] as int].0,
        forall|j: int|
            i < j < order.len() ==> judged[order[i] as int].key >= judged[
            #[trigger] order[j] as int].key,
{
    assert forall|j: int| i < j < order.len() implies judged[order[i] as int].key >= judged[
    #[trigger] order[j] as int].key by {
        assert(ahead(judged_keys(judged), order[i], order[j]));
    }
}

} // verus!
