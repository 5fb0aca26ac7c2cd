//! Long-term facts that are written and searched on request.

use crate::error::{DaimonError, ErrorView, Outcome, Result};
use crate::json::{Json, JsonMap, JsonView};
use crate::ranking::{before, best_first, lists_best_first, Key};
use crate::retriever::types::{Document, DocumentView, ScoredDocument};
use crate::retriever::vector_store::{
    embed_one, may_embed, may_upsert, EmbeddingModel, VectorStore,
};
use crate::text::{cat2, contains_text, decimal, decimal_text, holds_text, lemma_decimal_injective};
use crate::text::{lowercase, owned, same, split_words, texts, words};
use vstd::prelude::*;

verus! {

/// A fact that a search found, with what it scored.
#[derive(Debug, PartialEq)]
pub struct ArchivalRecord<S> {
    pub id: String,
    pub text: String,
    pub metadata: JsonMap,
    pub score: Option<S>,
}

/// A fact, as contracts speak of it.
pub struct FactView {
    pub id: Seq<char>,
    pub text: Seq<char>,
    pub metadata: Map<Seq<char>, JsonView>,
}

impl<S> ArchivalRecord<S> {
    /// The fact without its score.
    pub open spec fn fact(&self) -> FactView {
        FactView { id: self.id@, text: self.text@, metadata: self.metadata@ }
    }
}

/// A store of facts.
pub trait ArchivalMemory<S> {
    /// Stores a fact and gives its identifier.
    fn insert(&mut self, text: &str, metadata: JsonMap) -> (r: Result<String>);

    /// The facts that match a query best, at most so many.
    fn search(&self, query: &str, top_k: usize) -> (r: Result<Vec<ArchivalRecord<S>>>);

    /// Removes a fact. Says whether there was one.
    fn delete(&mut self, id: &str) -> (r: Result<bool>);

    /// The number of facts.
    fn count(&self) -> (r: Result<usize>);
}

/// The identifier with a number.
pub open spec fn archival_id(n: nat) -> Seq<char> {
    "archival-"@ + decimal(n)
}

/// Writes the identifier with a number.
pub fn archival_id_text(n: u64) -> (r: String)
    ensures
        r@ == archival_id(n as nat),
{
    cat2("archival-", &decimal_text(n))
}

struct StoredFact {
    id: String,
    text: String,
    metadata: JsonMap,
}

/// What an archival memory holds.
pub struct Archive {
    pub facts: Seq<FactView>,
    /// The number of the next identifier.
    pub next_id: u64,
}

/// In-process store of facts. A fact scores one for each word of the query that
/// it contains, in whatever case.
pub struct InMemoryArchivalMemory {
    facts: Vec<StoredFact>,
    next_id: u64,
}

spec fn fact_view(f: StoredFact) -> FactView {
    FactView { id: f.id@, text: f.text@, metadata: f.metadata@ }
}

spec fn fact_views(s: Seq<StoredFact>) -> Seq<FactView> {
    Seq::new(s.len(), |i: int| fact_view(s[i]))
}

impl View for InMemoryArchivalMemory {
    type V = Archive;

    closed spec fn view(&self) -> Archive {
        Archive { facts: fact_views(self.facts@), next_id: self.next_id }
    }
}

/// How many of the words stand in a text.
pub open spec fn hits(text: Seq<char>, terms: Seq<Seq<char>>) -> nat
    decreases terms.len(),
{
    if terms.len() == 0 {
        0
    } else {
        hits(text, terms.drop_last()) + if holds_text(text, terms.last()) {
            1nat
        } else {
            0nat
        }
    }
}

/// The keys by which facts are ordered: by hits, and by age where they are the
/// same. A fact without a hit has none.
pub open spec fn search_keys(facts: Seq<FactView>, terms: Seq<Seq<char>>) -> Seq<Option<Key>> {
    Seq::new(
        facts.len(),
        |i: int|
            if hits(lowercase(facts[i].text), terms) > 0 {
                Some((hits(lowercase(facts[i].text), terms) as i128, (-i) as i128))
            } else {
                None
            },
    )
}

/// Whether `found` holds the best facts for a query, best first and at most
/// `top_k`, with their hits as scores.
pub open spec fn finds(
    facts: Seq<FactView>,
    query: Seq<char>,
    top_k: nat,
    found: Seq<ArchivalRecord<usize>>,
) -> bool {
    let terms = words(lowercase(query));
    exists|order: Seq<usize>|
        {
            &&& #[trigger] lists_best_first(search_keys(facts, terms), order)
            &&& found.len() == if order.len() < top_k {
                order.len()
            } else {
                top_k
            }
            &&& forall|i: int|
                0 <= i < found.len() ==> (#[trigger] found[i]).fact() == facts[order[i] as int]
                    && found[i].score == Some(
                    hits(lowercase(facts[order[i] as int].text), terms) as usize,
                )
        }
}

/// The facts but those with an identifier.
pub open spec fn without_id(facts: Seq<FactView>, id: Seq<char>) -> Seq<FactView>
    decreases facts.len(),
{
    if facts.len() == 0 {
        facts
    } else {
        let before = without_id(facts.drop_last(), id);
        if facts.last().id == id {
            before
        } else {
            before.push(facts.last())
        }
    }
}

/// Whether a fact has an identifier.
pub open spec fn has_id(facts: Seq<FactView>, id: Seq<char>) -> bool {
    exists|i: int| 0 <= i < facts.len() && (#[trigger] facts[i]).id == id
}

fn count_hits(text: &str, terms: &Vec<String>) -> (n: usize)
    ensures
        n == hits(text@, texts(terms@)),
        n <= terms@.len(),
{
    let ghost all = texts(terms@);
    let mut n: usize = 0;
    let mut i: usize = 0;
    assert(all.take(0) =~= Seq::<Seq<char>>::empty());
    while i < terms.len()
        invariant
            i <= terms@.len(),
            all == texts(terms@),
            n <= i,
            n == hits(text@, all.take(i as int)),
        decreases terms@.len() - i,
    {
        assert(all.take(i + 1).drop_last() =~= all.take(i as int));
        if contains_text(text, &terms[i]) {
            n += 1;
        }
        i += 1;
    }
    assert(all.take(i as int) =~= all);
    n
}

impl InMemoryArchivalMemory {
    /// An empty store.
    pub fn new() -> (r: Self)
        ensures
            r@ == (Archive { facts: Seq::empty(), next_id: 0 }),
    {
        let r = InMemoryArchivalMemory { facts: Vec::new(), next_id: 0 };
        assert(r@.facts =~= Seq::<FactView>::empty());
        r
    }
}

impl ArchivalMemory<usize> for InMemoryArchivalMemory {
    fn insert(&mut self, text: &str, metadata: JsonMap) -> (r: Result<String>)
        ensures
            r matches Ok(id) && id@ == archival_id(old(self)@.next_id as nat),
            final(self)@ == (Archive {
                facts: old(self)@.facts.push(
                    FactView {
                        id: archival_id(old(self)@.next_id as nat),
                        text: text@,
                        metadata: metadata@,
                    },
                ),
                next_id: old(self)@.next_id.wrapping_add(1),
            }),
    {
        let id = archival_id_text(self.next_id);
        let ghost before = self@.facts;
        let ghost kept = metadata@;
        self.next_id = self.next_id.wrapping_add(1);
        self.facts.push(StoredFact { id: id.clone(), text: owned(text), metadata });
        assert(self@.facts =~= before.push(FactView { id: id@, text: text@, metadata: kept }));
        Ok(id)
    }

    fn search(&self, query: &str, top_k: usize) -> (r: Result<Vec<ArchivalRecord<usize>>>)
        ensures
            r matches Ok(found) && finds(self@.facts, query@, top_k as nat, found@),
    {
        let lower = query.to_lowercase();
        let terms = split_words(&lower);
        let ghost wanted = words(lowercase(query@));
        let ghost facts = self@.facts;
        let mut keys: Vec<Option<Key>> = Vec::new();
        let mut scores: Vec<usize> = Vec::new();
        let mut i: usize = 0;
        while i < self.facts.len()
            invariant
                i <= self.facts@.len(),
                facts == self@.facts,
                texts(terms@) == wanted,
                keys@.len() == i,
                scores@.len() == i,
                keys@ == search_keys(facts, wanted).take(i as int),
                forall|j: int|
                    0 <= j < i ==> (#[trigger] scores@[j]) == hits(lowercase(facts[j].text), wanted),
            decreases self.facts@.len() - i,
        {
            let n: usize = count_hits(&self.facts[i].text.to_lowercase(), &terms);
            let ghost whole = search_keys(facts, wanted);
            if n > 0 {
                keys.push(Some((n as i128, -(i as i128))));
            } else {
                keys.push(None);
            }
            scores.push(n);
            i += 1;
            assert(keys@ =~= whole.take(i as int));
        }
        assert(keys@ =~= search_keys(facts, wanted));
        proof {
            assert forall|a: int, b: int|
                0 <= a < b < keys@.len() && (#[trigger] keys@[a]) is Some && (
                #[trigger] keys@[b]) is Some implies keys@[a]->0 != keys@[b]->0 by {
                assert((keys@[a]->0).1 == -a);
                assert((keys@[b]->0).1 == -b);
            }
        }
        let order = best_first(&keys);
        let mut found: Vec<ArchivalRecord<usize>> = Vec::new();
        let mut k: usize = 0;
        while k < order.len() && k < top_k
            invariant
                k <= order@.len(),
                k <= top_k,
                facts == self@.facts,
                keys@.len() == facts.len(),
                scores@.len() == facts.len(),
                lists_best_first(keys@, order@),
                found@.len() == k,
                forall|j: int|
                    0 <= j < scores@.len() ==> (#[trigger] scores@[j]) == hits(
                        lowercase(facts[j].text),
                        wanted,
                    ),
                forall|j: int|
                    0 <= j < k ==> (#[trigger] found@[j]).fact() == facts[order@[j] as int]
                        && found@[j].score == Some(
                        hits(lowercase(facts[order@[j] as int].text), wanted) as usize,
                    ),
            decreases order@.len() - k,
        {
            let p: usize = order[k];
            assert(order@[k as int] < keys@.len());
            let fact = &self.facts[p];
            assert(facts[p as int] == fact_view(*fact));
            found.push(
                ArchivalRecord {
                    id: fact.id.clone(),
                    text: fact.text.clone(),
                    metadata: fact.metadata.duplicate(),
                    score: Some(scores[p]),
                },
            );
            k += 1;
        }
        assert(lists_best_first(search_keys(facts, wanted), order@));
        Ok(found)
    }

    fn delete(&mut self, id: &str) -> (r: Result<bool>)
        ensures
            r == Ok::<bool, DaimonError>(has_id(old(self)@.facts, id@)),
            final(self)@ == (Archive {
                facts: without_id(old(self)@.facts, id@),
                next_id: old(self)@.next_id,
            }),
    {
        let ghost all = self@.facts;
        let mut facts: Vec<StoredFact> = Vec::new();
        std::mem::swap(&mut facts, &mut self.facts);
        let mut kept: Vec<StoredFact> = Vec::new();
        let mut found = false;
        assert(all.take(0) =~= Seq::<FactView>::empty());
        assert(fact_views(kept@) =~= without_id(all.take(0), id@));
        let ghost items = facts@;
        for fact in it: facts
            invariant
                it.seq() == items,
                all == fact_views(items),
                fact_views(kept@) == without_id(all.take(it.index()), id@),
                found == exists|j: int| 0 <= j < it.index() && (#[trigger] all[j]).id == id@,
        {
            proof {
                let i = it.index();
                assert(fact == items[i]);
                assert(all[i] == fact_view(fact));
                assert(all.take(i + 1).drop_last() =~= all.take(i));
            }
            if same(&fact.id, id) {
                found = true;
            } else {
                let ghost before = fact_views(kept@);
                let ghost seen = fact_view(fact);
                kept.push(fact);
                assert(fact_views(kept@) =~= before.push(seen));
            }
        }
        assert(all.take(all.len() as int) =~= all);
        self.facts = kept;
        Ok(found)
    }

    fn count(&self) -> (r: Result<usize>)
        ensures
            r matches Ok(n) && n == self@.facts.len(),
    {
        Ok(self.facts.len())
    }
}

/// Whether every identifier was given out before, and none twice.
pub open spec fn ids_in_order(a: Archive) -> bool {
    &&& forall|i: int|
        0 <= i < a.facts.len() ==> exists|k: nat|
            k < a.next_id && (#[trigger] a.facts[i]).id == #[trigger] archival_id(k)
    &&& forall|i: int, j: int|
        0 <= i < j < a.facts.len() ==> (#[trigger] a.facts[i]).id != (#[trigger] a.facts[j]).id
}

/// A new fact gets an identifier that no other has, as long as numbers last.
pub proof fn new_ids_are_fresh(a: Archive, fact: FactView)
    requires
        ids_in_order(a),
        a.next_id < u64::MAX,
        fact.id == archival_id(a.next_id as nat),
    ensures
        !has_id(a.facts, fact.id),
        ids_in_order(
            Archive { facts: a.facts.push(fact), next_id: a.next_id.wrapping_add(1) },
        ),
{
    let after = Archive { facts: a.facts.push(fact), next_id: a.next_id.wrapping_add(1) };
    assert forall|i: int| 0 <= i < a.facts.len() implies (#[trigger] a.facts[i]).id != fact.id by {
        let k = choose|k: nat| k < a.next_id && a.facts[i].id == #[trigger] archival_id(k);
        if a.facts[i].id == fact.id {
            let head = "archival-"@;
            assert(archival_id(k).skip(head.len() as int) =~= decimal(k));
            assert(fact.id.skip(head.len() as int) =~= decimal(a.next_id as nat));
            lemma_decimal_injective(k, a.next_id as nat);
        }
    }
    assert forall|i: int| 0 <= i < after.facts.len() implies exists|k: nat|
        k < after.next_id && (#[trigger] after.facts[i]).id == #[trigger] archival_id(k) by {
        if i < a.facts.len() {
            let k = choose|k: nat| k < a.next_id && a.facts[i].id == #[trigger] archival_id(k);
            assert(after.facts[i].id == archival_id(k));
        } else {
            assert(after.facts[i].id == archival_id(a.next_id as nat));
        }
    }
}

/// An empty archive has given out no identifier twice, and deleting a fact keeps
/// it so.
pub proof fn deleting_keeps_ids_apart(a: Archive, id: Seq<char>)
    requires
        ids_in_order(a),
    ensures
        ids_in_order(Archive { facts: Seq::empty(), next_id: 0 }),
        ids_in_order(Archive { facts: without_id(a.facts, id), next_id: a.next_id }),
    decreases a.facts.len(),
{
    if a.facts.len() > 0 {
        let init = Archive { facts: a.facts.drop_last(), next_id: a.next_id };
        assert forall|i: int| 0 <= i < init.facts.len() implies exists|k: nat|
            k < init.next_id && (#[trigger] init.facts[i]).id == #[trigger] archival_id(k) by {
            assert(init.facts[i] == a.facts[i]);
        }
        deleting_keeps_ids_apart(init, id);
        let last = a.facts.last();
        assert(!has_id(init.facts, last.id)) by {
            if has_id(init.facts, last.id) {
                let i = choose|i: int|
                    0 <= i < init.facts.len() && (#[trigger] init.facts[i]).id == last.id;
                assert(a.facts[i].id == last.id);
                assert(a.facts[a.facts.len() - 1].id == last.id);
            }
        }
        deleted_is_gone(init.facts, id, last.id);
        let before = without_id(init.facts, id);
        let kept = Archive { facts: before, next_id: a.next_id };
        assert(ids_in_order(kept));
        if last.id != id {
            let after = Archive { facts: before.push(last), next_id: a.next_id };
            assert forall|i: int| 0 <= i < after.facts.len() implies exists|k: nat|
                k < after.next_id && (#[trigger] after.facts[i]).id == #[trigger] archival_id(
                    k,
                ) by {
                if i < before.len() {
                    assert(after.facts[i] == kept.facts[i]);
                    let k = choose|k: nat|
                        k < kept.next_id && kept.facts[i].id == #[trigger] archival_id(k);
                    assert(after.facts[i].id == archival_id(k));
                } else {
                    let n = a.facts.len() - 1;
                    assert(after.facts[i] == a.facts[n]);
                    let k = choose|k: nat|
                        k < a.next_id && a.facts[n].id == #[trigger] archival_id(k);
                    assert(after.facts[i].id == archival_id(k));
                }
            }
            assert forall|i: int, j: int| 0 <= i < j < after.facts.len() implies (
            #[trigger] after.facts[i]).id != (#[trigger] after.facts[j]).id by {
                assert(after.facts[i] == kept.facts[i]);
                if j < before.len() {
                    assert(after.facts[j] == kept.facts[j]);
                } else {
                    assert(after.facts[j] == last);
                    assert(!has_id(before, last.id));
                    assert(before[i].id != last.id);
                }
            }
        }
    }
}

/// A deleted fact is gone, and no other is.
pub proof fn deleted_is_gone(facts: Seq<FactView>, id: Seq<char>, other: Seq<char>)
    ensures
        !has_id(without_id(facts, id), id),
        other != id ==> has_id(without_id(facts, id), other) == has_id(facts, other),
    decreases facts.len(),
{
    if facts.len() > 0 {
        let init = facts.drop_last();
        deleted_is_gone(init, id, other);
        let before = without_id(init, id);
        let after = without_id(facts, id);
        if has_id(after, id) {
            let i = choose|i: int| 0 <= i < after.len() && (#[trigger] after[i]).id == id;
            if i < before.len() {
                assert(before[i].id == id);
            }
        }
        if other != id {
            if has_id(after, other) {
                let i = choose|i: int| 0 <= i < after.len() && (#[trigger] after[i]).id == other;
                if i < before.len() {
                    assert(before[i].id == other);
                    let j = choose|j: int| 0 <= j < init.len() && (#[trigger] init[j]).id == other;
                    assert(facts[j].id == other);
                } else {
                    assert(facts[facts.len() - 1].id == other);
                }
            }
            if has_id(facts, other) {
                let i = choose|i: int| 0 <= i < facts.len() && (#[trigger] facts[i]).id == other;
                if i < init.len() {
                    assert(init[i].id == other);
                    let j = choose|j: int|
                        0 <= j < before.len() && (#[trigger] before[j]).id == other;
                    assert(after[j].id == other);
                } else {
                    assert(after[after.len() - 1].id == other);
                }
            }
        }
    }
}

/// A search without words, or for nothing, finds nothing.
pub proof fn empty_searches_find_nothing(
    facts: Seq<FactView>,
    query: Seq<char>,
    top_k: nat,
    found: Seq<ArchivalRecord<usize>>,
)
    requires
        finds(facts, query, top_k, found),
        top_k == 0 || words(lowercase(query)).len() == 0,
    ensures
        found.len() == 0,
{
    let terms = words(lowercase(query));
    let order = choose|order: Seq<usize>|
        {
            &&& #[trigger] lists_best_first(search_keys(facts, terms), order)
            &&& found.len() == if order.len() < top_k {
                order.len()
            } else {
                top_k
            }
            &&& forall|i: int|
                0 <= i < found.len() ==> (#[trigger] found[i]).fact() == facts[order[i] as int]
                    && found[i].score == Some(
                    hits(lowercase(facts[order[i] as int].text), terms) as usize,
                )
        };
    if order.len() > 0 && terms.len() == 0 {
        let p = order[0] as int;
        assert(search_keys(facts, terms)[p] is Some);
        assert(hits(lowercase(facts[p].text), terms) == 0);
    }
}

// ---------------------------------------------------------------------
// Facts in a vector store
// ---------------------------------------------------------------------

/// Facts in a vector store, found by the vectors of an embedding model.
pub struct VectorArchivalMemory<V, E> {
    pub store: V,
    pub embedder: E,
    /// The number of the next identifier.
    pub next_id: u64,
}

/// What storing a fact may lead to: it is embedded, and stored with the first
/// vector under its identifier.
pub open spec fn vector_insert<V: VectorStore, E: EmbeddingModel<Element = V::Element>>(
    store: V,
    embedder: E,
    id: Seq<char>,
    fact: DocumentView,
    r: Outcome<Seq<char>>,
) -> bool {
    exists|e: Result<Vec<Vec<E::Element>>>| #[trigger]
        may_embed(embedder, seq![fact.content], e) && match e {
            Err(x) => r == Err::<Seq<char>, ErrorView>(x@),
            Ok(vs) => if vs@.len() == 0 {
                r == Err::<Seq<char>, ErrorView>(
                    ErrorView::Other("embedding model returned no vectors"@),
                )
            } else {
                exists|u: Result<()>| #[trigger]
                    may_upsert(store, id, vs@[0], fact, u) && r == (match u {
                        Ok(_) => Ok::<Seq<char>, ErrorView>(id),
                        Err(x) => Err::<Seq<char>, ErrorView>(x@),
                    })
            },
        }
}

/// Whether the records are the documents that a store found, in order.
pub open spec fn records_of(
    docs: Seq<ScoredDocument>,
    records: Seq<ArchivalRecord<Json>>,
) -> bool {
    &&& records.len() == docs.len()
    &&& forall|i: int|
        0 <= i < docs.len() ==> (#[trigger] records[i]).fact() == (FactView {
            id: docs[i].id@,
            text: docs[i].document.content@,
            metadata: docs[i].document.metadata@,
        }) && records[i].score == Some(docs[i].score)
}

/// What a search may lead to: the query is embedded, and the store is asked for
/// what is nearest to its first vector.
pub open spec fn vector_search<V: VectorStore, E: EmbeddingModel<Element = V::Element>>(
    store: V,
    embedder: E,
    query: Seq<char>,
    top_k: usize,
    r: Result<Vec<ArchivalRecord<Json>>>,
) -> bool {
    exists|e: Result<Vec<Vec<E::Element>>>| #[trigger]
        may_embed(embedder, seq![query], e) && match e {
            Err(x) => r is Err && r->Err_0@ == x@,
            Ok(vs) => if vs@.len() == 0 {
                r is Err && r->Err_0@ == ErrorView::Other("embedding model returned no vectors"@)
            } else {
                exists|q: Result<Vec<ScoredDocument>>| #[trigger]
                    call_ensures(V::query, (&store, vs@[0], top_k), q) && match q {
                        Ok(docs) => r is Ok && records_of(docs@, r->Ok_0@),
                        Err(x) => r is Err && r->Err_0@ == x@,
                    }
            },
        }
}

/// The first vector of an embedding.
pub fn first_vector<T>(vectors: Vec<Vec<T>>) -> (r: Result<Vec<T>>)
    ensures
        match r {
            Ok(v) => vectors@.len() > 0 && v == vectors@[0],
            Err(e) => vectors@.len() == 0 && e@ == ErrorView::Other(
                "embedding model returned no vectors"@,
            ),
        },
{
    let mut vectors = vectors;
    if vectors.len() == 0 {
        return Err(DaimonError::Other(owned("embedding model returned no vectors")));
    }
    Ok(vectors.remove(0))
}

/// Records of found documents.
pub fn found_records(docs: Vec<ScoredDocument>) -> (r: Vec<ArchivalRecord<Json>>)
    ensures
        records_of(docs@, r@),
{
    let ghost all = docs@;
    let mut r: Vec<ArchivalRecord<Json>> = Vec::new();
    for doc in it: docs
        invariant
            it.seq() == all,
            r@.len() == it.index(),
            records_of(all.take(it.index()), r@),
    {
        assert(doc == all[it.index()]);
        r.push(
            ArchivalRecord {
                id: doc.id,
                text: doc.document.content,
                metadata: doc.document.metadata,
                score: Some(doc.score),
            },
        );
    }
    assert(all.take(all.len() as int) =~= all);
    r
}

impl<V, E> VectorArchivalMemory<V, E> {
    /// Wraps a vector store and an embedding model.
    pub fn new(store: V, embedder: E) -> (r: Self)
        ensures
            r == (VectorArchivalMemory { store, embedder, next_id: 0 }),
    {
        VectorArchivalMemory { store, embedder, next_id: 0 }
    }

    /// The vector store.
    pub fn store(&self) -> (r: &V)
        ensures
            *r == self.store,
    {
        &self.store
    }
}

impl<V: VectorStore, E: EmbeddingModel<Element = V::Element>> ArchivalMemory<
    Json,
> for VectorArchivalMemory<V, E> {
    fn insert(&mut self, text: &str, metadata: JsonMap) -> (r: Result<String>)
        ensures
            final(self).store == old(self).store,
            final(self).embedder == old(self).embedder,
            final(self).next_id == old(self).next_id.wrapping_add(1),
            vector_insert(
                old(self).store,
                old(self).embedder,
                archival_id(old(self).next_id as nat),
                (DocumentView { content: text@, metadata: metadata@, score: None }),
                (match r {
                    Ok(id) => Ok(id@),
                    Err(e) => Err(e@),
                }),
            ),
    {
        let id = archival_id_text(self.next_id);
        self.next_id = self.next_id.wrapping_add(1);
        let embedded = embed_one(&self.embedder, text);
        let ghost fact = DocumentView { content: text@, metadata: metadata@, score: None };
        assert(may_embed(self.embedder, seq![fact.content], embedded));
        match embedded {
            Err(e) => Err(e),
            Ok(vectors) => {
                let vector = match first_vector(vectors) {
                    Ok(v) => v,
                    Err(e) => return Err(e),
                };
                let document = Document { content: owned(text), metadata, score: None };
                assert(document@ == fact);
                let ghost stored = document;
                let ghost by = vector;
                let key: &str = id.as_str();
                let u = self.store.upsert(key, vector, document);
                assert(call_ensures(V::upsert, (&self.store, key, by, stored), u));
                assert(may_upsert(self.store, id@, by, fact, u));
                match u {
                    Ok(_) => Ok(id),
                    Err(e) => Err(e),
                }
            },
        }
    }

    fn search(&self, query: &str, top_k: usize) -> (r: Result<Vec<ArchivalRecord<Json>>>)
        ensures
            vector_search(self.store, self.embedder, query@, top_k, r),
    {
        let embedded = embed_one(&self.embedder, query);
        match embedded {
            Err(e) => Err(e),
            Ok(vectors) => match first_vector(vectors) {
                Err(e) => Err(e),
                Ok(vector) => {
                    let ghost by = vector;
                    let q = self.store.query(vector, top_k);
                    assert(call_ensures(V::query, (&self.store, by, top_k), q));
                    match q {
                        Ok(docs) => Ok(found_records(docs)),
                        Err(e) => Err(e),
                    }
                },
            },
        }
    }

    fn delete(&mut self, id: &str) -> (r: Result<bool>)
        ensures
            *final(self) == *old(self),
            call_ensures(V::delete, (&old(self).store, id), r),
    {
        self.store.delete(id)
    }

    fn count(&self) -> (r: Result<usize>)
        ensures
            call_ensures(V::count, (&self.store,), r),
    {
        self.store.count()
    }
}

/// Words count one by one: each that stands in the text once, and no other.
pub proof fn every_word_counts(text: Seq<char>, a: Seq<Seq<char>>, b: Seq<Seq<char>>)
    ensures
        hits(text, a + b) == hits(text, a) + hits(text, b),
        forall|word: Seq<char>| #[trigger]
            hits(text, seq![word]) == if holds_text(text, word) {
                1nat
            } else {
                0
            },
        hits(text, a) <= a.len(),
    decreases a.len() + b.len(),
{
    assert forall|word: Seq<char>| #[trigger]
        hits(text, seq![word]) == if holds_text(text, word) {
            1nat
        } else {
            0
        } by {
        assert(seq![word].drop_last() =~= Seq::<Seq<char>>::empty());
        reveal_with_fuel(hits, 2);
    }
    if b.len() > 0 {
        every_word_counts(text, a, b.drop_last());
        assert((a + b).drop_last() =~= a + b.drop_last());
    } else {
        assert(a + b =~= a);
        if a.len() > 0 {
            every_word_counts(text, a.drop_last(), b);
        }
    }
}

/// A search finds facts that hold a word of the query, those with more words first,
/// scored by how many. A fact that holds one and was not found holds no more than any
/// that was, and as many as were asked for were found.
pub proof fn searches_find_what_holds_a_word(
    facts: Seq<FactView>,
    query: Seq<char>,
    top_k: nat,
    found: Seq<ArchivalRecord<usize>>,
    i: int,
)
    requires
        finds(facts, query, top_k, found),
        0 <= i < facts.len() <= usize::MAX,
        words(lowercase(query)).len() <= usize::MAX,
    ensures
        found.len() <= top_k,
        forall|j: int|
            0 <= j < found.len() ==> {
                let n = hits(lowercase((#[trigger] found[j]).text@), words(lowercase(query)));
                n > 0 && found[j].score == Some(n as usize) && facts.contains(found[j].fact())
            },
        forall|j: int, k: int|
            0 <= j < k < found.len() ==> hits(
                lowercase((#[trigger] found[j]).text@),
                words(lowercase(query)),
            ) >= hits(lowercase((#[trigger] found[k]).text@), words(lowercase(query))),
        hits(lowercase(facts[i].text), words(lowercase(query))) > 0 ==> (exists|j: int|
            0 <= j < found.len() && (#[trigger] found[j]).fact() == facts[i]) || (found.len()
            == top_k && forall|j: int|
            0 <= j < found.len() ==> hits(
                lowercase((#[trigger] found[j]).text@),
                words(lowercase(query)),
            ) >= hits(lowercase(facts[i].text), words(lowercase(query)))),
{
    let terms = words(lowercase(query));
    let keys = search_keys(facts, terms);
    let order = choose|order: Seq<usize>|
        {
            &&& #[trigger] lists_best_first(keys, order)
            &&& found.len() == if order.len() < top_k {
                order.len()
            } else {
                top_k
            }
            &&& forall|i: int|
                0 <= i < found.len() ==> (#[trigger] found[i]).fact() == facts[order[i] as int]
                    && found[i].score == Some(
                    hits(lowercase(facts[order[i] as int].text), terms) as usize,
                )
        };
    assert forall|f: FactView| hits(lowercase(#[trigger] f.text), terms) <= usize::MAX by {
        every_word_counts(lowercase(f.text), terms, Seq::empty());
    }
    assert forall|j: int| 0 <= j < found.len() implies facts.contains(
        (#[trigger] found[j]).fact(),
    ) && hits(lowercase(found[j].text@), terms) > 0 && found[j].text@ == facts[
    order[j] as int].text by {
        assert(order[j] < keys.len() && keys[order[j] as int] is Some);
        assert(found[j].fact() == facts[order[j] as int]);
        assert(found[j].fact().text == found[j].text@);
    }
    assert forall|j: int, k: int| 0 <= j < k < found.len() implies hits(
        lowercase((#[trigger] found[j]).text@),
        terms,
    ) >= hits(lowercase((#[trigger] found[k]).text@), terms) by {
        assert(before(keys[order[j] as int]->0, keys[order[k] as int]->0));
    }
    if hits(lowercase(facts[i].text), terms) > 0 {
        let p = i as usize;
        assert(keys[p as int] is Some);
        assert(order.contains(p));
        let k = choose|k: int| 0 <= k < order.len() && order[k] == p;
        if k < found.len() {
            assert(found[k].fact() == facts[i]);
        } else {
            assert forall|j: int| 0 <= j < found.len() implies hits(
                lowercase((#[trigger] found[j]).text@),
                terms,
            ) >= hits(lowercase(facts[i].text), terms) by {
                assert(before(keys[order[j] as int]->0, keys[order[k] as int]->0));
            }
        }
    }
}

/// Deleting takes the facts with an identifier and leaves all others, in order.
pub proof fn deleting_takes_one_id(a: Seq<FactView>, b: Seq<FactView>, id: Seq<char>)
    ensures
        without_id(a + b, id) == without_id(a, id) + without_id(b, id),
        forall|f: FactView| #[trigger]
            without_id(seq![f], id) == if f.id == id {
                Seq::empty()
            } else {
                seq![f]
            },
    decreases b.len(),
{
    assert forall|f: FactView| #[trigger]
        without_id(seq![f], id) == if f.id == id {
            Seq::empty()
        } else {
            seq![f]
        } by {
        assert(seq![f].drop_last() =~= Seq::<FactView>::empty());
        reveal_with_fuel(without_id, 2);
        assert(without_id(seq![f], id) =~= if f.id == id {
            Seq::empty()
        } else {
            seq![f]
        });
    }
    if b.len() == 0 {
        assert(a + b =~= a);
        assert(without_id(a, id) + without_id(b, id) =~= without_id(a, id));
    } else {
        deleting_takes_one_id(a, b.drop_last(), id);
        assert((a + b).drop_last() =~= a + b.drop_last());
        assert(without_id(a + b, id) =~= without_id(a, id) + without_id(b, id));
    }
}

/// A fact that is stored was embedded, and went to the store whole, under its
/// identifier and with the vector that it was given.
pub proof fn stored_facts_are_whole<V: VectorStore, E: EmbeddingModel<Element = V::Element>>(
    store: V,
    embedder: E,
    id: Seq<char>,
    fact: DocumentView,
    out: Seq<char>,
)
    requires
        vector_insert(store, embedder, id, fact, Ok(out)),
    ensures
        out == id,
        exists|vs: Vec<Vec<E::Element>>, u: Result<()>|
            {
                &&& #[trigger] may_embed(embedder, seq![fact.content], Ok(vs))
                &&& vs@.len() > 0
                &&& #[trigger] may_upsert(store, id, vs@[0], fact, u)
                &&& u is Ok
            },
{
    let r = Ok::<Seq<char>, ErrorView>(out);
    let e = choose|e: Result<Vec<Vec<E::Element>>>| #[trigger]
        may_embed(embedder, seq![fact.content], e) && match e {
            Err(x) => r == Err::<Seq<char>, ErrorView>(x@),
            Ok(vs) => if vs@.len() == 0 {
                r == Err::<Seq<char>, ErrorView>(
                    ErrorView::Other("embedding model returned no vectors"@),
                )
            } else {
                exists|u: Result<()>| #[trigger]
                    may_upsert(store, id, vs@[0], fact, u) && r == (match u {
                        Ok(_) => Ok::<Seq<char>, ErrorView>(id),
                        Err(x) => Err::<Seq<char>, ErrorView>(x@),
                    })
            },
        };
    let vs = e->Ok_0;
    let u = choose|u: Result<()>| #[trigger]
        may_upsert(store, id, vs@[0], fact, u) && r == (match u {
            Ok(_) => Ok::<Seq<char>, ErrorView>(id),
            Err(x) => Err::<Seq<char>, ErrorView>(x@),
        });
    assert(may_embed(embedder, seq![fact.content], Ok(vs)));
    assert(may_upsert(store, id, vs@[0], fact, u));
}

/// What a store found is handed on one for one: the identifier, the text, the metadata
/// and the score of each document.
pub proof fn found_facts_are_whole(
    docs: Seq<ScoredDocument>,
    records: Seq<ArchivalRecord<Json>>,
    i: int,
)
    requires
        records_of(docs, records),
        0 <= i < docs.len(),
    ensures
        records.len() == docs.len(),
        records[i].id@ == docs[i].id@,
        records[i].text@ == docs[i].document.content@,
        records[i].metadata@ == docs[i].document.metadata@,
        records[i].score == Some(docs[i].score),
{
    assert(records[i].fact().id == records[i].id@);
}

/// A search that ends well asked the store for so many documents nearest to the first
/// vector of the query, and hands on what the store found.
pub proof fn vector_searches_ask_the_store<V: VectorStore, E: EmbeddingModel<Element = V::Element>>(
    store: V,
    embedder: E,
    query: Seq<char>,
    top_k: usize,
    r: Result<Vec<ArchivalRecord<Json>>>,
)
    requires
        vector_search(store, embedder, query, top_k, r),
        r is Ok,
    ensures
        exists|vs: Vec<Vec<E::Element>>, docs: Vec<ScoredDocument>|
            {
                &&& #[trigger] may_embed(embedder, seq![query], Ok(vs))
                &&& vs@.len() > 0
                &&& #[trigger] call_ensures(V::query, (&store, vs@[0], top_k), Ok(docs))
                &&& records_of(docs@, r->Ok_0@)
            },
{
    let e = choose|e: Result<Vec<Vec<E::Element>>>| #[trigger]
        may_embed(embedder, seq![query], e) && match e {
            Err(x) => r is Err && r->Err_0@ == x@,
            Ok(vs) => if vs@.len() == 0 {
                r is Err && r->Err_0@ == ErrorView::Other("embedding model returned no vectors"@)
            } else {
                exists|q: Result<Vec<ScoredDocument>>| #[trigger]
                    call_ensures(V::query, (&store, vs@[0], top_k), q) && match q {
                        Ok(docs) => r is Ok && records_of(docs@, r->Ok_0@),
                        Err(x) => r is Err && r->Err_0@ == x@,
                    }
            },
        };
    let vs = e->Ok_0;
    let q = choose|q: Result<Vec<ScoredDocument>>| #[trigger]
        call_ensures(V::query, (&store, vs@[0], top_k), q) && match q {
            Ok(docs) => r is Ok && records_of(docs@, r->Ok_0@),
            Err(x) => r is Err && r->Err_0@ == x@,
        };
    assert(may_embed(embedder, seq![query], Ok(vs)));
    assert(call_ensures(V::query, (&store, vs@[0], top_k), Ok(q->Ok_0)));
}

} // verus!
