//! A log of events.

use crate::error::Result;
use crate::json::{Json, JsonView};
use crate::ranking::{before, best_first, lists_best_first, Key};
use crate::text::{cat2, decimal, decimal_text, lemma_decimal_injective, opt_text, owned, same};
use vstd::prelude::*;

verus! {

/// Something that happened.
#[derive(Debug, PartialEq)]
pub struct EpisodicEvent {
    pub id: String,
    pub event_type: String,
    pub payload: Json,
    /// When, in milliseconds since 1970.
    pub timestamp_ms: i64,
}

/// An event, as contracts speak of it.
pub struct EventView {
    pub id: Seq<char>,
    pub event_type: Seq<char>,
    pub payload: JsonView,
    pub timestamp_ms: i64,
}

impl View for EpisodicEvent {
    type V = EventView;

    open spec fn view(&self) -> EventView {
        EventView {
            id: self.id@,
            event_type: self.event_type@,
            payload: self.payload@,
            timestamp_ms: self.timestamp_ms,
        }
    }
}

/// The models of a list of events.
pub open spec fn event_views(s: Seq<EpisodicEvent>) -> Seq<EventView> {
    Seq::new(s.len(), |i: int| s[i]@)
}

impl Clone for EpisodicEvent {
    fn clone(&self) -> (r: Self)
        ensures
            r@ == self@,
    {
        EpisodicEvent {
            id: self.id.clone(),
            event_type: self.event_type.clone(),
            payload: self.payload.duplicate(),
            timestamp_ms: self.timestamp_ms,
        }
    }
}

/// Which events are wanted.
#[derive(Debug, PartialEq)]
pub struct EpisodicQuery {
    pub event_type: Option<String>,
    pub since_ms: Option<i64>,
    pub until_ms: Option<i64>,
    pub limit: Option<usize>,
}

/// A query, as contracts speak of it.
pub struct QueryView {
    pub event_type: Option<Seq<char>>,
    pub since_ms: Option<i64>,
    pub until_ms: Option<i64>,
    pub limit: Option<usize>,
}

impl View for EpisodicQuery {
    type V = QueryView;

    open spec fn view(&self) -> QueryView {
        QueryView {
            event_type: opt_text(self.event_type),
            since_ms: self.since_ms,
            until_ms: self.until_ms,
            limit: self.limit,
        }
    }
}

impl EpisodicQuery {
    /// All events.
    pub fn all() -> (r: Self)
        ensures
            r@ == (QueryView { event_type: None, since_ms: None, until_ms: None, limit: None }),
    {
        EpisodicQuery { event_type: None, since_ms: None, until_ms: None, limit: None }
    }

    /// Only events of one type.
    pub fn of_type(self, event_type: &str) -> (r: Self)
        ensures
            r@ == (QueryView { event_type: Some(event_type@), ..self@ }),
    {
        EpisodicQuery {
            event_type: Some(owned(event_type)),
            since_ms: self.since_ms,
            until_ms: self.until_ms,
            limit: self.limit,
        }
    }

    /// Only events of a time, both ends included.
    pub fn between(self, since_ms: i64, until_ms: i64) -> (r: Self)
        ensures
            r@ == (QueryView { since_ms: Some(since_ms), until_ms: Some(until_ms), ..self@ }),
    {
        EpisodicQuery {
            event_type: self.event_type,
            since_ms: Some(since_ms),
            until_ms: Some(until_ms),
            limit: self.limit,
        }
    }

    /// At most so many events.
    pub fn limit(self, limit: usize) -> (r: Self)
        ensures
            r@ == (QueryView { limit: Some(limit), ..self@ }),
    {
        EpisodicQuery {
            event_type: self.event_type,
            since_ms: self.since_ms,
            until_ms: self.until_ms,
            limit: Some(limit),
        }
    }

    /// Whether an event is wanted.
    pub fn matches(&self, event: &EpisodicEvent) -> (r: bool)
        ensures
            r == wanted(self@, event@),
    {
        let type_fits = match &self.event_type {
            Some(t) => same(&event.event_type, t),
            None => true,
        };
        let late_enough = match self.since_ms {
            Some(s) => event.timestamp_ms >= s,
            None => true,
        };
        let early_enough = match self.until_ms {
            Some(u) => event.timestamp_ms <= u,
            None => true,
        };
        type_fits && late_enough && early_enough
    }
}

/// Whether an event is wanted.
pub open spec fn wanted(q: QueryView, e: EventView) -> bool {
    &&& q.event_type matches Some(t) ==> e.event_type == t
    &&& q.since_ms matches Some(s) ==> e.timestamp_ms >= s
    &&& q.until_ms matches Some(u) ==> e.timestamp_ms <= u
}

/// The keys by which wanted events are ordered: the latest first, and of one
/// moment the one recorded last.
pub open spec fn recency_keys(log: Seq<EventView>, q: QueryView) -> Seq<Option<Key>> {
    Seq::new(
        log.len(),
        |i: int|
            if wanted(q, log[i]) {
                Some((log[i].timestamp_ms as i128, i as i128))
            } else {
                None
            },
    )
}

/// Whether `found` holds the wanted events, the latest first, up to the limit.
pub open spec fn recalls(log: Seq<EventView>, q: QueryView, found: Seq<EventView>) -> bool {
    exists|order: Seq<usize>|
        {
            &&& #[trigger] lists_best_first(recency_keys(log, q), order)
            &&& found.len() == (match q.limit {
                Some(l) => if order.len() < l {
                    order.len() as int
                } else {
                    l as int
                },
                None => order.len() as int,
            })
            &&& forall|i: int| 0 <= i < found.len() ==> (#[trigger] found[i]) == log[order[i] as int]
        }
}

/// A log of events.
pub trait EpisodicMemory {
    /// Records an event and gives its identifier.
    fn record(&mut self, event_type: &str, payload: Json) -> (r: Result<String>);

    /// The wanted events, the latest first.
    fn query(&self, query: EpisodicQuery) -> (r: Result<Vec<EpisodicEvent>>);

    /// Forgets all events.
    fn clear(&mut self) -> (r: Result<()>);
}

/// The identifier with a number.
pub open spec fn event_id(n: nat) -> Seq<char> {
    "event-"@ + decimal(n)
}

/// What an episodic memory holds.
pub struct Episodes {
    /// The events in the order in which they were recorded.
    pub log: Seq<EventView>,
    /// The number of the next identifier.
    pub next_id: u64,
}

/// In-process log of events.
pub struct InMemoryEpisodicMemory {
    events: Vec<EpisodicEvent>,
    next_id: u64,
}

impl View for InMemoryEpisodicMemory {
    type V = Episodes;

    closed spec fn view(&self) -> Episodes {
        Episodes { log: event_views(self.events@), next_id: self.next_id }
    }
}

/// `std::time::SystemTime::now`, as milliseconds since 1970. It depends on the
/// clock, so nothing is said of the result.
#[verifier::external_body]
fn now_ms() -> (r: i64) {
    std::time::SystemTime::now()
        .duration_since(std::time::UNIX_EPOCH)
        .unwrap_or_default()
        .as_millis() as i64
}

impl InMemoryEpisodicMemory {
    /// An empty log.
    pub fn new() -> (r: Self)
        ensures
            r@ == (Episodes { log: Seq::empty(), next_id: 0 }),
    {
        let r = InMemoryEpisodicMemory { events: Vec::new(), next_id: 0 };
        assert(r@.log =~= Seq::<EventView>::empty());
        r
    }

    /// Records an event of a given moment.
    pub fn record_at(&mut self, event_type: &str, payload: Json, timestamp_ms: i64) -> (r: String)
        ensures
            r@ == event_id(old(self)@.next_id as nat),
            final(self)@ == recorded(old(self)@, event_type@, payload@, timestamp_ms),
    {
        let id = cat2("event-", &decimal_text(self.next_id));
        let ghost before = self@.log;
        let event = EpisodicEvent {
            id: id.clone(),
            event_type: owned(event_type),
            payload,
            timestamp_ms,
        };
        let ghost seen = event@;
        self.next_id = self.next_id.wrapping_add(1);
        self.events.push(event);
        assert(self@.log =~= before.push(seen));
        id
    }
}

/// The log with one more event.
pub open spec fn recorded(
    e: Episodes,
    event_type: Seq<char>,
    payload: JsonView,
    timestamp_ms: i64,
) -> Episodes {
    Episodes {
        log: e.log.push(
            EventView { id: event_id(e.next_id as nat), event_type, payload, timestamp_ms },
        ),
        next_id: e.next_id.wrapping_add(1),
    }
}

impl EpisodicMemory for InMemoryEpisodicMemory {
    fn record(&mut self, event_type: &str, payload: Json) -> (r: Result<String>)
        ensures
            r matches Ok(id) && id@ == event_id(old(self)@.next_id as nat),
            exists|now: i64|
                final(self)@ == #[trigger] recorded(old(self)@, event_type@, payload@, now),
    {
        let now: i64 = now_ms();
        Ok(self.record_at(event_type, payload, now))
    }

    fn query(&self, query: EpisodicQuery) -> (r: Result<Vec<EpisodicEvent>>)
        ensures
            r matches Ok(found) && recalls(self@.log, query@, event_views(found@)),
    {
        let ghost log = self@.log;
        let mut keys: Vec<Option<Key>> = Vec::new();
        let mut i: usize = 0;
        while i < self.events.len()
            invariant
                i <= self.events@.len(),
                log == self@.log,
                keys@ == recency_keys(log, query@).take(i as int),
            decreases self.events@.len() - i,
        {
            let ghost whole = recency_keys(log, query@);
            if query.matches(&self.events[i]) {
                keys.push(Some((self.events[i].timestamp_ms as i128, i as i128)));
            } else {
                keys.push(None);
            }
            i += 1;
            assert(keys@ =~= whole.take(i as int));
        }
        assert(keys@ =~= recency_keys(log, query@));
        proof {
            assert forall|a: int, b: int|
                0 <= a < b < keys@.len() && (#[trigger] keys@[a]) is Some && (
                #[trigger] keys@[b]) is Some implies keys@[a]->0 != keys@[b]->0 by {
                assert((keys@[a]->0).1 == a);
                assert((keys@[b]->0).1 == b);
            }
        }
        let order = best_first(&keys);
        let count: usize = match query.limit {
            Some(l) => if order.len() < l {
                order.len()
            } else {
                l
            },
            None => order.len(),
        };
        let mut found: Vec<EpisodicEvent> = Vec::new();
        let mut k: usize = 0;
        while k < count
            invariant
                k <= count <= order@.len(),
                log == self@.log,
                keys@.len() == log.len(),
                lists_best_first(keys@, order@),
                found@.len() == k,
                forall|j: int| 0 <= j < k ==> (#[trigger] found@[j])@ == log[order@[j] as int],
            decreases count - k,
        {
            let p: usize = order[k];
            assert(order@[k as int] < keys@.len());
            found.push(self.events[p].clone());
            k += 1;
        }
        assert(lists_best_first(recency_keys(log, query@), order@));
        Ok(found)
    }

    fn clear(&mut self) -> (r: Result<()>)
        ensures
            r is Ok,
            final(self)@ == (Episodes { log: Seq::empty(), next_id: old(self)@.next_id }),
    {
        self.events.clear();
        assert(self@.log =~= Seq::<EventView>::empty());
        Ok(())
    }
}

/// Whether `places` says where in a log each event of an answer stands, the latest
/// first and of one moment the one recorded last.
pub open spec fn stand_latest_first(
    log: Seq<EventView>,
    found: Seq<EventView>,
    places: Seq<int>,
) -> bool {
    &&& places.len() == found.len()
    &&& forall|i: int|
        0 <= i < places.len() ==> 0 <= (#[trigger] places[i]) < log.len() && found[i]
            == log[places[i]]
    &&& forall|i: int, j: int|
        0 <= i < j < places.len() ==> {
            ||| log[#[trigger] places[i]].timestamp_ms > log[#[trigger] places[j]].timestamp_ms
            ||| log[places[i]].timestamp_ms == log[places[j]].timestamp_ms && places[i] > places[j]
        }
}

/// No event comes before a later one in an answer, and of one moment the one
/// recorded last comes first.
pub proof fn recalls_latest_first(log: Seq<EventView>, q: QueryView, found: Seq<EventView>)
    requires
        recalls(log, q, found),
    ensures
        exists|places: Seq<int>| #[trigger] stand_latest_first(log, found, places),
        forall|i: int| 0 <= i < found.len() ==> wanted(q, #[trigger] found[i]),
{
    let keys = recency_keys(log, q);
    let order = choose|order: Seq<usize>|
        {
            &&& #[trigger] lists_best_first(recency_keys(log, q), order)
            &&& found.len() == (match q.limit {
                Some(l) => if order.len() < l {
                    order.len() as int
                } else {
                    l as int
                },
                None => order.len() as int,
            })
            &&& forall|i: int| 0 <= i < found.len() ==> (#[trigger] found[i]) == log[order[i] as int]
        };
    assert forall|i: int| 0 <= i < found.len() implies wanted(q, #[trigger] found[i]) by {
        assert(keys[order[i] as int] is Some);
    }
    let places = Seq::new(found.len(), |i: int| order[i] as int);
    assert forall|i: int, j: int| 0 <= i < j < places.len() implies {
        ||| log[#[trigger] places[i]].timestamp_ms > log[#[trigger] places[j]].timestamp_ms
        ||| log[places[i]].timestamp_ms == log[places[j]].timestamp_ms && places[i] > places[j]
    } by {
        assert(keys[order[i] as int] is Some);
        assert(keys[order[j] as int] is Some);
    }
    assert forall|i: int| 0 <= i < places.len() implies 0 <= (#[trigger] places[i]) < log.len()
        && found[i] == log[places[i]] by {
        assert(order[i] < keys.len());
    }
    assert(stand_latest_first(log, found, places));
}

/// Every event that was recorded is recalled by a query without a limit that
/// wants it.
pub proof fn recorded_is_recalled(
    log: Seq<EventView>,
    q: QueryView,
    found: Seq<EventView>,
    i: int,
)
    requires
        recalls(log, q, found),
        q.limit is None,
        0 <= i < log.len() <= usize::MAX,
        wanted(q, log[i]),
    ensures
        found.contains(log[i]),
{
    let keys = recency_keys(log, q);
    let order = choose|order: Seq<usize>|
        {
            &&& #[trigger] lists_best_first(recency_keys(log, q), order)
            &&& found.len() == (match q.limit {
                Some(l) => if order.len() < l {
                    order.len() as int
                } else {
                    l as int
                },
                None => order.len() as int,
            })
            &&& forall|i: int| 0 <= i < found.len() ==> (#[trigger] found[i]) == log[order[i] as int]
        };
    let p = i as usize;
    assert(keys[p as int] is Some);
    assert(order.contains(p));
    let k = choose|k: int| 0 <= k < order.len() && order[k] == p;
    assert(found[k] == log[i]);
}

/// Two events get different identifiers as long as numbers last.
pub proof fn event_ids_differ(a: nat, b: nat)
    requires
        a != b,
    ensures
        event_id(a) != event_id(b),
{
    if event_id(a) == event_id(b) {
        let head = "event-"@;
        assert(event_id(a).skip(head.len() as int) =~= decimal(a));
        assert(event_id(b).skip(head.len() as int) =~= decimal(b));
        lemma_decimal_injective(a, b);
    }
}

/// Whether a query asks for an event: it is of the type, if one is given, and not
/// outside of the time, if it is bounded.
pub open spec fn asks_for(q: QueryView, e: EventView) -> bool {
    &&& q.event_type is None || q.event_type == Some(e.event_type)
    &&& q.since_ms is None || q.since_ms->0 <= e.timestamp_ms
    &&& q.until_ms is None || e.timestamp_ms <= q.until_ms->0
}

/// A query finds events that it asks for, and all of them but for its limit: one
/// that it asks for and that was not found is no later than any that was, and so
/// many as the limit allows were found.
pub proof fn queries_find_what_they_ask_for(
    log: Seq<EventView>,
    q: QueryView,
    found: Seq<EventView>,
    i: int,
)
    requires
        recalls(log, q, found),
        0 <= i < log.len() <= usize::MAX,
    ensures
        forall|j: int| 0 <= j < found.len() ==> asks_for(q, #[trigger] found[j]),
        q.limit matches Some(n) ==> found.len() <= n,
        asks_for(q, log[i]) ==> found.contains(log[i]) || (q.limit == Some(found.len() as usize)
            && forall|j: int|
            0 <= j < found.len() ==> (#[trigger] found[j]).timestamp_ms >= log[i].timestamp_ms),
{
    let keys = recency_keys(log, q);
    let order = choose|order: Seq<usize>|
        {
            &&& #[trigger] lists_best_first(keys, order)
            &&& found.len() == (match q.limit {
                Some(l) => if order.len() < l {
                    order.len() as int
                } else {
                    l as int
                },
                None => order.len() as int,
            })
            &&& forall|i: int| 0 <= i < found.len() ==> (#[trigger] found[i]) == log[order[i] as int]
        };
    assert forall|j: int| 0 <= j < found.len() implies asks_for(q, #[trigger] found[j]) by {
        assert(order[j] < keys.len());
        assert(keys[order[j] as int] is Some);
    }
    if asks_for(q, log[i]) {
        let p = i as usize;
        assert(keys[p as int] is Some);
        assert(order.contains(p));
        let k = choose|k: int| 0 <= k < order.len() && order[k] == p;
        if k < found.len() {
            assert(found[k] == log[i]);
        } else {
            assert forall|j: int| 0 <= j < found.len() implies (#[trigger] found[j]).timestamp_ms
                >= log[i].timestamp_ms by {
                assert(before(keys[order[j] as int]->0, keys[order[k] as int]->0));
            }
        }
    }
}

/// What is recorded comes behind what was there, with all that was given.
pub proof fn recording_keeps_the_log(
    e: Episodes,
    event_type: Seq<char>,
    payload: JsonView,
    timestamp_ms: i64,
)
    ensures
        ({
            let after = recorded(e, event_type, payload, timestamp_ms);
            &&& after.log.len() == e.log.len() + 1
            &&& e.log.is_prefix_of(after.log)
            &&& after.log.last().event_type == event_type
            &&& after.log.last().payload == payload
            &&& after.log.last().timestamp_ms == timestamp_ms
        }),
{
}

} // verus!
