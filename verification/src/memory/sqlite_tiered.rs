//! How the memory tiers are laid out in tables.

use crate::contained::{
    holds, holds_in_order, lemma_holds_within, lemma_one_behind_the_other, lemma_single,
};
use crate::error::{DaimonError, ErrorView, Result};
use crate::json::{json_text, parsed_json, parsed_object, rereadable, Json, JsonMap, JsonView};
use crate::memory::archival_memory::ArchivalRecord;
use crate::memory::episodic_memory::{EpisodicEvent, EpisodicQuery, QueryView};
use crate::text::{cat2, cat3, cat5, chars_of, decimal, decimal_text, hex_text, join, joined};
use crate::text::{numeral, owned, signed_decimal, signed_decimal_text, split_words, texts};
use crate::text::{trim_text, trimmed, words, zero_padded};
use vstd::prelude::*;

verus! {

// ---------------------------------------------------------------------
// Core memory
// ---------------------------------------------------------------------

/// The error for a text that is over its stored limit.
pub open spec fn stored_limit_error(label: Seq<char>, limit: i64) -> ErrorView {
    ErrorView::Other(
        "core memory block '"@ + label + "' exceeds limit of "@ + signed_decimal(limit as int)
            + " characters"@,
    )
}

/// Refuses a text that has more characters than a stored limit allows.
pub fn check_stored_limit(label: &str, value: &str, limit: Option<i64>) -> (r: Result<()>)
    ensures
        match r {
            Ok(_) => limit matches Some(n) ==> value@.len() <= n,
            Err(e) => limit is Some && value@.len() > limit->0 && e@ == stored_limit_error(
                label@,
                limit->0,
            ),
        },
{
    if let Some(n) = limit {
        if value.unicode_len() as i128 > n as i128 {
            return Err(
                DaimonError::Other(
                    cat5(
                        "core memory block '",
                        label,
                        "' exceeds limit of ",
                        &signed_decimal_text(n),
                        " characters",
                    ),
                ),
            );
        }
    }
    Ok(())
}

/// A block's limit as its column holds it.
pub fn limit_to_column(limit: Option<usize>) -> (r: Option<i64>)
    ensures
        r == (match limit {
            Some(n) => Some(n as i64),
            None => None,
        }),
{
    match limit {
        Some(n) => Some(n as i64),
        None => None,
    }
}

/// A block's limit as its column gives it back.
pub fn limit_from_column(column: Option<i64>) -> (r: Option<usize>)
    ensures
        r == (match column {
            Some(n) => Some(n as usize),
            None => None,
        }),
{
    match column {
        Some(n) => Some(n as usize),
        None => None,
    }
}

/// The value of a block after text was appended, with its limit; a block that
/// is not there is made without one.
pub open spec fn appended_value(
    existing: Option<(Seq<char>, Option<i64>)>,
    text: Seq<char>,
) -> (Seq<char>, Option<i64>) {
    match existing {
        Some((value, limit)) => (value + text, limit),
        None => (text, None),
    }
}

/// Works out a block after text was appended. Refuses one that is over its
/// limit then.
pub fn append_to_stored(
    label: &str,
    existing: Option<(String, Option<i64>)>,
    text: &str,
) -> (r: Result<(String, Option<i64>)>)
    ensures
        ({
            let before = match existing {
                Some((v, l)) => Some((v@, l)),
                None => None,
            };
            let (value, limit) = appended_value(before, text@);
            match r {
                Ok((v, l)) => v@ == value && l == limit && (limit matches Some(n) ==> value.len()
                    <= n),
                Err(e) => limit is Some && value.len() > limit->0 && e@ == stored_limit_error(
                    label@,
                    limit->0,
                ),
            }
        }),
{
    let (value, limit) = match existing {
        Some((value, limit)) => (cat2(&value, text), limit),
        None => (owned(text), None),
    };
    match check_stored_limit(label, &value, limit) {
        Ok(_) => Ok((value, limit)),
        Err(e) => Err(e),
    }
}

// ---------------------------------------------------------------------
// Identifiers
// ---------------------------------------------------------------------

/// The identifier of a row by the number that the table gave it.
pub fn sequence_id(prefix: &str, seq: i64) -> (r: String)
    ensures
        r@ == prefix@ + "-"@ + signed_decimal(seq as int),
{
    cat3(prefix, "-", &signed_decimal_text(seq))
}

/// A session identifier made of a moment in nanoseconds, a process number, a
/// count and a random number.
pub fn default_session_id(nanos: u128, pid: u32, count: u64, random: u64) -> (r: String)
    ensures
        r@ == zero_padded(numeral(nanos as nat, 16), 32) + "-"@ + zero_padded(
            numeral(pid as nat, 16),
            8,
        ) + "-"@ + zero_padded(numeral(count as nat, 16), 16) + "-"@ + zero_padded(
            numeral(random as nat, 16),
            16,
        ),
{
    let head = cat5(
        &hex_text(nanos, 32),
        "-",
        &hex_text(pid as u128, 8),
        "-",
        &hex_text(count as u128, 16),
    );
    cat3(&head, "-", &hex_text(random as u128, 16))
}

// ---------------------------------------------------------------------
// Archival memory
// ---------------------------------------------------------------------

/// The text with each double quote twice.
pub open spec fn doubled_quotes(s: Seq<char>) -> Seq<char>
    decreases s.len(),
{
    if s.len() == 0 {
        s
    } else {
        let head = doubled_quotes(s.drop_last());
        if s.last() == '"' {
            head.push('"').push('"')
        } else {
            head.push(s.last())
        }
    }
}

/// A text as a quoted term of a full-text query.
pub open spec fn quoted(s: Seq<char>) -> Seq<char> {
    "\""@ + doubled_quotes(s) + "\""@
}

/// The full-text query that finds any of the words of a text.
pub open spec fn any_word(query: Seq<char>) -> Seq<char> {
    joined(words(query).map_values(|w: Seq<char>| quoted(w)), " OR "@)
}

fn quote_term(term: &str) -> (r: String)
    ensures
        r@ == quoted(term@),
{
    let chars = chars_of(term);
    let mut r = owned("\"");
    let mut i: usize = 0;
    assert(term@.take(0) =~= Seq::<char>::empty());
    assert(r@ =~= "\""@ + doubled_quotes(term@.take(0)));
    while i < chars.len()
        invariant
            i <= chars@.len(),
            chars@ == term@,
            r@ == "\""@ + doubled_quotes(term@.take(i as int)),
        decreases chars@.len() - i,
    {
        let ghost before = doubled_quotes(term@.take(i as int));
        assert(term@.take(i + 1).drop_last() =~= term@.take(i as int));
        let c: char = chars[i];
        if c == '"' {
            r.push('"');
            r.push('"');
            assert(r@ =~= "\""@ + before.push('"').push('"'));
        } else {
            r.push(c);
            assert(r@ =~= "\""@ + before.push(c));
        }
        i += 1;
    }
    assert(term@.take(i as int) =~= term@);
    r.push_str("\"");
    r
}

/// The full-text query for a search, if there is anything to search for.
pub fn search_query(query: &str, top_k: usize) -> (r: Option<String>)
    ensures
        match r {
            Some(q) => trimmed(query@).len() > 0 && top_k > 0 && q@ == any_word(query@),
            None => trimmed(query@).len() == 0 || top_k == 0,
        },
{
    let core_text = trim_text(query);
    if core_text.as_str().unicode_len() == 0 || top_k == 0 {
        return None;
    }
    let terms = split_words(query);
    let ghost all = words(query@);
    let mut parts: Vec<String> = Vec::new();
    let mut i: usize = 0;
    while i < terms.len()
        invariant
            i <= terms@.len(),
            texts(terms@) == all,
            parts@.len() == i,
            forall|j: int| 0 <= j < i ==> (#[trigger] parts@[j])@ == quoted(all[j]),
        decreases terms@.len() - i,
    {
        assert(all[i as int] == terms@[i as int]@);
        parts.push(quote_term(&terms[i]));
        i += 1;
    }
    assert(texts(parts@) =~= all.map_values(|w: Seq<char>| quoted(w)));
    Some(join(&parts, " OR "))
}

/// The metadata that a stored text stands for, if any.
pub open spec fn stored_metadata(text: Seq<char>) -> Option<Map<Seq<char>, JsonView>> {
    match parsed_json(text) {
        Ok(JsonView::Object(m)) => Some(m),
        _ => None,
    }
}

/// The text in which the metadata of a fact is stored. Read again, it gives the
/// metadata back.
pub fn metadata_to_text(metadata: JsonMap) -> (r: String)
    ensures
        r@ == json_text(JsonView::Object(metadata@)),
        rereadable(JsonView::Object(metadata@), 127) ==> stored_metadata(r@) == Some(metadata@),
{
    Json::object(metadata).to_text()
}

/// The record of a stored fact, whose metadata is kept as JSON.
pub fn fact_from_row(id: String, text: String, metadata: &str, score: Json) -> (r: Result<
    ArchivalRecord<Json>,
>)
    ensures
        match r {
            Ok(record) => stored_metadata(metadata@) == Some(record.fact().metadata)
                && record.fact().id == id@ && record.fact().text == text@ && record.score == Some(
                score,
            ),
            Err(e) => stored_metadata(metadata@) is None && parsed_object(metadata@) is Err && e@
                == ErrorView::Other(
                "corrupted metadata JSON: "@ + parsed_object(metadata@)->Err_0,
            ),
        },
{
    match Json::parse_object(metadata) {
        Ok(members) => Ok(ArchivalRecord { id, text, metadata: members, score: Some(score) }),
        Err(e) => Err(DaimonError::Other(cat2("corrupted metadata JSON: ", &e))),
    }
}

// ---------------------------------------------------------------------
// Episodic memory
// ---------------------------------------------------------------------

/// A value that is bound to a statement.
#[derive(Debug, PartialEq)]
pub enum SqlValue {
    Text(String),
    Int(i64),
}

/// A bound value, as contracts speak of it.
pub enum SqlView {
    Text(Seq<char>),
    Int(i64),
}

impl View for SqlValue {
    type V = SqlView;

    open spec fn view(&self) -> SqlView {
        match *self {
            SqlValue::Text(s) => SqlView::Text(s@),
            SqlValue::Int(n) => SqlView::Int(n),
        }
    }
}

/// A statement with the values for its placeholders.
#[derive(Debug, PartialEq)]
pub struct Statement {
    pub sql: String,
    pub params: Vec<SqlValue>,
}

/// A statement, as contracts speak of it.
pub struct StatementView {
    pub sql: Seq<char>,
    pub params: Seq<SqlView>,
}

impl View for Statement {
    type V = StatementView;

    open spec fn view(&self) -> StatementView {
        StatementView {
            sql: self.sql@,
            params: Seq::new(self.params@.len(), |i: int| self.params@[i]@),
        }
    }
}

impl StatementView {
    /// The statement with one more condition, whose placeholder has the number
    /// of the value's place.
    pub open spec fn and(self, comparison: Seq<char>, value: SqlView) -> StatementView {
        StatementView {
            sql: self.sql + " AND "@ + comparison + " ?"@ + decimal(self.params.len() + 1),
            params: self.params.push(value),
        }
    }

    /// The statement with more text.
    pub open spec fn followed_by(self, text: Seq<char>) -> StatementView {
        StatementView { sql: self.sql + text, params: self.params }
    }
}

/// The statement that reads the events of a session.
pub open spec fn all_events(session: Seq<char>) -> StatementView {
    StatementView {
        sql:
            "SELECT id, event_type, payload, timestamp_ms FROM episodic_events WHERE session_id = ?1"@,
        params: seq![SqlView::Text(session)],
    }
}

/// The statement that reads the wanted events of a session, the latest first.
pub open spec fn wanted_events(session: Seq<char>, q: QueryView) -> StatementView {
    let a = all_events(session);
    let b = match q.event_type {
        Some(t) => a.and("event_type ="@, SqlView::Text(t)),
        None => a,
    };
    let c = match q.since_ms {
        Some(t) => b.and("timestamp_ms >="@, SqlView::Int(t)),
        None => b,
    };
    let d = match q.until_ms {
        Some(t) => c.and("timestamp_ms <="@, SqlView::Int(t)),
        None => c,
    };
    let e = d.followed_by(" ORDER BY timestamp_ms DESC, rowid DESC"@);
    match q.limit {
        Some(n) => e.followed_by(" LIMIT "@ + decimal(n as nat)),
        None => e,
    }
}

impl Statement {
    fn and(self, comparison: &str, value: SqlValue) -> (r: Self)
        requires
            self@.params.len() < usize::MAX,
        ensures
            r@ == self@.and(comparison@, value@),
    {
        let ghost before = self@;
        let ghost seen = value@;
        let Statement { sql, params } = self;
        let mut params = params;
        let n: usize = params.len() + 1;
        let text = cat5(&sql, " AND ", comparison, " ?", &decimal_text(n as u64));
        params.push(value);
        let r = Statement { sql: text, params };
        assert(r@.params =~= before.params.push(seen));
        r
    }

    fn followed_by(self, text: &str) -> (r: Self)
        ensures
            r@ == self@.followed_by(text@),
    {
        let ghost before = self@;
        let r = Statement { sql: cat2(&self.sql, text), params: self.params };
        assert(r@.params =~= before.params);
        r
    }
}

/// The statement that reads the wanted events of a session, the latest first.
pub fn events_statement(session: &str, query: &EpisodicQuery) -> (r: Statement)
    ensures
        r@ == wanted_events(session@, query@),
{
    let mut params: Vec<SqlValue> = Vec::new();
    params.push(SqlValue::Text(owned(session)));
    let a = Statement {
        sql: owned(
            "SELECT id, event_type, payload, timestamp_ms FROM episodic_events WHERE session_id = ?1",
        ),
        params,
    };
    assert(a@.params =~= all_events(session@).params);
    let b = match &query.event_type {
        Some(t) => a.and("event_type =", SqlValue::Text(t.clone())),
        None => a,
    };
    let c = match query.since_ms {
        Some(t) => b.and("timestamp_ms >=", SqlValue::Int(t)),
        None => b,
    };
    let d = match query.until_ms {
        Some(t) => c.and("timestamp_ms <=", SqlValue::Int(t)),
        None => c,
    };
    let e = d.followed_by(" ORDER BY timestamp_ms DESC, rowid DESC");
    match query.limit {
        Some(n) => e.followed_by(&cat2(" LIMIT ", &decimal_text(n as u64))),
        None => e,
    }
}

/// The event of a row, whose payload is kept as JSON.
pub fn event_from_row(id: String, event_type: String, payload: &str, timestamp_ms: i64) -> (r:
    Result<EpisodicEvent>)
    ensures
        match r {
            Ok(event) => parsed_json(payload@) == Ok::<JsonView, Seq<char>>(event@.payload)
                && event@.id == id@ && event@.event_type == event_type@ && event@.timestamp_ms
                == timestamp_ms,
            Err(e) => parsed_json(payload@) is Err && e@ == ErrorView::Other(
                "corrupted payload JSON: "@ + parsed_json(payload@)->Err_0,
            ),
        },
{
    match Json::parse(payload) {
        Ok(v) => Ok(EpisodicEvent { id, event_type, payload: v, timestamp_ms }),
        Err(e) => Err(DaimonError::Other(cat2("corrupted payload JSON: ", &e))),
    }
}

/// The bound values of a query stand in the order of its conditions, behind the
/// session.
pub proof fn bound_values_in_order(session: Seq<char>, q: QueryView)
    ensures
        wanted_events(session, q).params == seq![SqlView::Text(session)] + (match q.event_type {
            Some(t) => seq![SqlView::Text(t)],
            None => Seq::empty(),
        }) + (match q.since_ms {
            Some(t) => seq![SqlView::Int(t)],
            None => Seq::empty(),
        }) + (match q.until_ms {
            Some(t) => seq![SqlView::Int(t)],
            None => Seq::empty(),
        }),
{
    let e: Seq<SqlView> = match q.event_type {
        Some(t) => seq![SqlView::Text(t)],
        None => Seq::empty(),
    };
    let s: Seq<SqlView> = match q.since_ms {
        Some(t) => seq![SqlView::Int(t)],
        None => Seq::empty(),
    };
    let u: Seq<SqlView> = match q.until_ms {
        Some(t) => seq![SqlView::Int(t)],
        None => Seq::empty(),
    };
    assert(wanted_events(session, q).params =~= seq![SqlView::Text(session)] + e + s + u);
}

/// The text that a run of doubled quotes stands for.
pub open spec fn halved_quotes(s: Seq<char>) -> Seq<char>
    decreases s.len(),
{
    if s.len() == 0 {
        s
    } else if s.last() == '"' && s.len() > 1 {
        halved_quotes(s.take(s.len() - 2)).push('"')
    } else {
        halved_quotes(s.drop_last()).push(s.last())
    }
}

/// No word can leave its quotes: read as a quoted term, it is the word again.
pub proof fn quoting_round_trip(s: Seq<char>)
    ensures
        halved_quotes(doubled_quotes(s)) == s,
    decreases s.len(),
{
    if s.len() > 0 {
        let init = s.drop_last();
        quoting_round_trip(init);
        let head = doubled_quotes(init);
        if s.last() == '"' {
            assert(head.push('"').push('"').take(head.len() as int) =~= head);
        } else {
            assert(head.push(s.last()).drop_last() =~= head);
        }
        assert(init.push(s.last()) =~= s);
    }
}

/// A limit that fits the column comes back as it was.
pub proof fn limit_round_trip(limit: usize)
    requires
        limit <= i64::MAX,
    ensures
        (limit as i64) as usize == limit,
{
}

/// The conditions of a query in words, each with the number of the value that it is
/// held against.
pub open spec fn conditions(q: QueryView) -> Seq<Seq<char>> {
    let a: nat = if q.event_type is Some {
        2
    } else {
        1
    };
    let b: nat = if q.since_ms is Some {
        a + 1
    } else {
        a
    };
    (if q.event_type is Some {
        seq!["event_type = ?"@ + decimal(2)]
    } else {
        Seq::empty()
    }) + (if q.since_ms is Some {
        seq!["timestamp_ms >= ?"@ + decimal(a + 1)]
    } else {
        Seq::empty()
    }) + (if q.until_ms is Some {
        seq!["timestamp_ms <= ?"@ + decimal(b + 1)]
    } else {
        Seq::empty()
    })
}

proof fn lemma_condition(
    sql: Seq<char>,
    parts: Seq<Seq<char>>,
    comparison: Seq<char>,
    number: Seq<char>,
    words: Seq<char>,
)
    requires
        holds_in_order(sql, parts),
        comparison + " ?"@ == words,
    ensures
        holds_in_order(
            sql + " AND "@ + comparison + " ?"@ + number,
            parts + seq![words + number],
        ),
{
    let part = words + number;
    let with = " AND "@ + part;
    assert(holds(with, part)) by {
        lemma_holds_within(" AND "@, part, Seq::empty());
        assert(" AND "@ + part + Seq::<char>::empty() =~= with);
    }
    lemma_single(with, part);
    lemma_one_behind_the_other(sql, parts, with, seq![part]);
    lemma_regrouped(sql, " AND "@, comparison, " ?"@, number);
}

proof fn lemma_regrouped(
    a: Seq<char>,
    b: Seq<char>,
    c: Seq<char>,
    d: Seq<char>,
    e: Seq<char>,
)
    ensures
        a + (b + (c + d + e)) == a + b + c + d + e,
{
    assert(a + (b + (c + d + e)) =~= a + b + c + d + e);
}

proof fn lemma_statement_end(sql: Seq<char>, parts: Seq<Seq<char>>, q: QueryView)
    requires
        holds_in_order(sql, parts),
    ensures
        holds_in_order(
            sql + " ORDER BY timestamp_ms DESC, rowid DESC"@ + (match q.limit {
                Some(n) => " LIMIT "@ + decimal(n as nat),
                None => Seq::empty(),
            }),
            parts + seq!["ORDER BY timestamp_ms DESC, rowid DESC"@] + (match q.limit {
                Some(n) => seq!["LIMIT "@ + decimal(n as nat)],
                None => Seq::empty(),
            }),
        ),
{
    let order = "ORDER BY timestamp_ms DESC, rowid DESC"@;
    let spaced = " ORDER BY timestamp_ms DESC, rowid DESC"@;
    reveal_strlit("ORDER BY timestamp_ms DESC, rowid DESC");
    reveal_strlit(" ORDER BY timestamp_ms DESC, rowid DESC");
    assert(spaced =~= seq![' '] + order);
    lemma_holds_within(seq![' '], order, Seq::empty());
    assert(seq![' '] + order + Seq::<char>::empty() =~= spaced);
    lemma_single(spaced, order);
    lemma_one_behind_the_other(sql, parts, spaced, seq![order]);
    match q.limit {
        Some(n) => {
            let limit = "LIMIT "@ + decimal(n as nat);
            let tail = " LIMIT "@ + decimal(n as nat);
            reveal_strlit("LIMIT ");
            reveal_strlit(" LIMIT ");
            assert(" LIMIT "@ =~= seq![' '] + "LIMIT "@);
            lemma_holds_within(seq![' '], limit, Seq::empty());
            assert(seq![' '] + limit + Seq::<char>::empty() =~= tail);
            lemma_single(tail, limit);
            lemma_one_behind_the_other(sql + spaced, parts + seq![order], tail, seq![limit]);
        },
        None => {
            assert(sql + spaced + Seq::<char>::empty() =~= sql + spaced);
            assert(parts + seq![order] + Seq::<Seq<char>>::empty() =~= parts + seq![order]);
        },
    }
}

/// A query for events asks for all of its conditions, each held against its own value,
/// for the latest first, and for no more than the limit.
pub proof fn statements_ask_for_everything(session: Seq<char>, q: QueryView)
    ensures
        holds_in_order(
            wanted_events(session, q).sql,
            seq!["session_id = ?1"@] + conditions(q) + seq![
                "ORDER BY timestamp_ms DESC, rowid DESC"@,
            ] + (match q.limit {
                Some(n) => seq!["LIMIT "@ + decimal(n as nat)],
                None => Seq::empty(),
            }),
        ),
{
    let all = all_events(session);
    let head =
        "SELECT id, event_type, payload, timestamp_ms FROM episodic_events WHERE session_id = ?1"@;
    let first = "session_id = ?1"@;
    reveal_strlit(
        "SELECT id, event_type, payload, timestamp_ms FROM episodic_events WHERE session_id = ?1",
    );
    reveal_strlit("session_id = ?1");
    assert(head.len() == 87 && first.len() == 15);
    assert(head.skip(72) =~= first);
    assert(head.take(72) + first + Seq::<char>::empty() =~= head);
    lemma_holds_within(head.take(72), first, Seq::empty());
    lemma_single(head, first);
    reveal_strlit("event_type =");
    reveal_strlit("timestamp_ms >=");
    reveal_strlit("timestamp_ms <=");
    reveal_strlit(" ?");
    reveal_strlit("event_type = ?");
    reveal_strlit("timestamp_ms >= ?");
    reveal_strlit("timestamp_ms <= ?");
    assert("event_type ="@ + " ?"@ =~= "event_type = ?"@);
    assert("timestamp_ms >="@ + " ?"@ =~= "timestamp_ms >= ?"@);
    assert("timestamp_ms <="@ + " ?"@ =~= "timestamp_ms <= ?"@);
    let kind = match q.event_type {
        Some(t) => all.and("event_type ="@, SqlView::Text(t)),
        None => all,
    };
    let kinds = if q.event_type is Some {
        seq!["event_type = ?"@ + decimal(2)]
    } else {
        Seq::empty()
    };
    if q.event_type is Some {
        lemma_condition(head, seq![first], "event_type ="@, decimal(2), "event_type = ?"@);
    } else {
        assert(seq![first] + kinds =~= seq![first]);
    }
    let a = kind.params.len();
    let since = match q.since_ms {
        Some(t) => kind.and("timestamp_ms >="@, SqlView::Int(t)),
        None => kind,
    };
    let sinces = if q.since_ms is Some {
        seq!["timestamp_ms >= ?"@ + decimal(a + 1)]
    } else {
        Seq::empty()
    };
    if q.since_ms is Some {
        lemma_condition(
            kind.sql,
            seq![first] + kinds,
            "timestamp_ms >="@,
            decimal(a + 1),
            "timestamp_ms >= ?"@,
        );
    } else {
        assert(seq![first] + kinds + sinces =~= seq![first] + kinds);
    }
    let b = since.params.len();
    let until = match q.until_ms {
        Some(t) => since.and("timestamp_ms <="@, SqlView::Int(t)),
        None => since,
    };
    let untils = if q.until_ms is Some {
        seq!["timestamp_ms <= ?"@ + decimal(b + 1)]
    } else {
        Seq::empty()
    };
    if q.until_ms is Some {
        lemma_condition(
            since.sql,
            seq![first] + kinds + sinces,
            "timestamp_ms <="@,
            decimal(b + 1),
            "timestamp_ms <= ?"@,
        );
    } else {
        assert(seq![first] + kinds + sinces + untils =~= seq![first] + kinds + sinces);
    }
    let parts = seq![first] + kinds + sinces + untils;
    assert(parts =~= seq![first] + conditions(q));
    lemma_statement_end(until.sql, parts, q);
}

/// A search asks for any of the words of the query, each in quotes, in order.
pub proof fn searches_ask_for_every_word(query: Seq<char>) -> (terms: Seq<Seq<char>>)
    ensures
        any_word(query) == joined(terms, " OR "@),
        terms.len() == words(query).len(),
        forall|i: int|
            0 <= i < terms.len() ==> (#[trigger] terms[i]).len() >= 2 && terms[i][0] == '"'
                && terms[i].last() == '"' && halved_quotes(
                terms[i].subrange(1, terms[i].len() - 1),
            ) == words(query)[i],
{
    let terms = words(query).map_values(|w: Seq<char>| quoted(w));
    assert forall|i: int| 0 <= i < terms.len() implies (#[trigger] terms[i]).len() >= 2
        && terms[i][0] == '"' && terms[i].last() == '"' && halved_quotes(
        terms[i].subrange(1, terms[i].len() - 1),
    ) == words(query)[i] by {
        let w = words(query)[i];
        reveal_strlit("\"");
        assert(terms[i] == quoted(w));
        quoting_round_trip(w);
        assert(quoted(w).subrange(1, quoted(w).len() - 1) =~= doubled_quotes(w));
    }
    terms
}

/// Appending keeps what was there, behind which the text comes, and the limit.
pub proof fn appending_keeps_the_value(
    existing: Option<(Seq<char>, Option<i64>)>,
    text: Seq<char>,
)
    ensures
        existing matches Some(old_block) ==> old_block.0.is_prefix_of(
            appended_value(existing, text).0,
        ) && appended_value(existing, text).0.skip(old_block.0.len() as int) == text
            && appended_value(existing, text).1 == old_block.1,
        existing is None ==> appended_value(existing, text) == (text, None::<i64>),
{
    if let Some(old_block) = existing {
        assert((old_block.0 + text).skip(old_block.0.len() as int) =~= text);
    }
}

} // verus!
